//! Reading basis sets in the GBASIS format.
//!
//! A GBASIS file holds electron shells only. Each element opens with a line
//! `symbol:basis name:pattern`, then its highest angular momentum, then its
//! shells: a line `letter nprim ncontr` followed by the primitives, one per
//! line (exponent, then a coefficient for each contraction).
use crate::error::BseError;
use crate::fields::{BseBasisElement, BseBasisMinimal, BseElectronShell, ElementV, ShellV, elements_view, keys_increasing};
use crate::compose::shell_types;
use crate::lut::{amchar_to_int, amchar_to_int_spec, element_Z_from_sym, function_type_from_am, function_type_spec, sym_search};
use crate::readers::helpers::{
    add_shell, entry_of, groups_text, lines_from, opt_text, parse_line_regex, parse_primitive_matrix, partition_lines,
    partition_spec, primitive_matrix_spec, prune_lines, prune_lines_spec, push_shell, put_entry, reader_basis, reader_name,
    regex_captures_of, regex_is_match, text_lines, trimmed_lines,
};
use crate::text::{
    chars_of, is_ascii_alpha, lowercase_of, parse_i32, parse_i32_spec, parse_usize, parse_usize_spec, sort_distinct_strs,
    to_lowercase, trim_chars, trim_spec,
};
use vstd::prelude::*;

verus! {

/// The line that opens an element: symbol, basis name and pattern,
/// separated by colons.
pub const GBASIS_ELEMENT_PATTERN: &'static str = r"^([a-zA-Z]{1,3}):(.*):(.*)$";

/// The line that opens a shell: angular momentum letter, number of
/// primitives, number of contractions.
pub const GBASIS_SHELL_PATTERN: &'static str = r"^([a-zA-Z])\s+(\d+)\s+(\d+)$";

/* #region specification */

/// Which lines open an element.
pub open spec fn element_flags(lines: Seq<Seq<char>>) -> Seq<bool> {
    Seq::new(lines.len(), |i: int| regex_captures_of(GBASIS_ELEMENT_PATTERN@, lines[i]) is Some)
}

/// A line that starts with an ASCII letter.
pub open spec fn starts_alpha(l: Seq<char>) -> bool {
    l.len() > 0 && is_ascii_alpha(l[0])
}

/// Which lines open a shell.
pub open spec fn shell_flags(lines: Seq<Seq<char>>) -> Seq<bool> {
    Seq::new(lines.len(), |i: int| starts_alpha(lines[i]))
}

/// A shell from the groups of its opening line (angular momentum letter,
/// number of primitives, number of contractions) and its primitive lines:
/// `None` when a number does not parse, the letter is not one angular
/// momentum, or the primitives do not agree with the numbers.
pub open spec fn gbasis_shell_spec(groups: Seq<Seq<char>>, data: Seq<Seq<char>>) -> Option<ShellV> {
    if groups.len() < 3 {
        None
    } else {
        match (parse_usize_spec(groups[1]), parse_usize_spec(groups[2])) {
            (Some(nprim), Some(ngen)) => {
                let am = match amchar_to_int_spec(lowercase_of(groups[0]), false) {
                    Some(a) => a,
                    None => Seq::empty(),
                };
                if am.len() != 1 {
                    None
                } else {
                    match primitive_matrix_spec(data, Some(nprim), Some(ngen)) {
                        Some((e, c)) => Some(
                            ShellV {
                                function_type: function_type_spec(am, "gto"@, "spherical"@),
                                region: Seq::empty(),
                                am,
                                exponents: e,
                                coefficients: c,
                            },
                        ),
                        None => None,
                    }
                }
            },
            _ => None,
        }
    }
}

/// The element map after one more shell block of element `z`: its shell
/// added at the end of the element's shells; `None` when its opening line
/// does not match or the shell does not parse.
pub open spec fn gbasis_block(b: Seq<Seq<char>>, z: i32, w: Seq<(i32, ElementV)>) -> Option<Seq<(i32, ElementV)>> {
    match regex_captures_of(GBASIS_SHELL_PATTERN@, b[0]) {
        Some(caps) => match gbasis_shell_spec(groups_text(caps), b.skip(1)) {
            Some(sh) => Some(put_entry(w, z, push_shell(entry_of(w, z), sh))),
            None => None,
        },
        None => None,
    }
}

/// The element map after the first `n` shell blocks of element `z`.
pub open spec fn gbasis_shells(blocks: Seq<Seq<Seq<char>>>, z: i32, v: Seq<(i32, ElementV)>, n: int) -> Option<Seq<(i32, ElementV)>>
    decreases n,
{
    if n <= 0 {
        Some(v)
    } else {
        match gbasis_shells(blocks, z, v, n - 1) {
            Some(w) => gbasis_block(blocks[n - 1], z, w),
            None => None,
        }
    }
}

/// The elements and the basis name (the first one met, lowercased) after
/// one more element section; `None` when its opening line does not match,
/// its symbol is unknown, its highest angular momentum is not a number, or a
/// shell does not parse. A section of fewer than four lines is skipped.
pub open spec fn gbasis_section(sec: Seq<Seq<char>>, st: (Seq<(i32, ElementV)>, Option<Seq<char>>)) -> Option<(Seq<(i32, ElementV)>, Option<Seq<char>>)> {
    if sec.len() < 4 {
        Some(st)
    } else {
        match regex_captures_of(GBASIS_ELEMENT_PATTERN@, sec[0]) {
            None => None,
            Some(caps) => {
                let g = groups_text(caps);
                if g.len() < 2 {
                    None
                } else {
                    match sym_search(lowercase_of(g[0]), 1) {
                        None => None,
                        Some(z) => {
                            let name = match st.1 {
                                Some(nm) => Some(nm),
                                None => Some(lowercase_of(g[1])),
                            };
                            if parse_i32_spec(trim_spec(sec[1])) is None {
                                None
                            } else {
                                let rest = sec.skip(2);
                                match partition_spec(rest, shell_flags(rest), 0, None, None, None, 2, true) {
                                    None => None,
                                    Some(blocks) => match gbasis_shells(blocks, z, st.0, blocks.len() as int) {
                                        Some(w) => Some((w, name)),
                                        None => None,
                                    },
                                }
                            }
                        },
                    }
                }
            },
        }
    }
}

/// The elements and basis name after the first `n` element sections.
pub open spec fn gbasis_sections(secs: Seq<Seq<Seq<char>>>, n: int) -> Option<(Seq<(i32, ElementV)>, Option<Seq<char>>)>
    decreases n,
{
    if n <= 0 {
        Some((Seq::empty(), None))
    } else {
        match gbasis_sections(secs, n - 1) {
            Some(st) => gbasis_section(secs[n - 1], st),
            None => None,
        }
    }
}

/// What a GBASIS text holds: its lines trimmed, without comments (`!` or
/// `#`) and blank lines, cut into element sections of at least four lines;
/// the elements and the basis name, or `None` when the text does not parse.
pub open spec fn gbasis_spec(text: Seq<char>) -> Option<(Seq<(i32, ElementV)>, Option<Seq<char>>)> {
    let lines = prune_lines_spec(text_lines(text), "!#"@, true, true);
    if lines.len() == 0 {
        Some((Seq::empty(), None))
    } else {
        match partition_spec(lines, element_flags(lines), 0, None, None, None, 4, true) {
            None => None,
            Some(secs) => gbasis_sections(secs, secs.len() as int),
        }
    }
}

proof fn lemma_shells_none(blocks: Seq<Seq<Seq<char>>>, z: i32, v: Seq<(i32, ElementV)>, k: int, n: int)
    requires
        0 <= k <= n,
        gbasis_shells(blocks, z, v, k) is None,
    ensures
        gbasis_shells(blocks, z, v, n) is None,
    decreases n - k,
{
    if k < n {
        lemma_shells_none(blocks, z, v, k + 1, n);
    }
}

proof fn lemma_sections_none(secs: Seq<Seq<Seq<char>>>, k: int, n: int)
    requires
        0 <= k <= n,
        gbasis_sections(secs, k) is None,
    ensures
        gbasis_sections(secs, n) is None,
    decreases n - k,
{
    if k < n {
        lemma_sections_none(secs, k + 1, n);
    }
}

/* #endregion */

/* #region reading */

fn flag_lines(lines: &Vec<String>, shells: bool) -> (r: Vec<bool>)
    ensures
        r@ == (if shells {
            shell_flags(lines.deep_view())
        } else {
            element_flags(lines.deep_view())
        }),
{
    let ghost target = if shells {
        shell_flags(lines.deep_view())
    } else {
        element_flags(lines.deep_view())
    };
    let mut r: Vec<bool> = Vec::new();
    let mut i: usize = 0;
    while i < lines.len()
        invariant
            i <= lines@.len(),
            target.len() == lines@.len(),
            target == (if shells {
                shell_flags(lines.deep_view())
            } else {
                element_flags(lines.deep_view())
            }),
            r@ == target.take(i as int),
        decreases lines.len() - i,
    {
        assert(lines.deep_view()[i as int] == lines@[i as int]@);
        let f = if shells {
            let c = chars_of(lines[i].as_str());
            c.len() > 0 && (('a' <= c[0] && c[0] <= 'z') || ('A' <= c[0] && c[0] <= 'Z'))
        } else {
            regex_is_match(GBASIS_ELEMENT_PATTERN, lines[i].as_str())
        };
        r.push(f);
        assert(r@ =~= target.take(i + 1));
        i = i + 1;
    }
    assert(target.take(lines@.len() as int) =~= target);
    r
}

/// A shell from the groups of its opening line (angular momentum letter,
/// number of primitives, number of contractions) and its primitive lines:
/// a spherical or plain gaussian shell of that angular momentum, or a
/// `ValueError` when a number does not parse, the letter is not one angular
/// momentum, or the primitives do not agree with the numbers.
pub fn gbasis_shell(groups: &Vec<String>, data: &[String]) -> (r: Result<BseElectronShell, BseError>)
    ensures
        match gbasis_shell_spec(groups.deep_view(), data.deep_view()) {
            Some(sh) => r matches Ok(s) && s@ == sh,
            None => r matches Err(e) && e is ValueError,
        },
{
    let ghost gv = groups.deep_view();
    if groups.len() < 3 {
        return Err(BseError::ValueError("Shell: AM, nprim, ngen".to_string()));
    }
    assert(gv[1] == groups@[1]@ && gv[2] == groups@[2]@ && gv[0] == groups@[0]@);
    let nprim = match parse_usize(chars_of(groups[1].as_str()).as_slice()) {
        Some(n) => n,
        None => {
            return Err(BseError::ValueError("Invalid nprim".to_string()));
        },
    };
    let ngen = match parse_usize(chars_of(groups[2].as_str()).as_slice()) {
        Some(n) => n,
        None => {
            return Err(BseError::ValueError("Invalid ngen".to_string()));
        },
    };
    let shell_am = match amchar_to_int(groups[0].as_str(), false) {
        Some(a) => a,
        None => Vec::new(),
    };
    if shell_am.len() != 1 {
        return Err(BseError::ValueError("Fused AM not supported by gbasis reader".to_string()));
    }
    let func_type = function_type_from_am(shell_am.as_slice(), "gto", "spherical");
    match parse_primitive_matrix(data, Some(nprim), Some(ngen)) {
        Ok((exponents, coefficients)) => {
            let sh = BseElectronShell {
                function_type: func_type,
                region: String::new(),
                angular_momentum: shell_am,
                exponents,
                coefficients,
            };
            proof {
                reveal_strlit("gto");
                reveal_strlit("spherical");
                assert(sh@.region =~= Seq::<char>::empty());
            }
            Ok(sh)
        },
        Err(e) => Err(e),
    }
}

fn read_block(b: &Vec<String>, z: i32, elements: &mut Vec<(i32, BseBasisElement)>) -> (r: Result<(), BseError>)
    requires
        keys_increasing(old(elements)@),
        b@.len() >= 1,
    ensures
        match gbasis_block(b.deep_view(), z, elements_view(old(elements)@)) {
            Some(w) => r is Ok && elements_view(final(elements)@) == w && keys_increasing(final(elements)@),
            None => r matches Err(e) && e is ValueError,
        },
{
    assert(b.deep_view()[0] == b@[0]@);
    let groups = parse_line_regex(GBASIS_SHELL_PATTERN, b[0].as_str(), "Shell: AM, nprim, ngen")?;
    let data = lines_from(b.as_slice(), 1);
    let sh = gbasis_shell(&groups, data.as_slice())?;
    add_shell(elements, z, sh);
    Ok(())
}

fn read_shells(blocks: &Vec<Vec<String>>, z: i32, elements: &mut Vec<(i32, BseBasisElement)>) -> (r: Result<(), BseError>)
    requires
        keys_increasing(old(elements)@),
        forall|k: int| 0 <= k < blocks.deep_view().len() ==> #[trigger] blocks.deep_view()[k].len() >= 1,
    ensures
        match gbasis_shells(blocks.deep_view(), z, elements_view(old(elements)@), blocks@.len() as int) {
            Some(w) => r is Ok && elements_view(final(elements)@) == w && keys_increasing(final(elements)@),
            None => r matches Err(e) && e is ValueError,
        },
{
    let ghost bv = blocks.deep_view();
    let ghost v0 = elements_view(elements@);
    let mut i: usize = 0;
    while i < blocks.len()
        invariant
            i <= blocks@.len(),
            bv == blocks.deep_view(),
            v0 == elements_view(old(elements)@),
            forall|k: int| 0 <= k < bv.len() ==> #[trigger] bv[k].len() >= 1,
            keys_increasing(elements@),
            gbasis_shells(bv, z, v0, i as int) == Some(elements_view(elements@)),
        decreases blocks.len() - i,
    {
        assert(bv[i as int] == blocks@[i as int].deep_view());
        assert(bv[i as int].len() >= 1);
        let ghost before = elements_view(elements@);
        match read_block(&blocks[i], z, elements) {
            Ok(()) => {},
            Err(e) => {
                proof {
                    assert(gbasis_block(bv[i as int], z, before) is None);
                    assert(gbasis_shells(bv, z, v0, i + 1) is None);
                    lemma_shells_none(bv, z, v0, i + 1, blocks@.len() as int);
                }
                return Err(e);
            },
        }
        i = i + 1;
    }
    Ok(())
}

fn read_section(
    sec: &Vec<String>,
    elements: &mut Vec<(i32, BseBasisElement)>,
    name: &mut Option<String>,
) -> (r: Result<(), BseError>)
    requires
        keys_increasing(old(elements)@),
    ensures
        match gbasis_section(sec.deep_view(), (elements_view(old(elements)@), opt_text(*old(name)))) {
            Some(st) => r is Ok && elements_view(final(elements)@) == st.0 && opt_text(*final(name)) == st.1
                && keys_increasing(final(elements)@),
            None => r matches Err(e) && e is ValueError,
        },
{
    let ghost sv = sec.deep_view();
    if sec.len() < 4 {
        return Ok(());
    }
    assert(sv[0] == sec@[0]@ && sv[1] == sec@[1]@);
    let parsed = parse_line_regex(GBASIS_ELEMENT_PATTERN, sec[0].as_str(), "Element entry: sym:basis:pattern")?;
    if parsed.len() < 2 {
        return Err(BseError::ValueError("Element entry: sym:basis:pattern".to_string()));
    }
    assert(parsed.deep_view()[0] == parsed@[0]@ && parsed.deep_view()[1] == parsed@[1]@);
    let z = match element_Z_from_sym(parsed[0].as_str()) {
        Some(z) => z,
        None => {
            return Err(BseError::ValueError("Unknown element symbol".to_string()));
        },
    };
    if name.is_none() {
        *name = Some(to_lowercase(parsed[1].as_str()));
    }
    let max_am_text = trim_chars(chars_of(sec[1].as_str()).as_slice());
    if parse_i32(max_am_text.as_slice()).is_none() {
        return Err(BseError::ValueError("Invalid max_am".to_string()));
    }
    let rest = lines_from(sec.as_slice(), 2);
    let flags = flag_lines(&rest, true);
    let blocks = partition_lines(rest.as_slice(), flags.as_slice(), 0, None, None, None, 2, true)?;
    proof {
        let bv = blocks.deep_view();
        assert forall|k: int| 0 <= k < bv.len() implies #[trigger] bv[k].len() >= 1 by {
            if bv[k].len() < 2 {
                assert(crate::readers::helpers::has_short_block(bv, 2));
            }
        }
    }
    read_shells(&blocks, z, elements)
}

/// Read a basis set in the GBASIS format: for each element section (a line
/// `symbol:basis name:pattern`, the highest angular momentum, then the
/// shells), its shells, each added at the end of its element's shells. The
/// name of the basis set is the first basis name met, lowercased. A
/// `ValueError` comes when the text does not parse (see [`gbasis_spec`]).
pub fn read_gbasis(basis_str: &str) -> (r: Result<BseBasisMinimal, BseError>)
    ensures
        match gbasis_spec(basis_str@) {
            Some((elems, nm)) => r matches Ok(b) && elements_view(b.elements@) == elems && keys_increasing(b.elements@)
                && b.function_types.deep_view() == sort_distinct_strs(shell_types(elems))
                && b.name@ == reader_name(nm) && b.description@ == "no_description"@
                && b.molssi_bse_schema.schema_type@ == "minimal"@ && b.molssi_bse_schema.schema_version@ == "0.1"@,
            None => r matches Err(e) && e is ValueError,
        },
{
    let raw = trimmed_lines(basis_str);
    let lines = prune_lines(raw.as_slice(), "!#", true, true);
    let mut elements: Vec<(i32, BseBasisElement)> = Vec::new();
    let mut name: Option<String> = None;
    if lines.len() == 0 {
        proof {
            assert(elements_view(elements@) =~= Seq::<(i32, ElementV)>::empty());
        }
        return Ok(reader_basis(elements, name));
    }
    let flags = flag_lines(&lines, false);
    let sections = partition_lines(lines.as_slice(), flags.as_slice(), 0, None, None, None, 4, true)?;
    let ghost secs = sections.deep_view();
    proof {
        assert(elements_view(elements@) =~= Seq::<(i32, ElementV)>::empty());
        assert(gbasis_spec(basis_str@) == gbasis_sections(secs, secs.len() as int));
    }
    let mut i: usize = 0;
    while i < sections.len()
        invariant
            i <= sections@.len(),
            secs == sections.deep_view(),
            gbasis_spec(basis_str@) == gbasis_sections(secs, secs.len() as int),
            keys_increasing(elements@),
            gbasis_sections(secs, i as int) == Some((elements_view(elements@), opt_text(name))),
        decreases sections.len() - i,
    {
        assert(secs[i as int] == sections@[i as int].deep_view());
        let ghost before = (elements_view(elements@), opt_text(name));
        match read_section(&sections[i], &mut elements, &mut name) {
            Ok(()) => {},
            Err(e) => {
                proof {
                    assert(gbasis_section(secs[i as int], before) is None);
                    assert(gbasis_sections(secs, i + 1) is None);
                    lemma_sections_none(secs, i + 1, sections@.len() as int);
                }
                return Err(e);
            },
        }
        i = i + 1;
    }
    Ok(reader_basis(elements, name))
}

/* #endregion */

} // verus!
