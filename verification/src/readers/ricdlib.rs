//! Reading auxiliary basis sets in OpenMolcas' RICDlib format.
//!
//! Each element opens with a header `/Symbol.basis....aCD-aux-basis.`, then
//! a line `charge lmax nbasis`, two reference lines, and a shell for each
//! angular momentum from zero up: a line `nprim ncontr amtype`, the
//! exponents, then the coefficients primitive by primitive. Numbers may
//! span lines. A shell with no primitives or no contractions is a
//! placeholder and is skipped.
use crate::error::BseError;
use crate::fields::{BseBasisElement, BseBasisMinimal, BseElectronShell, ElementV, ShellV, elements_view, keys_increasing};
use crate::compose::shell_types;
use crate::lut::{element_Z_from_sym, function_type_from_am, function_type_spec, sym_search};
use crate::misc::{transpose_matrix, transpose_spec};
use crate::readers::helpers::{
    add_shell, entry_of, groups_text, lines_from, opt_text, parse_line_regex, partition_lines, partition_spec, push_shell,
    put_entry, read_n_floats, read_n_spec, reader_basis, reader_name, regex_captures_of, regex_is_match, text_lines,
    trimmed_lines,
};
use crate::text::{chars_of, lowercase_of, parse_i32, parse_i32_spec, parse_usize, parse_usize_spec, sort_distinct_strs, to_lowercase};
use vstd::prelude::*;

verus! {

/// The header of an element: its symbol, the basis name (possibly empty),
/// and the kind of auxiliary basis.
pub const RICD_HEAD_PATTERN: &'static str =
    r"^/([a-zA-Z]+).(\d*[a-zA-Z][a-zA-Z0-9\-\+\*\(\)\[\]]*|)....(aCD|acCD)-aux-basis.\s*$";

/// The line after the header: charge, highest angular momentum, number of
/// functions.
pub const RICD_CHARGE_PATTERN: &'static str = r"^\s*([-+]?\d*\.\d*(?:[dDeE][-+]?\d+)?)\s+(\d+)\s+(\d+)\s*$";

/// The line that opens a shell: number of primitives, of contractions, and
/// the kind of angular functions (`3` for spherical).
pub const RICD_SHELL_PATTERN: &'static str = r"^\s*(\d+)\s+(\d+)\s+(\d+)\s*$";

/* #region specification */

/// Which lines open an element.
pub open spec fn head_flags(lines: Seq<Seq<char>>) -> Seq<bool> {
    Seq::new(lines.len(), |i: int| regex_captures_of(RICD_HEAD_PATTERN@, lines[i]) is Some)
}

/// A list cut into `rows` rows of `cols` items, when it holds exactly
/// `rows * cols` items.
pub open spec fn chunk_spec(flat: Seq<Seq<char>>, rows: nat, cols: nat) -> Option<Seq<Seq<Seq<char>>>> {
    if flat.len() != rows * cols {
        None
    } else {
        Some(Seq::new(rows, |i: int| flat.subrange(i * cols, i * cols + cols)))
    }
}

/// A shell of angular momentum `l` with the given exponents and rows of
/// coefficients (one row per primitive).
pub open spec fn ricd_shell(l: int, amtype: i32, exps: Seq<Seq<char>>, rows: Seq<Seq<Seq<char>>>) -> ShellV {
    ShellV {
        function_type: function_type_spec(
            seq![l as i32],
            "gto"@,
            if amtype == 3 {
                "spherical"@
            } else {
                "cartesian"@
            },
        ),
        region: Seq::empty(),
        am: seq![l as i32],
        exponents: exps,
        coefficients: transpose_spec(rows),
    }
}

/// The element map after the shells of element `z` for angular momenta `l`
/// to `lmax`, read from `rest`; reading stops early when the lines run
/// out. `None` when a shell line does not match, a number does not parse,
/// or the numbers run out.
pub open spec fn ricd_shells(rest: Seq<Seq<char>>, l: int, lmax: int, z: i32, w: Seq<(i32, ElementV)>) -> Option<Seq<(i32, ElementV)>>
    decreases lmax + 1 - l,
{
    if l > lmax || rest.len() == 0 {
        Some(w)
    } else {
        match regex_captures_of(RICD_SHELL_PATTERN@, rest[0]) {
            None => None,
            Some(caps) => {
                let g = groups_text(caps);
                if g.len() < 3 {
                    None
                } else {
                    match (parse_usize_spec(g[0]), parse_usize_spec(g[1]), parse_i32_spec(g[2])) {
                        (Some(nprim), Some(ncontr), Some(amtype)) => {
                            let r1 = rest.skip(1);
                            if nprim == 0 || ncontr == 0 {
                                ricd_shells(r1, l + 1, lmax, z, w)
                            } else if nprim * ncontr > usize::MAX {
                                None
                            } else {
                                match read_n_spec(r1, nprim as nat, true) {
                                    None => None,
                                    Some((exps, r2)) => match read_n_spec(r2, (nprim * ncontr) as nat, true) {
                                        None => None,
                                        Some((flat, r3)) => match chunk_spec(flat, nprim as nat, ncontr as nat) {
                                            None => None,
                                            Some(rows) => ricd_shells(
                                                r3,
                                                l + 1,
                                                lmax,
                                                z,
                                                put_entry(w, z, push_shell(entry_of(w, z), ricd_shell(l, amtype, exps, rows))),
                                            ),
                                        },
                                    },
                                }
                            }
                        },
                        _ => None,
                    }
                }
            },
        }
    }
}

/// The element map after one element block: the element its header
/// names, its highest angular momentum from the line after, then its
/// shells from the fifth line on. A block of fewer than five lines adds
/// nothing.
pub open spec fn ricd_block(b: Seq<Seq<char>>, w: Seq<(i32, ElementV)>) -> Option<Seq<(i32, ElementV)>> {
    if b.len() < 5 {
        Some(w)
    } else {
        match regex_captures_of(RICD_HEAD_PATTERN@, b[0]) {
            None => None,
            Some(caps) => {
                let g = groups_text(caps);
                if g.len() < 1 {
                    None
                } else {
                    match sym_search(lowercase_of(g[0]), 1) {
                        None => None,
                        Some(z) => match regex_captures_of(RICD_CHARGE_PATTERN@, b[1]) {
                            None => None,
                            Some(c) => {
                                let h = groups_text(c);
                                if h.len() < 3 {
                                    None
                                } else {
                                    match (parse_i32_spec(h[1]), parse_usize_spec(h[2])) {
                                        (Some(lmax), Some(_)) => ricd_shells(b.skip(4), 0, lmax as int, z, w),
                                        _ => None,
                                    }
                                }
                            },
                        },
                    }
                }
            },
        }
    }
}

/// The elements and the basis name (the first non-empty one met,
/// lowercased) after one more element block.
pub open spec fn ricd_section(b: Seq<Seq<char>>, st: (Seq<(i32, ElementV)>, Option<Seq<char>>)) -> Option<(Seq<(i32, ElementV)>, Option<Seq<char>>)> {
    if b.len() == 0 {
        Some(st)
    } else {
        match regex_captures_of(RICD_HEAD_PATTERN@, b[0]) {
            None => None,
            Some(caps) => {
                let g = groups_text(caps);
                let name = if st.1 is Some {
                    st.1
                } else if g.len() > 1 && g[1].len() > 0 {
                    Some(lowercase_of(g[1]))
                } else {
                    None
                };
                match ricd_block(b, st.0) {
                    Some(w) => Some((w, name)),
                    None => None,
                }
            },
        }
    }
}

/// The elements and basis name after the first `n` element blocks.
pub open spec fn ricd_sections(secs: Seq<Seq<Seq<char>>>, n: int) -> Option<(Seq<(i32, ElementV)>, Option<Seq<char>>)>
    decreases n,
{
    if n <= 0 {
        Some((Seq::empty(), None))
    } else {
        match ricd_sections(secs, n - 1) {
            Some(st) => ricd_section(secs[n - 1], st),
            None => None,
        }
    }
}

/// What a RICDlib text holds: its lines trimmed, cut into element blocks
/// of at least five lines at the headers; the elements and basis name, or
/// `None` when the text does not parse.
pub open spec fn ricdlib_spec(text: Seq<char>) -> Option<(Seq<(i32, ElementV)>, Option<Seq<char>>)> {
    let lines = text_lines(text);
    if lines.len() == 0 {
        Some((Seq::empty(), None))
    } else {
        match partition_spec(lines, head_flags(lines), 0, None, None, None, 5, true) {
            None => None,
            Some(secs) => ricd_sections(secs, secs.len() as int),
        }
    }
}

proof fn lemma_sections_none(secs: Seq<Seq<Seq<char>>>, k: int, n: int)
    requires
        0 <= k <= n,
        ricd_sections(secs, k) is None,
    ensures
        ricd_sections(secs, n) is None,
    decreases n - k,
{
    if k < n {
        lemma_sections_none(secs, k + 1, n);
    }
}

/* #endregion */

/* #region reading */

fn head_flag_lines(lines: &Vec<String>) -> (r: Vec<bool>)
    ensures
        r@ == head_flags(lines.deep_view()),
{
    let ghost lv = lines.deep_view();
    let mut r: Vec<bool> = Vec::new();
    let mut q: usize = 0;
    while q < lines.len()
        invariant
            q <= lines@.len(),
            lv == lines.deep_view(),
            r@ == head_flags(lv).take(q as int),
        decreases lines.len() - q,
    {
        assert(lv[q as int] == lines@[q as int]@);
        r.push(regex_is_match(RICD_HEAD_PATTERN, lines[q].as_str()));
        assert(r@ =~= head_flags(lv).take(q + 1));
        q = q + 1;
    }
    assert(head_flags(lv).take(lines@.len() as int) =~= head_flags(lv));
    r
}

/// A list cut into `rows` rows of `cols` items; a `ValueError` when it
/// does not hold exactly `rows * cols` items (see [`chunk_spec`]).
pub fn chunk_rows(flat: &Vec<String>, rows: usize, cols: usize) -> (r: Result<Vec<Vec<String>>, BseError>)
    requires
        rows * cols <= usize::MAX,
    ensures
        match chunk_spec(flat.deep_view(), rows as nat, cols as nat) {
            Some(m) => r matches Ok(v) && v.deep_view() == m,
            None => r matches Err(e) && e is ValueError,
        },
{
    let ghost fv = flat.deep_view();
    let n = rows * cols;
    if flat.len() != n {
        return Err(BseError::ValueError("Cannot partition the numbers into a matrix".to_string()));
    }
    let mut out: Vec<Vec<String>> = Vec::new();
    let mut i: usize = 0;
    while i < rows
        invariant
            i <= rows,
            n == rows * cols,
            n == flat@.len(),
            fv == flat.deep_view(),
            out.deep_view() == Seq::new(i as nat, |k: int| fv.subrange(k * cols, k * cols + cols)),
        decreases rows - i,
    {
        assert(i * cols + cols <= n) by (nonlinear_arith)
            requires
                i < rows,
                n == rows * cols,
        ;
        let mut row: Vec<String> = Vec::new();
        let mut q: usize = 0;
        while q < cols
            invariant
                q <= cols,
                i * cols + cols <= n,
                n == flat@.len(),
                fv == flat.deep_view(),
                row.deep_view() == fv.subrange(i * cols, i * cols + q),
            decreases cols - q,
        {
            let ghost o = row.deep_view();
            assert(fv[i * cols + q] == flat@[i * cols + q]@);
            row.push(flat[i * cols + q].clone());
            assert(row.deep_view() =~= o.push(fv[i * cols + q]));
            assert(row.deep_view() =~= fv.subrange(i * cols, i * cols + q + 1));
            q = q + 1;
        }
        let ghost o = out.deep_view();
        out.push(row);
        assert(out.deep_view() =~= Seq::new((i + 1) as nat, |k: int| fv.subrange(k * cols, k * cols + cols))) by {
            assert(out.deep_view() =~= o.push(fv.subrange(i * cols, i * cols + cols)));
        }
        i = i + 1;
    }
    Ok(out)
}

fn read_shells(rest: Vec<String>, lmax: i32, z: i32, elements: &mut Vec<(i32, BseBasisElement)>) -> (r: Result<(), BseError>)
    requires
        keys_increasing(old(elements)@),
    ensures
        match ricd_shells(rest.deep_view(), 0, lmax as int, z, elements_view(old(elements)@)) {
            Some(w) => r is Ok && elements_view(final(elements)@) == w && keys_increasing(final(elements)@),
            None => r matches Err(e) && e is ValueError,
        },
{
    let ghost target = ricd_shells(rest.deep_view(), 0, lmax as int, z, elements_view(elements@));
    let ghost rv = rest.deep_view();
    let mut cur = rest;
    let mut l: i64 = 0;
    while l <= lmax as i64 && cur.len() > 0
        invariant
            0 <= l,
            lmax >= 0 ==> l <= lmax as i64 + 1,
            keys_increasing(elements@),
            rv == rest.deep_view(),
            target == ricd_shells(rv, 0, lmax as int, z, elements_view(old(elements)@)),
            target == ricd_shells(cur.deep_view(), l as int, lmax as int, z, elements_view(elements@)),
        decreases lmax as i64 + 1 - l,
    {
        let ghost cv = cur.deep_view();
        let ghost w = elements_view(elements@);
        assert(cv[0] == cur@[0]@);
        let g = parse_line_regex(RICD_SHELL_PATTERN, cur[0].as_str(), "nprim, ncontr, amtype")?;
        if g.len() < 3 {
            return Err(BseError::ValueError("nprim, ncontr, amtype".to_string()));
        }
        assert(g.deep_view()[0] == g@[0]@ && g.deep_view()[1] == g@[1]@ && g.deep_view()[2] == g@[2]@);
        let nprim = match parse_usize(chars_of(g[0].as_str()).as_slice()) {
            Some(n) => n,
            None => {
                return Err(BseError::ValueError("Invalid nprim".to_string()));
            },
        };
        let ncontr = match parse_usize(chars_of(g[1].as_str()).as_slice()) {
            Some(n) => n,
            None => {
                return Err(BseError::ValueError("Invalid ncontr".to_string()));
            },
        };
        let amtype = match parse_i32(chars_of(g[2].as_str()).as_slice()) {
            Some(n) => n,
            None => {
                return Err(BseError::ValueError("Invalid amtype".to_string()));
            },
        };
        let r1 = lines_from(cur.as_slice(), 1);
        if nprim == 0 || ncontr == 0 {
            cur = r1;
            l = l + 1;
            continue;
        }
        let total = match nprim.checked_mul(ncontr) {
            Some(t) => t,
            None => {
                return Err(BseError::ValueError("Too many coefficients".to_string()));
            },
        };
        let (exponents, r2) = read_n_floats(r1.as_slice(), nprim)?;
        let (flat, r3) = read_n_floats(r2.as_slice(), total)?;
        let rows = chunk_rows(&flat, nprim, ncontr)?;
        proof {
            let rv2 = rows.deep_view();
            assert(0 * (ncontr as int) == 0);
            assert(ncontr <= nprim * ncontr) by (nonlinear_arith)
                requires
                    nprim >= 1,
            ;
            assert(rv2[0].len() == ncontr);
            assert forall|j: int| 0 <= j < rv2.len() implies #[trigger] rv2[j].len() >= rv2[0].len() by {
                assert(j * ncontr + ncontr <= nprim * ncontr && 0 <= j * ncontr) by (nonlinear_arith)
                    requires
                        0 <= j < nprim,
                ;
            }
            assert(rows@[0].deep_view() == rv2[0]);
        }
        let coefficients = transpose_matrix(rows.as_slice());
        let am = vec![l as i32];
        let kind = if amtype == 3 {
            "spherical"
        } else {
            "cartesian"
        };
        let function_type = function_type_from_am(am.as_slice(), "gto", kind);
        let sh = BseElectronShell { function_type, region: String::new(), angular_momentum: am, exponents, coefficients };
        proof {
            reveal_strlit("gto");
            reveal_strlit("spherical");
            reveal_strlit("cartesian");
            assert(sh@.region =~= Seq::<char>::empty());
            assert(sh@.am =~= seq![l as i32]);
            assert(sh@ == ricd_shell(l as int, amtype, exponents.deep_view(), rows.deep_view()));
        }
        add_shell(elements, z, sh);
        cur = r3;
        l = l + 1;
    }
    Ok(())
}

fn read_block(b: &Vec<String>, elements: &mut Vec<(i32, BseBasisElement)>) -> (r: Result<(), BseError>)
    requires
        keys_increasing(old(elements)@),
    ensures
        match ricd_block(b.deep_view(), elements_view(old(elements)@)) {
            Some(w) => r is Ok && elements_view(final(elements)@) == w && keys_increasing(final(elements)@),
            None => r matches Err(e) && e is ValueError,
        },
{
    if b.len() < 5 {
        return Ok(());
    }
    assert(b.deep_view()[0] == b@[0]@ && b.deep_view()[1] == b@[1]@);
    let g = parse_line_regex(RICD_HEAD_PATTERN, b[0].as_str(), "Symbol.Basis....a(c)CD-aux-basis.")?;
    if g.len() < 1 {
        return Err(BseError::ValueError("Symbol.Basis....a(c)CD-aux-basis.".to_string()));
    }
    assert(g.deep_view()[0] == g@[0]@);
    let z = match element_Z_from_sym(g[0].as_str()) {
        Some(z) => z,
        None => {
            return Err(BseError::ValueError("Unknown element symbol".to_string()));
        },
    };
    let h = parse_line_regex(RICD_CHARGE_PATTERN, b[1].as_str(), "charge, lmax, nbasis")?;
    if h.len() < 3 {
        return Err(BseError::ValueError("charge, lmax, nbasis".to_string()));
    }
    assert(h.deep_view()[1] == h@[1]@ && h.deep_view()[2] == h@[2]@);
    let lmax = match parse_i32(chars_of(h[1].as_str()).as_slice()) {
        Some(n) => n,
        None => {
            return Err(BseError::ValueError("Invalid lmax".to_string()));
        },
    };
    if parse_usize(chars_of(h[2].as_str()).as_slice()).is_none() {
        return Err(BseError::ValueError("Invalid nbasis".to_string()));
    }
    let rest = lines_from(b.as_slice(), 4);
    read_shells(rest, lmax, z, elements)
}

fn read_section(
    b: &Vec<String>,
    elements: &mut Vec<(i32, BseBasisElement)>,
    name: &mut Option<String>,
) -> (r: Result<(), BseError>)
    requires
        keys_increasing(old(elements)@),
    ensures
        match ricd_section(b.deep_view(), (elements_view(old(elements)@), opt_text(*old(name)))) {
            Some(st) => r is Ok && elements_view(final(elements)@) == st.0 && opt_text(*final(name)) == st.1
                && keys_increasing(final(elements)@),
            None => r matches Err(e) && e is ValueError,
        },
{
    if b.len() == 0 {
        return Ok(());
    }
    assert(b.deep_view()[0] == b@[0]@);
    let g = parse_line_regex(RICD_HEAD_PATTERN, b[0].as_str(), "Symbol.Basis....a(c)CD-aux-basis.")?;
    if name.is_none() && g.len() > 1 {
        assert(g.deep_view()[1] == g@[1]@);
        if chars_of(g[1].as_str()).len() > 0 {
            *name = Some(to_lowercase(g[1].as_str()));
        }
    }
    read_block(b, elements)
}

/// Read an auxiliary basis set in the RICDlib format: for each element
/// block (header, charge line, two reference lines, shells), its shells in
/// increasing angular momentum from zero, each added at the end of its
/// element's shells; spherical when the shell's kind is `3`, cartesian
/// otherwise. The name of the basis set is the first basis name met,
/// lowercased. A `ValueError` comes when the text does not parse (see
/// [`ricdlib_spec`]); an empty text gives an empty basis.
pub fn read_ricdlib(basis_str: &str) -> (r: Result<BseBasisMinimal, BseError>)
    ensures
        match ricdlib_spec(basis_str@) {
            Some((elems, nm)) => r matches Ok(b) && elements_view(b.elements@) == elems && keys_increasing(b.elements@)
                && b.function_types.deep_view() == sort_distinct_strs(shell_types(elems))
                && b.name@ == reader_name(nm) && b.description@ == "no_description"@
                && b.molssi_bse_schema.schema_type@ == "minimal"@ && b.molssi_bse_schema.schema_version@ == "0.1"@,
            None => r matches Err(e) && e is ValueError,
        },
{
    let lines = trimmed_lines(basis_str);
    let mut elements: Vec<(i32, BseBasisElement)> = Vec::new();
    let mut name: Option<String> = None;
    proof {
        assert(elements_view(elements@) =~= Seq::<(i32, ElementV)>::empty());
    }
    if lines.len() == 0 {
        return Ok(reader_basis(elements, name));
    }
    let flags = head_flag_lines(&lines);
    let sections = partition_lines(lines.as_slice(), flags.as_slice(), 0, None, None, None, 5, true)?;
    let ghost secs = sections.deep_view();
    proof {
        assert(ricdlib_spec(basis_str@) == ricd_sections(secs, secs.len() as int));
    }
    let mut i: usize = 0;
    while i < sections.len()
        invariant
            i <= sections@.len(),
            secs == sections.deep_view(),
            ricdlib_spec(basis_str@) == ricd_sections(secs, secs.len() as int),
            keys_increasing(elements@),
            ricd_sections(secs, i as int) == Some((elements_view(elements@), opt_text(name))),
        decreases sections.len() - i,
    {
        assert(secs[i as int] == sections@[i as int].deep_view());
        let ghost before = (elements_view(elements@), opt_text(name));
        match read_section(&sections[i], &mut elements, &mut name) {
            Ok(()) => {},
            Err(e) => {
                proof {
                    assert(ricd_section(secs[i as int], before) is None);
                    assert(ricd_sections(secs, i + 1) is None);
                    lemma_sections_none(secs, i + 1, sections@.len() as int);
                }
                return Err(e);
            },
        }
        i = i + 1;
    }
    Ok(reader_basis(elements, name))
}

/* #endregion */

} // verus!
