//! Reading basis sets in the VeloxChem format.
//!
//! A VeloxChem file opens with a `@BASIS_SET` line and ends with a checksum
//! line. Each element is a block from `@ATOMBASIS symbol` to `@END`, made of
//! shells: a line `letter nprim ncontr` followed by the primitives, one per
//! line. Angular momentum letters follow the order with `j`.
use crate::error::BseError;
use crate::fields::{BseBasisElement, BseBasisMinimal, BseElectronShell, ElementV, ShellV, elements_view, keys_increasing};
use crate::compose::shell_types;
use crate::lut::{amchar_to_int, amchar_to_int_spec, element_Z_from_sym, function_type_from_am, function_type_spec, sym_search};
use crate::readers::helpers::{
    add_shell, entry_of, groups_text, lines_from, parse_line_regex, parse_primitive_matrix, partition_lines, partition_spec,
    primitive_matrix_spec, prune_lines, prune_lines_spec, push_shell, put_entry, reader_basis, reader_name,
    regex_captures_of, regex_is_match, text_lines, trimmed_lines,
};
use crate::text::{chars_of, has_prefix, lowercase_of, parse_usize, parse_usize_spec, sort_distinct_strs, split_ws, starts_with, ws_tokens};
use vstd::prelude::*;

verus! {

/// The line that opens a shell: angular momentum letter, number of
/// primitives, number of contractions.
pub const VELOXCHEM_SHELL_PATTERN: &'static str = r"^([SPDFGHIJKLMNOQRTUVWXYZABCE])\s+(\d+)\s+(\d+)$";

/* #region specification */

/// Which lines open a shell.
pub open spec fn vx_shell_flags(lines: Seq<Seq<char>>) -> Seq<bool> {
    Seq::new(lines.len(), |i: int| regex_captures_of(VELOXCHEM_SHELL_PATTERN@, lines[i]) is Some)
}

/// A shell from the groups of its opening line (angular momentum letter,
/// number of primitives, number of contractions) and its primitive lines:
/// `None` when a number does not parse, the primitives do not agree with the
/// numbers, or the letter is no angular momentum.
pub open spec fn vx_shell_spec(groups: Seq<Seq<char>>, data: Seq<Seq<char>>) -> Option<ShellV> {
    if groups.len() < 3 {
        None
    } else {
        match (parse_usize_spec(groups[1]), parse_usize_spec(groups[2])) {
            (Some(nprim), Some(ncont)) => match primitive_matrix_spec(data, Some(nprim), Some(ncont)) {
                Some((e, c)) => {
                    let am = match amchar_to_int_spec(lowercase_of(groups[0]), true) {
                        Some(a) => a,
                        None => Seq::empty(),
                    };
                    if am.len() == 0 {
                        None
                    } else {
                        Some(
                            ShellV {
                                function_type: function_type_spec(am, "gto"@, "spherical"@),
                                region: Seq::empty(),
                                am,
                                exponents: e,
                                coefficients: c,
                            },
                        )
                    }
                },
                None => None,
            },
            _ => None,
        }
    }
}

/// The element map after one more shell block of element `z`.
pub open spec fn vx_block(b: Seq<Seq<char>>, z: i32, w: Seq<(i32, ElementV)>) -> Option<Seq<(i32, ElementV)>> {
    match regex_captures_of(VELOXCHEM_SHELL_PATTERN@, b[0]) {
        Some(caps) => match vx_shell_spec(groups_text(caps), b.skip(1)) {
            Some(sh) => Some(put_entry(w, z, push_shell(entry_of(w, z), sh))),
            None => None,
        },
        None => None,
    }
}

/// The element map after the first `n` shell blocks of element `z`.
pub open spec fn vx_shells(blocks: Seq<Seq<Seq<char>>>, z: i32, v: Seq<(i32, ElementV)>, n: int) -> Option<Seq<(i32, ElementV)>>
    decreases n,
{
    if n <= 0 {
        Some(v)
    } else {
        match vx_shells(blocks, z, v, n - 1) {
            Some(w) => vx_block(blocks[n - 1], z, w),
            None => None,
        }
    }
}

/// The element map after the lines of one element block: `None` when the
/// symbol is unknown, the lines do not split into shells of at least two
/// lines, or a shell does not parse.
pub open spec fn vx_element(lines: Seq<Seq<char>>, sym: Seq<char>, v: Seq<(i32, ElementV)>) -> Option<Seq<(i32, ElementV)>> {
    match sym_search(lowercase_of(sym), 1) {
        None => None,
        Some(z) => match partition_spec(lines, vx_shell_flags(lines), 0, None, None, None, 2, true) {
            None => None,
            Some(blocks) => vx_shells(blocks, z, v, blocks.len() as int),
        },
    }
}

/// The `@ATOMBASIS` lines among the first `n` that name a symbol: their
/// positions and symbols.
pub open spec fn atom_markers(lines: Seq<Seq<char>>, n: int) -> Seq<(int, Seq<char>)>
    decreases n,
{
    if n <= 0 {
        Seq::empty()
    } else {
        let p = atom_markers(lines, n - 1);
        let l = lines[n - 1];
        if has_prefix(l, "@ATOMBASIS"@) && ws_tokens(l).len() >= 2 {
            p.push((n - 1, ws_tokens(l)[1]))
        } else {
            p
        }
    }
}

/// The positions of the `@END` lines among the first `n`.
pub open spec fn end_markers(lines: Seq<Seq<char>>, n: int) -> Seq<int>
    decreases n,
{
    if n <= 0 {
        Seq::empty()
    } else {
        let p = end_markers(lines, n - 1);
        if has_prefix(lines[n - 1], "@END"@) {
            p.push(n - 1)
        } else {
            p
        }
    }
}

/// The element map after the first `n` element blocks, the `k`th running
/// from the `k`th `@ATOMBASIS` marker to the `k`th `@END` marker (a block
/// with no line between them is skipped).
pub open spec fn vx_elements(
    lines: Seq<Seq<char>>,
    atoms: Seq<(int, Seq<char>)>,
    ends: Seq<int>,
    n: int,
) -> Option<Seq<(i32, ElementV)>>
    decreases n,
{
    if n <= 0 {
        Some(Seq::empty())
    } else {
        match vx_elements(lines, atoms, ends, n - 1) {
            Some(w) => {
                let s = atoms[n - 1].0;
                let e = ends[n - 1];
                if e <= s + 1 {
                    Some(w)
                } else {
                    vx_element(lines.subrange(s + 1, e), atoms[n - 1].1, w)
                }
            },
            None => None,
        }
    }
}

/// What a VeloxChem text holds: its lines trimmed; all but the last (the
/// checksum), which must hold a `@BASIS_SET` line, without comments (`!` or
/// `#`) and blank lines; then the element blocks between matching
/// `@ATOMBASIS` and `@END` markers. `None` when there is no `@BASIS_SET`
/// line, the markers are not as many, or a block does not parse.
pub open spec fn veloxchem_spec(text: Seq<char>) -> Option<Seq<(i32, ElementV)>> {
    let all = text_lines(text);
    if all.len() == 0 {
        Some(Seq::empty())
    } else {
        let body = all.drop_last();
        if !(exists|i: int| 0 <= i < body.len() && has_prefix(#[trigger] body[i], "@BASIS_SET"@)) {
            None
        } else {
            let lines = prune_lines_spec(body, "!#"@, true, true);
            let atoms = atom_markers(lines, lines.len() as int);
            let ends = end_markers(lines, lines.len() as int);
            if atoms.len() != ends.len() {
                None
            } else {
                vx_elements(lines, atoms, ends, atoms.len() as int)
            }
        }
    }
}

proof fn lemma_shells_none(blocks: Seq<Seq<Seq<char>>>, z: i32, v: Seq<(i32, ElementV)>, k: int, n: int)
    requires
        0 <= k <= n,
        vx_shells(blocks, z, v, k) is None,
    ensures
        vx_shells(blocks, z, v, n) is None,
    decreases n - k,
{
    if k < n {
        lemma_shells_none(blocks, z, v, k + 1, n);
    }
}

proof fn lemma_elements_none(lines: Seq<Seq<char>>, atoms: Seq<(int, Seq<char>)>, ends: Seq<int>, k: int, n: int)
    requires
        0 <= k <= n,
        vx_elements(lines, atoms, ends, k) is None,
    ensures
        vx_elements(lines, atoms, ends, n) is None,
    decreases n - k,
{
    if k < n {
        lemma_elements_none(lines, atoms, ends, k + 1, n);
    }
}

proof fn lemma_markers_bounded(lines: Seq<Seq<char>>, n: int)
    requires
        0 <= n <= lines.len(),
    ensures
        forall|k: int| 0 <= k < atom_markers(lines, n).len() ==> 0 <= #[trigger] atom_markers(lines, n)[k].0 < n,
        forall|k: int| 0 <= k < end_markers(lines, n).len() ==> 0 <= #[trigger] end_markers(lines, n)[k] < n,
        atom_markers(lines, n).len() <= n,
        end_markers(lines, n).len() <= n,
    decreases n,
{
    if n > 0 {
        lemma_markers_bounded(lines, n - 1);
        let p = atom_markers(lines, n - 1);
        let q = end_markers(lines, n - 1);
        assert forall|k: int| 0 <= k < atom_markers(lines, n).len() implies 0 <= #[trigger] atom_markers(lines, n)[k].0 < n by {
            if k < p.len() {
                assert(atom_markers(lines, n)[k] == p[k]);
            }
        }
        assert forall|k: int| 0 <= k < end_markers(lines, n).len() implies 0 <= #[trigger] end_markers(lines, n)[k] < n by {
            if k < q.len() {
                assert(end_markers(lines, n)[k] == q[k]);
            }
        }
    }
}

/* #endregion */

/* #region reading */

fn shell_flag_lines(lines: &Vec<String>) -> (r: Vec<bool>)
    ensures
        r@ == vx_shell_flags(lines.deep_view()),
{
    let ghost target = vx_shell_flags(lines.deep_view());
    let mut r: Vec<bool> = Vec::new();
    let mut i: usize = 0;
    while i < lines.len()
        invariant
            i <= lines@.len(),
            target == vx_shell_flags(lines.deep_view()),
            r@ == target.take(i as int),
        decreases lines.len() - i,
    {
        assert(lines.deep_view()[i as int] == lines@[i as int]@);
        r.push(regex_is_match(VELOXCHEM_SHELL_PATTERN, lines[i].as_str()));
        assert(r@ =~= target.take(i + 1));
        i = i + 1;
    }
    assert(target.take(lines@.len() as int) =~= target);
    r
}

/// A shell from the groups of its opening line (angular momentum letter,
/// number of primitives, number of contractions) and its primitive lines:
/// a spherical or plain gaussian shell of that angular momentum, or a
/// `ValueError` when a number does not parse, the primitives do not agree
/// with the numbers, or the letter is no angular momentum.
pub fn vx_shell(groups: &Vec<String>, data: &[String]) -> (r: Result<BseElectronShell, BseError>)
    ensures
        match vx_shell_spec(groups.deep_view(), data.deep_view()) {
            Some(sh) => r matches Ok(s) && s@ == sh,
            None => r matches Err(e) && e is ValueError,
        },
{
    let ghost gv = groups.deep_view();
    if groups.len() < 3 {
        return Err(BseError::ValueError("Shell: amchar, nprim, ncont".to_string()));
    }
    assert(gv[1] == groups@[1]@ && gv[2] == groups@[2]@ && gv[0] == groups@[0]@);
    let nprim = match parse_usize(chars_of(groups[1].as_str()).as_slice()) {
        Some(n) => n,
        None => {
            return Err(BseError::ValueError("Invalid nprim".to_string()));
        },
    };
    let ncont = match parse_usize(chars_of(groups[2].as_str()).as_slice()) {
        Some(n) => n,
        None => {
            return Err(BseError::ValueError("Invalid ncont".to_string()));
        },
    };
    let (exponents, coefficients) = parse_primitive_matrix(data, Some(nprim), Some(ncont))?;
    let am = match amchar_to_int(groups[0].as_str(), true) {
        Some(a) => a,
        None => Vec::new(),
    };
    if am.len() == 0 {
        return Err(BseError::ValueError("Unknown angular momentum".to_string()));
    }
    let func_type = function_type_from_am(am.as_slice(), "gto", "spherical");
    let sh = BseElectronShell { function_type: func_type, region: String::new(), angular_momentum: am, exponents, coefficients };
    proof {
        reveal_strlit("gto");
        reveal_strlit("spherical");
        assert(sh@.region =~= Seq::<char>::empty());
    }
    Ok(sh)
}

fn read_block(b: &Vec<String>, z: i32, elements: &mut Vec<(i32, BseBasisElement)>) -> (r: Result<(), BseError>)
    requires
        keys_increasing(old(elements)@),
        b@.len() >= 1,
    ensures
        match vx_block(b.deep_view(), z, elements_view(old(elements)@)) {
            Some(w) => r is Ok && elements_view(final(elements)@) == w && keys_increasing(final(elements)@),
            None => r matches Err(e) && e is ValueError,
        },
{
    assert(b.deep_view()[0] == b@[0]@);
    let groups = parse_line_regex(VELOXCHEM_SHELL_PATTERN, b[0].as_str(), "Shell: amchar, nprim, ncont")?;
    let data = lines_from(b.as_slice(), 1);
    let sh = vx_shell(&groups, data.as_slice())?;
    add_shell(elements, z, sh);
    Ok(())
}

/// Read the shells of one element block into the element map.
fn read_element(lines: &Vec<String>, sym: &str, elements: &mut Vec<(i32, BseBasisElement)>) -> (r: Result<(), BseError>)
    requires
        keys_increasing(old(elements)@),
    ensures
        match vx_element(lines.deep_view(), sym@, elements_view(old(elements)@)) {
            Some(w) => r is Ok && elements_view(final(elements)@) == w && keys_increasing(final(elements)@),
            None => r matches Err(e) && e is ValueError,
        },
{
    let z = match element_Z_from_sym(sym) {
        Some(z) => z,
        None => {
            return Err(BseError::ValueError("Unknown element symbol".to_string()));
        },
    };
    let flags = shell_flag_lines(lines);
    let blocks = partition_lines(lines.as_slice(), flags.as_slice(), 0, None, None, None, 2, true)?;
    let ghost bv = blocks.deep_view();
    let ghost v0 = elements_view(elements@);
    proof {
        assert forall|k: int| 0 <= k < bv.len() implies #[trigger] bv[k].len() >= 1 by {
            if bv[k].len() < 2 {
                assert(crate::readers::helpers::has_short_block(bv, 2));
            }
        }
    }
    let mut i: usize = 0;
    while i < blocks.len()
        invariant
            i <= blocks@.len(),
            bv == blocks.deep_view(),
            v0 == elements_view(old(elements)@),
            vx_element(lines.deep_view(), sym@, v0) == vx_shells(bv, z, v0, bv.len() as int),
            forall|k: int| 0 <= k < bv.len() ==> #[trigger] bv[k].len() >= 1,
            keys_increasing(elements@),
            vx_shells(bv, z, v0, i as int) == Some(elements_view(elements@)),
        decreases blocks.len() - i,
    {
        assert(bv[i as int] == blocks@[i as int].deep_view());
        assert(bv[i as int].len() >= 1);
        let ghost before = elements_view(elements@);
        match read_block(&blocks[i], z, elements) {
            Ok(()) => {},
            Err(e) => {
                proof {
                    assert(vx_block(bv[i as int], z, before) is None);
                    assert(vx_shells(bv, z, v0, i + 1) is None);
                    lemma_shells_none(bv, z, v0, i + 1, blocks@.len() as int);
                }
                return Err(e);
            },
        }
        i = i + 1;
    }
    Ok(())
}

/// The `@ATOMBASIS` markers that name a symbol, and the `@END` markers.
fn markers(lines: &Vec<String>) -> (r: (Vec<(usize, String)>, Vec<usize>))
    ensures
        r.0@.len() == atom_markers(lines.deep_view(), lines@.len() as int).len(),
        forall|k: int| 0 <= k < r.0@.len() ==> (#[trigger] r.0@[k]).0 as int == atom_markers(lines.deep_view(), lines@.len() as int)[k].0
            && r.0@[k].1@ == atom_markers(lines.deep_view(), lines@.len() as int)[k].1,
        r.1@.len() == end_markers(lines.deep_view(), lines@.len() as int).len(),
        forall|k: int| 0 <= k < r.1@.len() ==> (#[trigger] r.1@[k]) as int == end_markers(lines.deep_view(), lines@.len() as int)[k],
{
    let ghost lv = lines.deep_view();
    let atom_tag = chars_of("@ATOMBASIS");
    let end_tag = chars_of("@END");
    let mut atoms: Vec<(usize, String)> = Vec::new();
    let mut ends: Vec<usize> = Vec::new();
    let mut i: usize = 0;
    while i < lines.len()
        invariant
            i <= lines@.len(),
            lv == lines.deep_view(),
            atom_tag@ == "@ATOMBASIS"@,
            end_tag@ == "@END"@,
            atoms@.len() == atom_markers(lv, i as int).len(),
            forall|k: int| 0 <= k < atoms@.len() ==> (#[trigger] atoms@[k]).0 as int == atom_markers(lv, i as int)[k].0
                && atoms@[k].1@ == atom_markers(lv, i as int)[k].1,
            ends@.len() == end_markers(lv, i as int).len(),
            forall|k: int| 0 <= k < ends@.len() ==> (#[trigger] ends@[k]) as int == end_markers(lv, i as int)[k],
        decreases lines.len() - i,
    {
        assert(lv[i as int] == lines@[i as int]@);
        let c = chars_of(lines[i].as_str());
        if starts_with(c.as_slice(), atom_tag.as_slice()) {
            let toks = split_ws(lines[i].as_str());
            if toks.len() >= 2 {
                assert(toks.deep_view()[1] == toks@[1]@);
                atoms.push((i, toks[1].clone()));
            }
        }
        if starts_with(c.as_slice(), end_tag.as_slice()) {
            ends.push(i);
        }
        proof {
            let pa = atom_markers(lv, i as int);
            let pe = end_markers(lv, i as int);
            assert forall|k: int| 0 <= k < atoms@.len() implies (#[trigger] atoms@[k]).0 as int == atom_markers(lv, i + 1)[k].0
                && atoms@[k].1@ == atom_markers(lv, i + 1)[k].1 by {
                if k < pa.len() {
                    assert(atom_markers(lv, i + 1)[k] == pa[k]);
                }
            }
            assert forall|k: int| 0 <= k < ends@.len() implies (#[trigger] ends@[k]) as int == end_markers(lv, i + 1)[k] by {
                if k < pe.len() {
                    assert(end_markers(lv, i + 1)[k] == pe[k]);
                }
            }
        }
        i = i + 1;
    }
    (atoms, ends)
}

/// Read a basis set in the VeloxChem format: for each element block (from
/// `@ATOMBASIS symbol` to the matching `@END`), its shells, each added at the
/// end of its element's shells. The checksum line is not checked. A
/// `ValueError` comes when the text does not parse (see
/// [`veloxchem_spec`]).
pub fn read_veloxchem(basis_str: &str) -> (r: Result<BseBasisMinimal, BseError>)
    ensures
        match veloxchem_spec(basis_str@) {
            Some(elems) => r matches Ok(b) && elements_view(b.elements@) == elems && keys_increasing(b.elements@)
                && b.function_types.deep_view() == sort_distinct_strs(shell_types(elems))
                && b.name@ == reader_name(None) && b.description@ == "no_description"@
                && b.molssi_bse_schema.schema_type@ == "minimal"@ && b.molssi_bse_schema.schema_version@ == "0.1"@,
            None => r matches Err(e) && e is ValueError,
        },
{
    let mut all = trimmed_lines(basis_str);
    let ghost av = all.deep_view();
    let mut elements: Vec<(i32, BseBasisElement)> = Vec::new();
    proof {
        assert(elements_view(elements@) =~= Seq::<(i32, ElementV)>::empty());
    }
    if all.len() == 0 {
        return Ok(reader_basis(elements, None));
    }
    all.pop();
    let ghost body = all.deep_view();
    assert(body =~= av.drop_last());
    let tag = chars_of("@BASIS_SET");
    let mut found = false;
    let mut i: usize = 0;
    while i < all.len()
        invariant
            i <= all@.len(),
            body == all.deep_view(),
            tag@ == "@BASIS_SET"@,
            found == (exists|j: int| 0 <= j < i && has_prefix(#[trigger] body[j], "@BASIS_SET"@)),
        decreases all.len() - i,
    {
        assert(body[i as int] == all@[i as int]@);
        if starts_with(chars_of(all[i].as_str()).as_slice(), tag.as_slice()) {
            found = true;
        }
        i = i + 1;
    }
    if !found {
        return Err(BseError::ValueError("No @BASIS_SET line found in VeloxChem format".to_string()));
    }
    let lines = prune_lines(all.as_slice(), "!#", true, true);
    let ghost lv = lines.deep_view();
    let (atoms, ends) = markers(&lines);
    let ghost am = atom_markers(lv, lv.len() as int);
    let ghost em = end_markers(lv, lv.len() as int);
    if atoms.len() != ends.len() {
        return Err(BseError::ValueError("Mismatched @ATOMBASIS and @END markers".to_string()));
    }
    proof {
        lemma_markers_bounded(lv, lv.len() as int);
        assert(veloxchem_spec(basis_str@) == vx_elements(lv, am, em, am.len() as int));
    }
    let mut k: usize = 0;
    while k < atoms.len()
        invariant
            k <= atoms@.len(),
            atoms@.len() == ends@.len(),
            lv == lines.deep_view(),
            am == atom_markers(lv, lv.len() as int),
            em == end_markers(lv, lv.len() as int),
            atoms@.len() == am.len(),
            ends@.len() == em.len(),
            forall|j: int| 0 <= j < atoms@.len() ==> (#[trigger] atoms@[j]).0 as int == am[j].0 && atoms@[j].1@ == am[j].1,
            forall|j: int| 0 <= j < ends@.len() ==> (#[trigger] ends@[j]) as int == em[j],
            forall|j: int| 0 <= j < am.len() ==> 0 <= #[trigger] am[j].0 < lv.len(),
            forall|j: int| 0 <= j < em.len() ==> 0 <= #[trigger] em[j] < lv.len(),
            veloxchem_spec(basis_str@) == vx_elements(lv, am, em, am.len() as int),
            keys_increasing(elements@),
            vx_elements(lv, am, em, k as int) == Some(elements_view(elements@)),
        decreases atoms.len() - k,
    {
        let s = atoms[k].0;
        let e = ends[k];
        assert(s as int == am[k as int].0 && e as int == em[k as int]);
        if s < e && e - s > 1 {
            let mut block: Vec<String> = Vec::new();
            let mut j: usize = s + 1;
            while j < e
                invariant
                    s + 1 <= j <= e,
                    e < lv.len(),
                    lv == lines.deep_view(),
                    block.deep_view() == lv.subrange(s + 1, j as int),
                decreases e - j,
            {
                let ghost before = block.deep_view();
                block.push(lines[j].clone());
                assert(block.deep_view() =~= before.push(lv[j as int]));
                assert(block.deep_view() =~= lv.subrange(s + 1, j + 1));
                j = j + 1;
            }
            let ghost before = elements_view(elements@);
            match read_element(&block, atoms[k].1.as_str(), &mut elements) {
                Ok(()) => {},
                Err(err) => {
                    proof {
                        assert(vx_elements(lv, am, em, k + 1) is None);
                        lemma_elements_none(lv, am, em, k + 1, am.len() as int);
                    }
                    return Err(err);
                },
            }
        }
        k = k + 1;
    }
    Ok(reader_basis(elements, None))
}

/* #endregion */

} // verus!
