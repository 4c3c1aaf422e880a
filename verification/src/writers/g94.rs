//! Conversion of basis sets to the Gaussian format and its variants (system
//! library, xTron, Psi4).
//!
//! A basis set is first prepared ([`prepare_segmented`] with 1: general
//! contractions and fused shells beyond sp removed, then pruned); the shells are then put
//! in their canonical order, which compares spatial extents in floating
//! point and is done outside this library; [`write_g94_common`] writes the
//! result.
use crate::fields::{keys_increasing, BseBasis, BseEcpPotential, BseElectronShell, ElementV, PotentialV, ShellV, elements_view, shells_view, pots_view};
use crate::lut::{am_in_range, amint_to_char_spec, capitalize_spec, sym_spec, upper_ascii};
use crate::manip::{general_spec, spdf_spec, prune_list_spec, spdf_ok, prune_list_ok, map_elements, all_shell_lists, same_but_elements};
use crate::printing::{write_matrix_ok, write_matrix_spec};
use crate::sort::ecp_order;
use crate::text::{int_text, nat_digits, join_spec};
use vstd::prelude::*;

verus! {

/* #region preparation */

/// The shells of an element once segmented: general contractions removed,
/// fused shells beyond angular momentum `max_am` split, and pruned.
pub open spec fn segmented(s: Seq<ShellV>, max_am: i32) -> Seq<ShellV> {
    prune_list_spec(spdf_spec(general_spec(s), max_am))
}

/// What segmenting the shells of an element needs.
pub open spec fn segment_ok(s: Seq<ShellV>, max_am: i32) -> bool {
    spdf_ok(general_spec(s)) && prune_list_ok(spdf_spec(general_spec(s), max_am))
}

/// Prepare a basis set for the formats without general contractions:
/// remove general contractions, split fused shells beyond angular momentum
/// `max_am` (sp is kept with 1, nothing with 0), and prune.
pub fn prepare_segmented(basis: &mut BseBasis, max_am: i32)
    requires
        all_shell_lists(elements_view(old(basis).elements@), |s: Seq<ShellV>| segment_ok(s, max_am)),
    ensures
        same_but_elements(*old(basis), *final(basis)),
        elements_view(final(basis).elements@) == map_elements(
            elements_view(old(basis).elements@),
            |s: Seq<ShellV>| segmented(s, max_am),
        ),
{
    let ghost e0 = elements_view(basis.elements@);
    crate::manip::uncontract_general(basis);
    let ghost e1 = elements_view(basis.elements@);
    assert(all_shell_lists(e1, |s: Seq<ShellV>| spdf_ok(s))) by {
        assert forall|i: int| 0 <= i < e1.len() implies match (#[trigger] e1[i]).1.shells {
            Some(s) => spdf_ok(s),
            None => true,
        } by {
            assert(e1[i] == map_elements(e0, |s: Seq<ShellV>| general_spec(s))[i]);
            assert(match e0[i].1.shells { Some(s) => segment_ok(s, max_am), None => true });
        }
    }
    crate::manip::uncontract_spdf(basis, max_am);
    let ghost e2 = elements_view(basis.elements@);
    assert(all_shell_lists(e2, |s: Seq<ShellV>| prune_list_ok(s))) by {
        assert forall|i: int| 0 <= i < e2.len() implies match (#[trigger] e2[i]).1.shells {
            Some(s) => prune_list_ok(s),
            None => true,
        } by {
            assert(e2[i] == map_elements(e1, |s: Seq<ShellV>| spdf_spec(s, max_am))[i]);
            assert(e1[i] == map_elements(e0, |s: Seq<ShellV>| general_spec(s))[i]);
            assert(match e0[i].1.shells { Some(s) => segment_ok(s, max_am), None => true });
        }
    }
    crate::manip::prune_basis(basis);
    assert(elements_view(basis.elements@) =~= map_elements(e0, |s: Seq<ShellV>| segmented(s, max_am))) by {
        let e3 = elements_view(basis.elements@);
        assert forall|i: int| 0 <= i < e3.len() implies e3[i] == map_elements(e0, |s: Seq<ShellV>| segmented(s, max_am))[i] by {
            assert(e3[i] == map_elements(e2, |s: Seq<ShellV>| prune_list_spec(s))[i]);
            assert(e2[i] == map_elements(e1, |s: Seq<ShellV>| spdf_spec(s, max_am))[i]);
            assert(e1[i] == map_elements(e0, |s: Seq<ShellV>| general_spec(s))[i]);
        }
    }
}

/* #endregion */

/* #region text */

/// A text with ASCII letters in uppercase.
pub open spec fn upper_str(s: Seq<char>) -> Seq<char> {
    s.map_values(|c: char| upper_ascii(c))
}

/// A text padded with spaces on the right to `width` characters.
pub open spec fn left_aligned(s: Seq<char>, width: int) -> Seq<char> {
    if s.len() < width {
        s + Seq::new((width - s.len()) as nat, |i: int| ' ')
    } else {
        s
    }
}

/// The decimal point places of a shell's matrix of `ncol` columns.
pub open spec fn g94_points(ncol: int) -> Seq<usize> {
    Seq::new(ncol as nat, |k: int| (8 * (k + 1) + 15 * k) as usize)
}

/// The matrix of a shell, by columns: the exponents, then each contraction.
pub open spec fn shell_matrix(sh: ShellV) -> Seq<Seq<Seq<char>>> {
    seq![sh.exponents] + sh.coefficients
}

/// The angular momentum label of a shell: its letters in uppercase, or
/// `L=n` for a single angular momentum of 7 or more in Psi4.
pub open spec fn g94_amchar(sh: ShellV, psi4_am: bool) -> Seq<char> {
    if psi4_am && sh.am.len() == 1 && sh.am[0] >= 7 {
        "L="@ + int_text(sh.am[0] as int)
    } else {
        upper_str(amint_to_char_spec(sh.am, true))
    }
}

/// The header line of a shell: label, number of primitives, scale factor,
/// and ` c` for a Cartesian shell when marked.
pub open spec fn g94_shell_header(sh: ShellV, psi4_am: bool, add_harm_type: bool) -> Seq<char> {
    left_aligned(g94_amchar(sh, psi4_am), 4) + " "@ + nat_digits(sh.exponents.len()) + "   1.00"@ + (if add_harm_type
        && sh.function_type == "gto_cartesian"@ {
        " c"@
    } else {
        Seq::empty()
    })
}

/// The lines of the shells of an element, two per shell.
pub open spec fn g94_shell_lines(shells: Seq<ShellV>, psi4_am: bool, add_harm_type: bool) -> Seq<Seq<char>>
    decreases shells.len(),
{
    if shells.len() == 0 {
        Seq::empty()
    } else {
        let sh = shells.last();
        g94_shell_lines(shells.drop_last(), psi4_am, add_harm_type) + seq![
            g94_shell_header(sh, psi4_am, add_harm_type),
            write_matrix_spec(shell_matrix(sh), g94_points((sh.coefficients.len() + 1) as int), true),
        ]
    }
}

/// The electron basis lines of the elements: for each element with shells,
/// its symbol line, its shells, and `****`.
pub open spec fn g94_electron_lines(elems: Seq<(i32, ElementV)>, psi4_am: bool, add_harm_type: bool, system_library: bool) -> Seq<Seq<char>>
    decreases elems.len(),
{
    if elems.len() == 0 {
        Seq::empty()
    } else {
        let prev = g94_electron_lines(elems.drop_last(), psi4_am, add_harm_type, system_library);
        let (z, e) = elems.last();
        match e.shells {
            None => prev,
            Some(shells) => prev + seq![
                (if system_library { "-"@ } else { Seq::empty() }) + capitalize_spec(sym_spec(z as int)) + "     0"@,
            ] + g94_shell_lines(shells, psi4_am, add_harm_type) + seq!["****"@],
        }
    }
}

/// The largest first angular momentum of the potentials.
pub open spec fn max_first_am(pots: Seq<PotentialV>) -> i32
    decreases pots.len(),
{
    if pots.len() == 0 {
        i32::MIN
    } else {
        let m = max_first_am(pots.drop_last());
        if pots.last().am[0] > m {
            pots.last().am[0]
        } else {
            m
        }
    }
}

/// The powers of r of a potential as text.
pub open spec fn r_exponent_texts(p: PotentialV) -> Seq<Seq<char>> {
    p.r_exponents.map_values(|x: i32| int_text(x as int))
}

/// The matrix of a potential, by columns: powers of r, Gaussian exponents,
/// then each contraction.
pub open spec fn pot_matrix(p: PotentialV) -> Seq<Seq<Seq<char>>> {
    seq![r_exponent_texts(p), p.gaussian_exponents] + p.coefficients
}

/// The decimal point places of a potential's matrix.
pub open spec fn ecp_points() -> Seq<usize> {
    seq![0usize, 9usize, 32usize]
}

/// The lines of the potentials of an element, three per potential.
pub open spec fn g94_pot_lines(pots: Seq<PotentialV>, max_am: i32) -> Seq<Seq<char>>
    decreases pots.len(),
{
    if pots.len() == 0 {
        Seq::empty()
    } else {
        let p = pots.last();
        let amchar = amint_to_char_spec(p.am, true);
        g94_pot_lines(pots.drop_last(), max_am) + seq![
            if p.am[0] == max_am {
                amchar + " potential"@
            } else {
                amchar + "-"@ + amint_to_char_spec(seq![max_am], true) + " potential"@
            },
            "  "@ + nat_digits(p.r_exponents.len()),
            write_matrix_spec(pot_matrix(p), ecp_points(), true),
        ]
    }
}

/// The ECP lines of the elements: for each element with potentials, its
/// symbol, the ECP header, and its potentials (the one of largest angular
/// momentum first).
pub open spec fn g94_ecp_lines(elems: Seq<(i32, ElementV)>) -> Seq<Seq<char>>
    decreases elems.len(),
{
    if elems.len() == 0 {
        Seq::empty()
    } else {
        let prev = g94_ecp_lines(elems.drop_last());
        let (z, e) = elems.last();
        match e.potentials {
            None => prev,
            Some(pots) => {
                let sym = upper_str(sym_spec(z as int));
                let max_am = max_first_am(pots);
                prev + seq![
                    sym + "     0"@,
                    sym + "-ECP     "@ + int_text(max_am as int) + "     "@ + int_text(e.ecp_electrons->0 as int),
                ] + g94_pot_lines(ecp_order(pots), max_am)
            },
        }
    }
}

/// Some element has potentials.
pub open spec fn has_ecp(elems: Seq<(i32, ElementV)>) -> bool {
    exists|i: int| 0 <= i < elems.len() && (#[trigger] elems[i]).1.potentials is Some
}

/// The text of a basis set in the Gaussian format.
pub open spec fn g94_text(elems: Seq<(i32, ElementV)>, add_harm_type: bool, psi4_am: bool, system_library: bool) -> Seq<char> {
    let lines = g94_electron_lines(elems, psi4_am, add_harm_type, system_library) + if has_ecp(elems) {
        seq![Seq::<char>::empty()] + g94_ecp_lines(elems)
    } else {
        Seq::empty()
    };
    join_spec(lines, "\n"@) + "\n"@
}

/// A shell can be written: letters for its angular momenta, and a matrix
/// that fits its point places.
pub open spec fn g94_shell_ok(sh: ShellV) -> bool {
    &&& am_in_range(sh.am)
    &&& 23 * (sh.coefficients.len() + 1) < 0x7fff_ffff + 15
    &&& write_matrix_ok(shell_matrix(sh), g94_points((sh.coefficients.len() + 1) as int))
}

/// A potential can be written: a letter for its angular momenta, a first
/// one, and a matrix that fits its point places.
pub open spec fn g94_pot_ok(p: PotentialV) -> bool {
    &&& p.am.len() > 0
    &&& am_in_range(p.am)
    &&& write_matrix_ok(pot_matrix(p), ecp_points())
}

/// What writing a basis set in the Gaussian format needs: known elements,
/// writable shells, and for each element with potentials, at least one,
/// each writable, and a number of core electrons.
pub open spec fn g94_ok(elems: Seq<(i32, ElementV)>) -> bool {
    forall|i: int|
        0 <= i < elems.len() ==> {
            let (z, e) = #[trigger] elems[i];
            &&& (e.shells is Some || e.potentials is Some) ==> 1 <= z <= 118
            &&& e.shells matches Some(s) ==> forall|k: int| 0 <= k < s.len() ==> g94_shell_ok(#[trigger] s[k])
            &&& e.potentials matches Some(p) ==> {
                &&& p.len() > 0
                &&& e.ecp_electrons is Some
                &&& forall|k: int| 0 <= k < p.len() ==> g94_pot_ok(#[trigger] p[k])
            }
        }
}

/// The text of a string slice's characters, ASCII letters in uppercase.
pub(crate) fn upper(s: &str) -> (r: String)
    ensures
        r@ == upper_str(s@),
{
    let v = crate::text::chars_of(s);
    let mut out: Vec<char> = Vec::new();
    let mut i: usize = 0;
    while i < v.len()
        invariant
            i <= v@.len(),
            v@ == s@,
            out@ =~= upper_str(s@).take(i as int),
        decreases v.len() - i,
    {
        out.push(crate::lut::to_upper_ascii(v[i]));
        i = i + 1;
    }
    crate::text::string_of(out.as_slice())
}

/// A string padded with spaces on the right to `width` characters.
pub(crate) fn pad_right(s: &str, width: usize) -> (r: String)
    ensures
        r@ == left_aligned(s@, width as int),
{
    let mut v = crate::text::chars_of(s);
    let n = v.len();
    if n < width {
        let ghost start = v@;
        let mut k: usize = n;
        while k < width
            invariant
                n <= k <= width,
                v@ == start + Seq::new((k - n) as nat, |i: int| ' '),
            decreases width - k,
        {
            v.push(' ');
            assert(v@ =~= start + Seq::new((k + 1 - n) as nat, |i: int| ' '));
            k = k + 1;
        }
    }
    crate::text::string_of(v.as_slice())
}

/// The point places of a shell's matrix.
pub(crate) fn points(ncol: usize) -> (r: Vec<usize>)
    requires
        ncol > 0,
        23 * ncol < 0x7fff_ffff + 15,
    ensures
        r@ == g94_points(ncol as int),
{
    let mut r: Vec<usize> = Vec::new();
    let mut k: usize = 0;
    while k < ncol
        invariant
            k <= ncol,
            23 * ncol < 0x7fff_ffff + 15,
            r@ =~= g94_points(ncol as int).take(k as int),
        decreases ncol - k,
    {
        r.push(8 * (k + 1) + 15 * k);
        k = k + 1;
    }
    r
}

/// The matrix of a shell.
pub(crate) fn shell_matrix_exec(sh: &BseElectronShell) -> (r: Vec<Vec<String>>)
    ensures
        r.deep_view() == shell_matrix(sh@),
{
    let mut r: Vec<Vec<String>> = Vec::new();
    r.push(crate::fields::copy_strings(&sh.exponents));
    let mut g: usize = 0;
    while g < sh.coefficients.len()
        invariant
            g <= sh.coefficients@.len(),
            r.deep_view() == seq![sh@.exponents] + sh@.coefficients.take(g as int),
        decreases sh.coefficients.len() - g,
    {
        let ghost before = r.deep_view();
        r.push(crate::fields::copy_strings(&sh.coefficients[g]));
        assert(r.deep_view() =~= before.push(sh@.coefficients[g as int]));
        assert(r.deep_view() =~= seq![sh@.exponents] + sh@.coefficients.take(g + 1));
        g = g + 1;
    }
    assert(sh@.coefficients.take(sh.coefficients@.len() as int) =~= sh@.coefficients);
    r
}

/// Append a line.
pub(crate) fn push_line(lines: &mut Vec<String>, s: String)
    ensures
        final(lines).deep_view() == old(lines).deep_view().push(s@),
{
    let ghost before = lines.deep_view();
    let ghost sv = s@;
    lines.push(s);
    assert(lines.deep_view() =~= before.push(sv));
}

/// The lines of one shell.
fn shell_lines(lines: &mut Vec<String>, sh: &BseElectronShell, psi4_am: bool, add_harm_type: bool)
    requires
        g94_shell_ok(sh@),
    ensures
        final(lines).deep_view() == old(lines).deep_view() + seq![
            g94_shell_header(sh@, psi4_am, add_harm_type),
            write_matrix_spec(shell_matrix(sh@), g94_points((sh@.coefficients.len() + 1) as int), true),
        ],
{
    let ghost start = lines.deep_view();
    let am = &sh.angular_momentum;
    let amchar = if psi4_am && am.len() == 1 && am[0] >= 7 {
        let mut t = "L=".to_owned();
        let n = crate::text::i32_text(am[0]);
        crate::text::push_str(&mut t, n.as_str());
        t
    } else {
        let c = crate::lut::amint_to_char(am.as_slice(), true);
        upper(c.as_str())
    };
    assert(amchar@ == g94_amchar(sh@, psi4_am));
    let mut head = pad_right(amchar.as_str(), 4);
    crate::text::push_str(&mut head, " ");
    let np = crate::text::usize_text(sh.exponents.len());
    crate::text::push_str(&mut head, np.as_str());
    crate::text::push_str(&mut head, "   1.00");
    let gc = crate::text::chars_of(sh.function_type.as_str());
    let cart = crate::text::chars_of("gto_cartesian");
    let ghost h0 = head@;
    if add_harm_type && crate::text::chars_eq(gc.as_slice(), cart.as_slice()) {
        crate::text::push_str(&mut head, " c");
    }
    assert(head@ == g94_shell_header(sh@, psi4_am, add_harm_type));
    push_line(lines, head);
    let mat = shell_matrix_exec(sh);
    let ncol = sh.coefficients.len() + 1;
    proof {
        assert(mat.deep_view().len() == ncol);
        assert(shell_matrix(sh@)[0] == sh@.exponents);
    }
    let pp = points(ncol);
    let m = crate::printing::write_matrix(mat.as_slice(), pp.as_slice(), true);
    push_line(lines, m);
    assert(lines.deep_view() =~= start + seq![
        g94_shell_header(sh@, psi4_am, add_harm_type),
        write_matrix_spec(shell_matrix(sh@), g94_points((sh@.coefficients.len() + 1) as int), true),
    ]);
}

/// The lines of the shells of an element.
fn element_shell_lines(lines: &mut Vec<String>, shells: &Vec<BseElectronShell>, psi4_am: bool, add_harm_type: bool)
    requires
        forall|k: int| 0 <= k < shells@.len() ==> g94_shell_ok(#[trigger] shells@[k]@),
    ensures
        final(lines).deep_view() == old(lines).deep_view() + g94_shell_lines(shells_view(shells@), psi4_am, add_harm_type),
{
    let ghost start = lines.deep_view();
    let ghost sv = shells_view(shells@);
    let mut i: usize = 0;
    while i < shells.len()
        invariant
            i <= shells@.len(),
            sv == shells_view(shells@),
            forall|k: int| 0 <= k < shells@.len() ==> g94_shell_ok(#[trigger] shells@[k]@),
            lines.deep_view() == start + g94_shell_lines(sv.take(i as int), psi4_am, add_harm_type),
        decreases shells.len() - i,
    {
        assert(sv.take(i + 1).drop_last() =~= sv.take(i as int));
        assert(sv.take(i + 1).last() == shells@[i as int]@);
        shell_lines(lines, &shells[i], psi4_am, add_harm_type);
        assert(lines.deep_view() =~= start + g94_shell_lines(sv.take(i + 1), psi4_am, add_harm_type));
        i = i + 1;
    }
    assert(sv.take(shells.len() as int) =~= sv);
}

/// The powers of r of a potential as text.
pub(crate) fn r_exponents_exec(p: &BseEcpPotential) -> (r: Vec<String>)
    ensures
        r.deep_view() == r_exponent_texts(p@),
{
    let mut r: Vec<String> = Vec::new();
    let mut i: usize = 0;
    while i < p.r_exponents.len()
        invariant
            i <= p.r_exponents@.len(),
            r.deep_view() =~= r_exponent_texts(p@).take(i as int),
        decreases p.r_exponents.len() - i,
    {
        let t = crate::text::i32_text(p.r_exponents[i]);
        let ghost before = r.deep_view();
        r.push(t);
        assert(r.deep_view() =~= before.push(int_text(p.r_exponents@[i as int] as int)));
        i = i + 1;
    }
    r
}

/// The matrix of a potential.
pub(crate) fn pot_matrix_exec(p: &BseEcpPotential) -> (r: Vec<Vec<String>>)
    ensures
        r.deep_view() == pot_matrix(p@),
{
    let mut r: Vec<Vec<String>> = Vec::new();
    r.push(r_exponents_exec(p));
    r.push(crate::fields::copy_strings(&p.gaussian_exponents));
    let mut g: usize = 0;
    while g < p.coefficients.len()
        invariant
            g <= p.coefficients@.len(),
            r.deep_view() == seq![r_exponent_texts(p@), p@.gaussian_exponents] + p@.coefficients.take(g as int),
        decreases p.coefficients.len() - g,
    {
        let ghost before = r.deep_view();
        r.push(crate::fields::copy_strings(&p.coefficients[g]));
        assert(r.deep_view() =~= before.push(p@.coefficients[g as int]));
        assert(r.deep_view() =~= seq![r_exponent_texts(p@), p@.gaussian_exponents] + p@.coefficients.take(g + 1));
        g = g + 1;
    }
    assert(p@.coefficients.take(p.coefficients@.len() as int) =~= p@.coefficients);
    r
}

/// The lines of one potential.
fn pot_lines(lines: &mut Vec<String>, p: &BseEcpPotential, max_am: i32)
    requires
        g94_pot_ok(p@),
        0 <= max_am < 26,
    ensures
        final(lines).deep_view() == old(lines).deep_view() + g94_pot_lines(seq![p@], max_am),
{
    let ghost start = lines.deep_view();
    let mut head = crate::lut::amint_to_char(p.angular_momentum.as_slice(), true);
    if p.angular_momentum[0] != max_am {
        crate::text::push_str(&mut head, "-");
        let m = vec![max_am];
        let mc = crate::lut::amint_to_char(m.as_slice(), true);
        assert(m@ =~= seq![max_am]);
        crate::text::push_str(&mut head, mc.as_str());
    }
    crate::text::push_str(&mut head, " potential");
    let ghost l1 = head@;
    push_line(lines, head);
    let mut np = "  ".to_owned();
    let n = crate::text::usize_text(p.r_exponents.len());
    crate::text::push_str(&mut np, n.as_str());
    let ghost l2 = np@;
    push_line(lines, np);
    let mat = pot_matrix_exec(p);
    let pp: Vec<usize> = vec![0, 9, 32];
    assert(pp@ =~= ecp_points());
    let m = crate::printing::write_matrix(mat.as_slice(), pp.as_slice(), true);
    let ghost l3 = m@;
    push_line(lines, m);
    let ghost one = seq![p@];
    assert(one.drop_last() =~= Seq::<PotentialV>::empty());
    assert(one.last() == p@);
    assert(g94_pot_lines(one.drop_last(), max_am) == Seq::<Seq<char>>::empty());
    assert(l1 == (if p@.am[0] == max_am {
        amint_to_char_spec(p@.am, true) + " potential"@
    } else {
        amint_to_char_spec(p@.am, true) + "-"@ + amint_to_char_spec(seq![max_am], true) + " potential"@
    }));
    assert(l2 == "  "@ + nat_digits(p@.r_exponents.len()));
    assert(g94_pot_lines(one, max_am) =~= seq![l1, l2, l3]);
    assert(lines.deep_view() =~= start + g94_pot_lines(seq![p@], max_am));
}

/// The lines of the potentials of an element, in the order given.
fn element_pot_lines(lines: &mut Vec<String>, pots: &Vec<BseEcpPotential>, max_am: i32)
    requires
        forall|k: int| 0 <= k < pots@.len() ==> g94_pot_ok(#[trigger] pots@[k]@),
        0 <= max_am < 26,
    ensures
        final(lines).deep_view() == old(lines).deep_view() + g94_pot_lines(pots_view(pots@), max_am),
{
    let ghost start = lines.deep_view();
    let ghost pv = pots_view(pots@);
    let mut i: usize = 0;
    while i < pots.len()
        invariant
            i <= pots@.len(),
            pv == pots_view(pots@),
            0 <= max_am < 26,
            forall|k: int| 0 <= k < pots@.len() ==> g94_pot_ok(#[trigger] pots@[k]@),
            lines.deep_view() == start + g94_pot_lines(pv.take(i as int), max_am),
        decreases pots.len() - i,
    {
        let ghost mid = lines.deep_view();
        pot_lines(lines, &pots[i], max_am);
        let ghost one = seq![pots@[i as int]@];
        assert(one.drop_last() =~= Seq::<PotentialV>::empty());
        assert(g94_pot_lines(one.drop_last(), max_am) == Seq::<Seq<char>>::empty());
        assert(pv.take(i + 1).drop_last() =~= pv.take(i as int));
        assert(pv.take(i + 1).last() == one.last());
        assert(lines.deep_view() =~= start + g94_pot_lines(pv.take(i + 1), max_am));
        i = i + 1;
    }
    assert(pv.take(pots.len() as int) =~= pv);
}

proof fn lemma_g94_ok_shells(elems: Seq<(i32, ElementV)>, i: int)
    requires
        g94_ok(elems),
        0 <= i < elems.len(),
        elems[i].1.shells is Some,
    ensures
        forall|k: int| 0 <= k < elems[i].1.shells->0.len() ==> g94_shell_ok(#[trigger] elems[i].1.shells->0[k]),
{
    let (z, e) = elems[i];
}

pub(crate) proof fn lemma_max_first_am(pots: Seq<PotentialV>)
    requires
        pots.len() > 0,
        forall|k: int| 0 <= k < pots.len() ==> (#[trigger] pots[k]).am.len() > 0 && am_in_range(pots[k].am),
    ensures
        0 <= max_first_am(pots) < 26,
    decreases pots.len(),
{
    let last = pots[pots.len() - 1];
    assert(pots.last() == last);
    assert(last.am.len() > 0 && am_in_range(last.am));
    assert(0 <= last.am[0] < 26);
    let q = pots.drop_last();
    if q.len() > 0 {
        assert forall|k: int| 0 <= k < q.len() implies (#[trigger] q[k]).am.len() > 0 && am_in_range(q[k].am) by {
            assert(q[k] == pots[k]);
        }
        lemma_max_first_am(q);
    } else {
        assert(max_first_am(q) == i32::MIN);
    }
    assert(max_first_am(pots) == if last.am[0] > max_first_am(q) { last.am[0] } else { max_first_am(q) });
}

/// The largest first angular momentum of a list of potentials.
pub(crate) fn max_first_am_exec(pots: &Vec<BseEcpPotential>) -> (r: i32)
    requires
        forall|k: int| 0 <= k < pots@.len() ==> (#[trigger] pots@[k]).angular_momentum@.len() > 0,
    ensures
        r == max_first_am(pots_view(pots@)),
{
    let ghost pv = pots_view(pots@);
    let mut m: i32 = i32::MIN;
    let mut i: usize = 0;
    while i < pots.len()
        invariant
            i <= pots@.len(),
            pv == pots_view(pots@),
            forall|k: int| 0 <= k < pots@.len() ==> (#[trigger] pots@[k]).angular_momentum@.len() > 0,
            m == max_first_am(pv.take(i as int)),
        decreases pots.len() - i,
    {
        assert(pv.take(i + 1).drop_last() =~= pv.take(i as int));
        assert(pv.take(i + 1).last() == pots@[i as int]@);
        assert(pots@[i as int].angular_momentum@.len() > 0);
        let a = pots[i].angular_momentum[0];
        if a > m {
            m = a;
        }
        i = i + 1;
    }
    assert(pv.take(pots.len() as int) =~= pv);
    m
}

/// The ECP lines of one element.
fn element_ecp_lines(lines: &mut Vec<String>, z: i32, pots: &Vec<BseEcpPotential>, ecp_electrons: i32)
    requires
        1 <= z <= 118,
        pots@.len() > 0,
        forall|k: int| 0 <= k < pots@.len() ==> g94_pot_ok(#[trigger] pots@[k]@),
    ensures
        ({
            let sym = upper_str(sym_spec(z as int));
            let max_am = max_first_am(pots_view(pots@));
            final(lines).deep_view() == old(lines).deep_view() + seq![
                sym + "     0"@,
                sym + "-ECP     "@ + int_text(max_am as int) + "     "@ + int_text(ecp_electrons as int),
            ] + g94_pot_lines(ecp_order(pots_view(pots@)), max_am)
        }),
{
    broadcast use vstd::seq_lib::group_to_multiset_ensures;

    let ghost start = lines.deep_view();
    let ghost pv = pots_view(pots@);
    let sym0 = match crate::lut::element_sym_from_Z(z) {
        Some(t) => t,
        None => "",
    };
    let sym = upper(sym0);
    assert forall|k: int| 0 <= k < pv.len() implies g94_pot_ok(#[trigger] pv[k]) by {
        assert(pv[k] == pots@[k]@);
    }
    proof {
        assert forall|k: int| 0 <= k < pv.len() implies (#[trigger] pv[k]).am.len() > 0 && am_in_range(pv[k].am) by {
            assert(g94_pot_ok(pv[k]));
        }
        lemma_max_first_am(pv);
        assert forall|k: int| 0 <= k < pots@.len() implies (#[trigger] pots@[k]).angular_momentum@.len() > 0 by {
            assert(g94_pot_ok(pots@[k]@));
        }
    }
    let max_am = max_first_am_exec(pots);
    let mut l1 = sym.clone();
    crate::text::push_str(&mut l1, "     0");
    let mut l2 = sym.clone();
    crate::text::push_str(&mut l2, "-ECP     ");
    let t = crate::text::i32_text(max_am);
    crate::text::push_str(&mut l2, t.as_str());
    crate::text::push_str(&mut l2, "     ");
    let t2 = crate::text::i32_text(ecp_electrons);
    crate::text::push_str(&mut l2, t2.as_str());
    push_line(lines, l1);
    push_line(lines, l2);
    let ghost mid = lines.deep_view();
    let sorted = crate::sort::order_by_am(pots);
    proof {
        crate::sort::lemma_ecp_order_permutes(pv);
        let sv = pots_view(sorted@);
        assert forall|k: int| 0 <= k < sorted@.len() implies g94_pot_ok(#[trigger] sorted@[k]@) by {
            assert(sv[k] == sorted@[k]@);
            assert(sv.contains(sv[k]));
            vstd::seq_lib::to_multiset_contains(sv, sv[k]);
            vstd::seq_lib::to_multiset_contains(pv, sv[k]);
            assert(pv.contains(sv[k]));
            let j = choose|j: int| 0 <= j < pv.len() && pv[j] == sv[k];
            assert(g94_pot_ok(pv[j]));
        }
    }
    element_pot_lines(lines, &sorted, max_am);
}

/// Write a prepared basis set in the Gaussian format: for each element with
/// shells, its symbol (preceded by `-` for the system library) and its
/// shells; then, if any element has potentials, a blank line and, for each
/// such element, its ECP block. With `add_harm_type`, Cartesian shells are
/// marked with ` c`; with `psi4_am`, single angular momenta of 7 or more are
/// written as `L=n`. The shells are written in the order given.
#[verifier::rlimit(40)]
pub fn write_g94_common(basis: &BseBasis, add_harm_type: bool, psi4_am: bool, system_library: bool) -> (r: String)
    requires
        keys_increasing(basis.elements@),
        g94_ok(elements_view(basis.elements@)),
    ensures
        r@ == g94_text(elements_view(basis.elements@), add_harm_type, psi4_am, system_library),
{
    let ghost ev = elements_view(basis.elements@);
    let mut lines: Vec<String> = Vec::new();
    let mut i: usize = 0;
    while i < basis.elements.len()
        invariant
            i <= basis.elements@.len(),
            ev == elements_view(basis.elements@),
            g94_ok(ev),
            lines.deep_view() == g94_electron_lines(ev.take(i as int), psi4_am, add_harm_type, system_library),
        decreases basis.elements.len() - i,
    {
        assert(ev.take(i + 1).drop_last() =~= ev.take(i as int));
        assert(ev.take(i + 1).last() == ev[i as int]);
        let z = basis.elements[i].0;
        let el = &basis.elements[i].1;
        assert(ev[i as int] == (z, el@));
        match &el.electron_shells {
            None => {},
            Some(shells) => {
                assert(el@.shells == Some(shells_view(shells@)));
                let ghost before = lines.deep_view();
                let sym = match crate::lut::element_sym_from_Z_with_normalize(z) {
                    Some(t) => t,
                    None => String::new(),
                };
                let mut head = if system_library {
                    "-".to_owned()
                } else {
                    String::new()
                };
                crate::text::push_str(&mut head, sym.as_str());
                crate::text::push_str(&mut head, "     0");
                push_line(&mut lines, head);
                let ghost sv = shells_view(shells@);
                proof {
                    lemma_g94_ok_shells(ev, i as int);
                    assert(ev[i as int].1.shells->0 == sv);
                }
                assert forall|k: int| 0 <= k < shells@.len() implies g94_shell_ok(#[trigger] shells@[k]@) by {
                    assert(sv[k] == shells@[k]@);
                    assert(g94_shell_ok(sv[k]));
                }
                element_shell_lines(&mut lines, shells, psi4_am, add_harm_type);
                push_line(&mut lines, "****".to_owned());
            },
        }
        assert(lines.deep_view() =~= g94_electron_lines(ev.take(i + 1), psi4_am, add_harm_type, system_library));
        i = i + 1;
    }
    assert(ev.take(basis.elements.len() as int) =~= ev);
    let mut any_ecp = false;
    let mut i: usize = 0;
    while i < basis.elements.len()
        invariant
            i <= basis.elements@.len(),
            ev == elements_view(basis.elements@),
            any_ecp <==> exists|k: int| 0 <= k < i && (#[trigger] ev[k]).1.potentials is Some,
        decreases basis.elements.len() - i,
    {
        assert(ev[i as int].1 == basis.elements@[i as int].1@);
        if basis.elements[i].1.ecp_potentials.is_some() {
            any_ecp = true;
        }
        i = i + 1;
    }
    assert(any_ecp == has_ecp(ev));
    let ghost elines = lines.deep_view();
    if any_ecp {
        push_line(&mut lines, String::new());
        let ghost base = lines.deep_view();
        let mut i: usize = 0;
        while i < basis.elements.len()
            invariant
                i <= basis.elements@.len(),
                ev == elements_view(basis.elements@),
                g94_ok(ev),
                lines.deep_view() == base + g94_ecp_lines(ev.take(i as int)),
            decreases basis.elements.len() - i,
        {
            assert(ev.take(i + 1).drop_last() =~= ev.take(i as int));
            assert(ev.take(i + 1).last() == ev[i as int]);
            let z = basis.elements[i].0;
            let el = &basis.elements[i].1;
            assert(ev[i as int] == (z, el@));
            match &el.ecp_potentials {
                None => {},
                Some(pots) => {
                    let ghost pv = pots_view(pots@);
                    assert(el@.potentials == Some(pv));
                    assert(pv.len() > 0 && el@.ecp_electrons is Some && forall|k: int| 0 <= k < pv.len() ==> g94_pot_ok(#[trigger] pv[k])) by {
                        let (zz, e) = ev[i as int];
                        assert(e.potentials == Some(pv));
                    }
                    assert forall|k: int| 0 <= k < pots@.len() implies g94_pot_ok(#[trigger] pots@[k]@) by {
                        assert(pv[k] == pots@[k]@);
                        assert(g94_pot_ok(pv[k]));
                    }
                    assert(1 <= z <= 118) by {
                        let (zz, e) = ev[i as int];
                    }
                    let ne = match el.ecp_electrons {
                        Some(n) => n,
                        None => 0,
                    };
                    element_ecp_lines(&mut lines, z, pots, ne);
                },
            }
            assert(lines.deep_view() =~= base + g94_ecp_lines(ev.take(i + 1)));
            i = i + 1;
        }
        assert(ev.take(basis.elements.len() as int) =~= ev);
    }
    assert(lines.deep_view() =~= g94_electron_lines(ev, psi4_am, add_harm_type, system_library) + if has_ecp(ev) {
        seq![Seq::<char>::empty()] + g94_ecp_lines(ev)
    } else {
        Seq::empty()
    });
    let mut r = crate::text::join(&lines, "\n");
    crate::text::push_str(&mut r, "\n");
    r
}

/// A shell's matrix fits its point places.
pub open spec fn shell_matrix_ok(sh: ShellV) -> bool {
    &&& 23 * (sh.coefficients.len() + 1) < 0x7fff_ffff + 15
    &&& write_matrix_ok(shell_matrix(sh), g94_points((sh.coefficients.len() + 1) as int))
}

/// The text of a shell's matrix: exponents, then each contraction.
pub(crate) fn shell_matrix_text(sh: &BseElectronShell, convert_exp: bool) -> (r: String)
    requires
        shell_matrix_ok(sh@),
    ensures
        r@ == write_matrix_spec(shell_matrix(sh@), g94_points((sh@.coefficients.len() + 1) as int), convert_exp),
{
    let mat = shell_matrix_exec(sh);
    let ncol = sh.coefficients.len() + 1;
    let pp = points(ncol);
    crate::printing::write_matrix(mat.as_slice(), pp.as_slice(), convert_exp)
}

/// The potentials of an element in output order, with the largest first
/// angular momentum.
pub(crate) fn ordered_pots(pots: &Vec<BseEcpPotential>) -> (r: (i32, Vec<BseEcpPotential>))
    requires
        pots@.len() > 0,
        forall|k: int| 0 <= k < pots@.len() ==> (#[trigger] pots@[k]).angular_momentum@.len() > 0,
    ensures
        r.0 == max_first_am(pots_view(pots@)),
        pots_view(r.1@) == ecp_order(pots_view(pots@)),
        r.1@.len() == pots@.len(),
        forall|k: int| 0 <= k < r.1@.len() ==> pots_view(pots@).contains(#[trigger] r.1@[k]@),
{
    broadcast use vstd::seq_lib::group_to_multiset_ensures;

    let ghost pv = pots_view(pots@);
    let max_am = max_first_am_exec(pots);
    let sorted = crate::sort::order_by_am(pots);
    proof {
        crate::sort::lemma_ecp_order_permutes(pv);
        let sv = pots_view(sorted@);
        assert forall|k: int| 0 <= k < sorted@.len() implies pv.contains(#[trigger] sorted@[k]@) by {
            assert(sv[k] == sorted@[k]@);
            assert(sv.contains(sv[k]));
            vstd::seq_lib::to_multiset_contains(sv, sv[k]);
            vstd::seq_lib::to_multiset_contains(pv, sv[k]);
        }
    }
    (max_am, sorted)
}

/// A text padded with spaces on the left to `width` characters.
pub open spec fn right_aligned(s: Seq<char>, width: int) -> Seq<char> {
    if s.len() < width {
        Seq::new((width - s.len()) as nat, |i: int| ' ') + s
    } else {
        s
    }
}

/// A string padded with spaces on the left to `width` characters.
pub(crate) fn pad_left(s: &str, width: usize) -> (r: String)
    ensures
        r@ == right_aligned(s@, width as int),
{
    let v = crate::text::chars_of(s);
    let n = v.len();
    let mut out: Vec<char> = Vec::new();
    if n < width {
        let mut k: usize = n;
        while k < width
            invariant
                n <= k <= width,
                out@ == Seq::new((k - n) as nat, |i: int| ' '),
            decreases width - k,
        {
            out.push(' ');
            assert(out@ =~= Seq::new((k + 1 - n) as nat, |i: int| ' '));
            k = k + 1;
        }
    }
    let ghost pad = out@;
    let mut j: usize = 0;
    while j < n
        invariant
            j <= n,
            n == v@.len(),
            v@ == s@,
            out@ == pad + v@.take(j as int),
        decreases n - j,
    {
        out.push(v[j]);
        assert(out@ =~= pad + v@.take(j + 1));
        j = j + 1;
    }
    assert(v@.take(n as int) =~= v@);
    assert(out@ =~= right_aligned(s@, width as int));
    crate::text::string_of(out.as_slice())
}

/* #endregion */

} // verus!