//! Conversion of basis sets to the GAMESS-UK format.
//!
//! A basis set is segmented with sp shells kept
//! ([`prepare_segmented`](crate::writers::g94::prepare_segmented) with 1),
//! its shells put in canonical order (outside this library), and written by
//! [`write_gamess_uk_sorted`].
use crate::fields::{keys_increasing, BseBasis, BseEcpPotential, BseElectronShell, ElementV, PotentialV, ShellV, elements_view, shells_view, pots_view};
use crate::lut::{am_in_range, amint_to_char_spec, capitalize_spec, name_spec, sym_spec};
use crate::printing::{write_matrix_ok, write_matrix_spec};
use crate::sort::ecp_order;
use crate::text::{int_text, join_spec};
use crate::writers::g94::{g94_points, has_ecp, max_first_am, r_exponent_texts, upper_str};
use vstd::prelude::*;

verus! {

/// The matrix of a shell: the first contraction, the exponents, then the
/// other contractions.
pub open spec fn guk_shell_matrix(sh: ShellV) -> Seq<Seq<Seq<char>>> {
    seq![sh.coefficients[0], sh.exponents] + sh.coefficients.skip(1)
}

/// The lines of the shells of an element.
pub open spec fn guk_shell_lines(z: i32, shells: Seq<ShellV>) -> Seq<Seq<char>>
    decreases shells.len(),
{
    if shells.len() == 0 {
        Seq::empty()
    } else {
        let sh = shells.last();
        guk_shell_lines(z, shells.drop_last()) + seq![
            upper_str(amint_to_char_spec(sh.am, true)) + "   "@ + capitalize_spec(sym_spec(z as int)),
            write_matrix_spec(guk_shell_matrix(sh), g94_points((sh.coefficients.len() + 1) as int), false),
        ]
    }
}

/// The electron basis lines of the elements.
pub open spec fn guk_electron_lines(elems: Seq<(i32, ElementV)>) -> Seq<Seq<char>>
    decreases elems.len(),
{
    if elems.len() == 0 {
        Seq::empty()
    } else {
        let prev = guk_electron_lines(elems.drop_last());
        let (z, e) = elems.last();
        match e.shells {
            None => prev,
            Some(shells) => prev + seq!["\n# "@ + upper_str(name_spec(z as int))] + guk_shell_lines(z, shells),
        }
    }
}

/// The matrix of a potential: powers of r, the contractions, then the
/// exponents.
pub open spec fn guk_pot_matrix(p: PotentialV) -> Seq<Seq<Seq<char>>> {
    seq![r_exponent_texts(p)] + p.coefficients + seq![p.gaussian_exponents]
}

/// The decimal point places of a potential's matrix.
pub open spec fn guk_pot_points() -> Seq<usize> {
    seq![1usize, 9usize, 32usize]
}

/// The lines of the potentials of an element.
pub open spec fn guk_pot_lines(pots: Seq<PotentialV>) -> Seq<Seq<char>>
    decreases pots.len(),
{
    if pots.len() == 0 {
        Seq::empty()
    } else {
        guk_pot_lines(pots.drop_last()) + seq![write_matrix_spec(guk_pot_matrix(pots.last()), guk_pot_points(), false)]
    }
}

/// The ECP lines of the elements.
pub open spec fn guk_ecp_lines(elems: Seq<(i32, ElementV)>) -> Seq<Seq<char>>
    decreases elems.len(),
{
    if elems.len() == 0 {
        Seq::empty()
    } else {
        let prev = guk_ecp_lines(elems.drop_last());
        let (z, e) = elems.last();
        match e.potentials {
            None => prev,
            Some(pots) => prev + seq![
                "CARDS "@ + upper_str(sym_spec(z as int)),
                "    "@ + int_text(max_first_am(pots) as int) + "     "@ + int_text(e.ecp_electrons->0 as int),
            ] + guk_pot_lines(ecp_order(pots)) + seq![Seq::<char>::empty()],
        }
    }
}

/// The text of a basis set in the GAMESS-UK format.
pub open spec fn gamess_uk_text(elems: Seq<(i32, ElementV)>) -> Seq<char> {
    let lines = guk_electron_lines(elems) + (if has_ecp(elems) {
        seq!["\n\nEffective Core Potentials"@, "---------------------------"@] + guk_ecp_lines(elems)
    } else {
        Seq::empty()
    });
    join_spec(lines, "\n"@) + "\n"@
}

/// A shell can be written: letters for its angular momenta, at least one
/// contraction, and a matrix that fits its point places.
pub open spec fn guk_shell_ok(sh: ShellV) -> bool {
    &&& am_in_range(sh.am)
    &&& sh.coefficients.len() > 0
    &&& 23 * (sh.coefficients.len() + 1) < 0x7fff_ffff + 15
    &&& write_matrix_ok(guk_shell_matrix(sh), g94_points((sh.coefficients.len() + 1) as int))
}

/// A potential can be written.
pub open spec fn guk_pot_ok(p: PotentialV) -> bool {
    &&& p.am.len() > 0
    &&& write_matrix_ok(guk_pot_matrix(p), guk_pot_points())
}

/// What writing a basis set in the GAMESS-UK format needs.
pub open spec fn gamess_uk_ok(elems: Seq<(i32, ElementV)>) -> bool {
    forall|i: int|
        0 <= i < elems.len() ==> {
            let (z, e) = #[trigger] elems[i];
            &&& (e.shells is Some || e.potentials is Some) ==> 1 <= z <= 118
            &&& e.shells is Some ==> forall|k: int|
                0 <= k < e.shells->0.len() ==> guk_shell_ok(#[trigger] e.shells->0[k])
            &&& e.potentials is Some ==> e.ecp_electrons is Some && e.potentials->0.len() > 0
            &&& e.potentials is Some ==> forall|k: int|
                0 <= k < e.potentials->0.len() ==> guk_pot_ok(#[trigger] e.potentials->0[k])
        }
}

proof fn lemma_guk_ok_at(elems: Seq<(i32, ElementV)>, i: int)
    requires
        gamess_uk_ok(elems),
        0 <= i < elems.len(),
    ensures
        (elems[i].1.shells is Some || elems[i].1.potentials is Some) ==> 1 <= elems[i].0 <= 118,
        elems[i].1.shells is Some ==> forall|k: int|
            0 <= k < elems[i].1.shells->0.len() ==> guk_shell_ok(#[trigger] elems[i].1.shells->0[k]),
        elems[i].1.potentials is Some ==> elems[i].1.ecp_electrons is Some && elems[i].1.potentials->0.len() > 0,
        elems[i].1.potentials is Some ==> forall|k: int|
            0 <= k < elems[i].1.potentials->0.len() ==> guk_pot_ok(#[trigger] elems[i].1.potentials->0[k]),
{
    let (z, e) = elems[i];
}

fn guk_shell_matrix_exec(sh: &BseElectronShell) -> (r: Vec<Vec<String>>)
    requires
        sh@.coefficients.len() > 0,
    ensures
        r.deep_view() == guk_shell_matrix(sh@),
{
    let mut r: Vec<Vec<String>> = Vec::new();
    r.push(crate::fields::copy_strings(&sh.coefficients[0]));
    let ghost r0 = r.deep_view();
    r.push(crate::fields::copy_strings(&sh.exponents));
    assert(r.deep_view() =~= r0.push(sh@.exponents));
    let mut g: usize = 1;
    while g < sh.coefficients.len()
        invariant
            1 <= g <= sh.coefficients@.len(),
            r.deep_view() == seq![sh@.coefficients[0], sh@.exponents] + sh@.coefficients.subrange(1, g as int),
        decreases sh.coefficients.len() - g,
    {
        let ghost before = r.deep_view();
        r.push(crate::fields::copy_strings(&sh.coefficients[g]));
        assert(r.deep_view() =~= before.push(sh@.coefficients[g as int]));
        assert(r.deep_view() =~= seq![sh@.coefficients[0], sh@.exponents] + sh@.coefficients.subrange(1, g + 1));
        g = g + 1;
    }
    assert(sh@.coefficients.subrange(1, sh.coefficients@.len() as int) =~= sh@.coefficients.skip(1));
    r
}

fn guk_shells_exec(lines: &mut Vec<String>, z: i32, shells: &Vec<BseElectronShell>)
    requires
        1 <= z <= 118,
        forall|k: int| 0 <= k < shells@.len() ==> guk_shell_ok(#[trigger] shells_view(shells@)[k]),
    ensures
        final(lines).deep_view() == old(lines).deep_view() + guk_shell_lines(z, shells_view(shells@)),
{
    let ghost start = lines.deep_view();
    let ghost sv = shells_view(shells@);
    let sym = match crate::lut::element_sym_from_Z_with_normalize(z) {
        Some(t) => t,
        None => String::new(),
    };
    let mut i: usize = 0;
    while i < shells.len()
        invariant
            i <= shells@.len(),
            sv == shells_view(shells@),
            sym@ == capitalize_spec(sym_spec(z as int)),
            forall|k: int| 0 <= k < sv.len() ==> guk_shell_ok(#[trigger] sv[k]),
            lines.deep_view() == start + guk_shell_lines(z, sv.take(i as int)),
        decreases shells.len() - i,
    {
        let sh = &shells[i];
        assert(sv[i as int] == sh@);
        assert(guk_shell_ok(sv[i as int]));
        assert(sv.take(i + 1).drop_last() =~= sv.take(i as int));
        assert(sv.take(i + 1).last() == sh@);
        let c = crate::lut::amint_to_char(sh.angular_momentum.as_slice(), true);
        let mut l = crate::writers::g94::upper(c.as_str());
        crate::text::push_str(&mut l, "   ");
        crate::text::push_str(&mut l, sym.as_str());
        crate::writers::g94::push_line(lines, l);
        let mat = guk_shell_matrix_exec(sh);
        let pp = crate::writers::g94::points(sh.coefficients.len() + 1);
        let m = crate::printing::write_matrix(mat.as_slice(), pp.as_slice(), false);
        crate::writers::g94::push_line(lines, m);
        assert(lines.deep_view() =~= start + guk_shell_lines(z, sv.take(i + 1)));
        i = i + 1;
    }
    assert(sv.take(shells@.len() as int) =~= sv);
}

fn guk_pot_matrix_exec(p: &BseEcpPotential) -> (r: Vec<Vec<String>>)
    ensures
        r.deep_view() == guk_pot_matrix(p@),
{
    let mut r: Vec<Vec<String>> = Vec::new();
    r.push(crate::writers::g94::r_exponents_exec(p));
    let mut g: usize = 0;
    while g < p.coefficients.len()
        invariant
            g <= p.coefficients@.len(),
            r.deep_view() == seq![r_exponent_texts(p@)] + p@.coefficients.take(g as int),
        decreases p.coefficients.len() - g,
    {
        let ghost before = r.deep_view();
        r.push(crate::fields::copy_strings(&p.coefficients[g]));
        assert(r.deep_view() =~= before.push(p@.coefficients[g as int]));
        assert(r.deep_view() =~= seq![r_exponent_texts(p@)] + p@.coefficients.take(g + 1));
        g = g + 1;
    }
    let ghost before = r.deep_view();
    r.push(crate::fields::copy_strings(&p.gaussian_exponents));
    assert(r.deep_view() =~= before.push(p@.gaussian_exponents));
    assert(p@.coefficients.take(p.coefficients@.len() as int) =~= p@.coefficients);
    assert(r.deep_view() =~= guk_pot_matrix(p@));
    r
}

fn guk_ecp_element(lines: &mut Vec<String>, z: i32, pots: &Vec<BseEcpPotential>, ecp_electrons: i32)
    requires
        1 <= z <= 118,
        pots@.len() > 0,
        forall|k: int| 0 <= k < pots@.len() ==> guk_pot_ok(#[trigger] pots_view(pots@)[k]),
    ensures
        ({
            let pv = pots_view(pots@);
            final(lines).deep_view() == old(lines).deep_view() + seq![
                "CARDS "@ + upper_str(sym_spec(z as int)),
                "    "@ + int_text(max_first_am(pv) as int) + "     "@ + int_text(ecp_electrons as int),
            ] + guk_pot_lines(ecp_order(pv)) + seq![Seq::<char>::empty()]
        }),
{
    let ghost pv = pots_view(pots@);
    proof {
        assert forall|k: int| 0 <= k < pots@.len() implies (#[trigger] pots@[k]).angular_momentum@.len() > 0 by {
            assert(pv[k] == pots@[k]@);
            assert(guk_pot_ok(pv[k]));
        }
    }
    let (max_am, sorted) = crate::writers::g94::ordered_pots(pots);
    let sym = match crate::lut::element_sym_from_Z(z) {
        Some(t) => t,
        None => "",
    };
    let mut l1 = "CARDS ".to_owned();
    let up = crate::writers::g94::upper(sym);
    crate::text::push_str(&mut l1, up.as_str());
    crate::writers::g94::push_line(lines, l1);
    let mut l2 = "    ".to_owned();
    let t = crate::text::i32_text(max_am);
    crate::text::push_str(&mut l2, t.as_str());
    crate::text::push_str(&mut l2, "     ");
    let t2 = crate::text::i32_text(ecp_electrons);
    crate::text::push_str(&mut l2, t2.as_str());
    crate::writers::g94::push_line(lines, l2);
    let ghost start = lines.deep_view();
    let ghost sv = pots_view(sorted@);
    let mut i: usize = 0;
    while i < sorted.len()
        invariant
            i <= sorted@.len(),
            sv == pots_view(sorted@),
            forall|k: int| 0 <= k < sorted@.len() ==> pv.contains(#[trigger] sorted@[k]@),
            forall|k: int| 0 <= k < pv.len() ==> guk_pot_ok(#[trigger] pv[k]),
            lines.deep_view() == start + guk_pot_lines(sv.take(i as int)),
        decreases sorted.len() - i,
    {
        let p = &sorted[i];
        assert(sv[i as int] == p@);
        assert(pv.contains(p@));
        let ghost j = choose|j: int| 0 <= j < pv.len() && pv[j] == p@;
        assert(guk_pot_ok(pv[j]));
        assert(sv.take(i + 1).drop_last() =~= sv.take(i as int));
        assert(sv.take(i + 1).last() == p@);
        let mat = guk_pot_matrix_exec(p);
        let pp: Vec<usize> = vec![1, 9, 32];
        assert(pp@ =~= guk_pot_points());
        let m = crate::printing::write_matrix(mat.as_slice(), pp.as_slice(), false);
        crate::writers::g94::push_line(lines, m);
        assert(lines.deep_view() =~= start + guk_pot_lines(sv.take(i + 1)));
        i = i + 1;
    }
    assert(sv.take(sorted@.len() as int) =~= sv);
    crate::writers::g94::push_line(lines, String::new());
}

/// Write a basis set, segmented with sp shells kept and with its shells in
/// canonical order, in the GAMESS-UK format: the shells of each element
/// (with the first contraction before the exponents), then the potentials.
#[verifier::rlimit(40)]
pub fn write_gamess_uk_sorted(basis: &BseBasis) -> (r: String)
    requires
        keys_increasing(basis.elements@),
        gamess_uk_ok(elements_view(basis.elements@)),
    ensures
        r@ == gamess_uk_text(elements_view(basis.elements@)),
{
    let ghost ev = elements_view(basis.elements@);
    let mut lines: Vec<String> = Vec::new();
    let mut i: usize = 0;
    while i < basis.elements.len()
        invariant
            i <= basis.elements@.len(),
            ev == elements_view(basis.elements@),
            gamess_uk_ok(ev),
            lines.deep_view() == guk_electron_lines(ev.take(i as int)),
        decreases basis.elements.len() - i,
    {
        proof {
            lemma_guk_ok_at(ev, i as int);
        }
        assert(ev.take(i + 1).drop_last() =~= ev.take(i as int));
        assert(ev.take(i + 1).last() == ev[i as int]);
        let z = basis.elements[i].0;
        let el = &basis.elements[i].1;
        assert(ev[i as int] == (z, el@));
        match &el.electron_shells {
            None => {},
            Some(shells) => {
                assert(el@.shells == Some(shells_view(shells@)));
                assert(ev[i as int].1.shells->0 == shells_view(shells@));
                let name = match crate::lut::element_name_from_Z(z) {
                    Some(t) => t,
                    None => "",
                };
                let mut l = "\n# ".to_owned();
                let un = crate::writers::g94::upper(name);
                crate::text::push_str(&mut l, un.as_str());
                crate::writers::g94::push_line(&mut lines, l);
                guk_shells_exec(&mut lines, z, shells);
            },
        }
        assert(lines.deep_view() =~= guk_electron_lines(ev.take(i + 1)));
        i = i + 1;
    }
    assert(ev.take(basis.elements.len() as int) =~= ev);
    let mut any_ecp = false;
    let mut i: usize = 0;
    while i < basis.elements.len()
        invariant
            i <= basis.elements@.len(),
            ev == elements_view(basis.elements@),
            any_ecp <==> exists|k: int| 0 <= k < i && (#[trigger] ev[k]).1.potentials is Some,
        decreases basis.elements.len() - i,
    {
        assert(ev[i as int].1 == basis.elements@[i as int].1@);
        if basis.elements[i].1.ecp_potentials.is_some() {
            any_ecp = true;
        }
        i = i + 1;
    }
    assert(any_ecp == has_ecp(ev));
    if any_ecp {
        crate::writers::g94::push_line(&mut lines, "\n\nEffective Core Potentials".to_owned());
        crate::writers::g94::push_line(&mut lines, "---------------------------".to_owned());
        let ghost base2 = lines.deep_view();
        let mut i: usize = 0;
        while i < basis.elements.len()
            invariant
                i <= basis.elements@.len(),
                ev == elements_view(basis.elements@),
                gamess_uk_ok(ev),
                lines.deep_view() == base2 + guk_ecp_lines(ev.take(i as int)),
            decreases basis.elements.len() - i,
        {
            proof {
                lemma_guk_ok_at(ev, i as int);
            }
            assert(ev.take(i + 1).drop_last() =~= ev.take(i as int));
            assert(ev.take(i + 1).last() == ev[i as int]);
            let z = basis.elements[i].0;
            let el = &basis.elements[i].1;
            assert(ev[i as int] == (z, el@));
            match &el.ecp_potentials {
                None => {},
                Some(pots) => {
                    assert(el@.potentials == Some(pots_view(pots@)));
                    assert(ev[i as int].1.potentials->0 == pots_view(pots@));
                    let ne = match el.ecp_electrons {
                        Some(n) => n,
                        None => 0,
                    };
                    guk_ecp_element(&mut lines, z, pots, ne);
                },
            }
            assert(lines.deep_view() =~= base2 + guk_ecp_lines(ev.take(i + 1)));
            i = i + 1;
        }
        assert(ev.take(basis.elements.len() as int) =~= ev);
    }
    assert(lines.deep_view() =~= guk_electron_lines(ev) + (if has_ecp(ev) {
        seq!["\n\nEffective Core Potentials"@, "---------------------------"@] + guk_ecp_lines(ev)
    } else {
        Seq::empty()
    }));
    let mut r = crate::text::join(&lines, "\n");
    crate::text::push_str(&mut r, "\n");
    r
}

} // verus!
