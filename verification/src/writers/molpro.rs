//! Conversion of basis sets to the Molpro format.
//!
//! A basis set is made as generally contracted as possible and pruned
//! ([`prepare_general`](crate::writers::libmol::prepare_general)), its shells
//! put in canonical order (outside this library), and written by
//! [`write_molpro_sorted`].
use crate::fields::{keys_increasing, BseBasis, BseEcpPotential, BseElectronShell, ElementV, PotentialV, ShellV, elements_view, shells_view, pots_view};
use crate::lut::{am_in_range, amint_to_char_spec, name_spec, sym_spec};
use crate::misc::{contraction_ok, contraction_spec};
use crate::sort::ecp_order;
use crate::text::{int_text, join_spec, nat_digits};
use crate::writers::g94::{has_ecp, left_aligned, max_first_am, upper_str};
use crate::writers::libmol::{first_nonzero, has_nonzero, has_shells, last_nonzero, libmol_pot_ok, libmol_shell_ok};
use vstd::prelude::*;

verus! {

/// The lines of the contractions of a shell: the one-based range of
/// nonzero coefficients and those coefficients.
pub open spec fn molpro_coef_lines(coefs: Seq<Seq<Seq<char>>>) -> Seq<Seq<char>>
    decreases coefs.len(),
{
    if coefs.len() == 0 {
        Seq::empty()
    } else {
        let c = coefs.last();
        let a = first_nonzero(c);
        let b = last_nonzero(c);
        molpro_coef_lines(coefs.drop_last()) + seq![
            "c, "@ + nat_digits((a + 1) as nat) + "."@ + nat_digits((b + 1) as nat) + ", "@ + join_spec(
                c.subrange(a, b + 1),
                ", "@,
            ),
        ]
    }
}

/// The lines of the shells of an element.
pub open spec fn molpro_shell_lines(z: i32, shells: Seq<ShellV>) -> Seq<Seq<char>>
    decreases shells.len(),
{
    if shells.len() == 0 {
        Seq::empty()
    } else {
        let sh = shells.last();
        molpro_shell_lines(z, shells.drop_last()) + seq![
            amint_to_char_spec(sh.am, false) + ", "@ + upper_str(sym_spec(z as int)) + " , "@ + join_spec(
                sh.exponents,
                ", "@,
            ),
        ] + molpro_coef_lines(sh.coefficients)
    }
}

/// The electron basis lines of the elements.
pub open spec fn molpro_electron_lines(elems: Seq<(i32, ElementV)>) -> Seq<Seq<char>>
    decreases elems.len(),
{
    if elems.len() == 0 {
        Seq::empty()
    } else {
        let prev = molpro_electron_lines(elems.drop_last());
        let (z, e) = elems.last();
        match e.shells {
            None => prev,
            Some(shells) => prev + seq![
                "!"@,
                "! "@ + left_aligned(name_spec(z as int), 20) + " "@ + contraction_spec(shells, false, false),
            ] + molpro_shell_lines(z, shells),
        }
    }
}

/// The term lines of a potential: power of r, exponent and first
/// coefficient.
pub open spec fn molpro_terms(p: PotentialV) -> Seq<Seq<char>> {
    Seq::new(
        p.r_exponents.len(),
        |k: int| int_text(p.r_exponents[k] as int) + ","@ + p.gaussian_exponents[k] + ","@ + p.coefficients[0][k] + ";"@,
    )
}

/// The lines of the potentials of an element.
pub open spec fn molpro_pot_lines(pots: Seq<PotentialV>, max_am: i32) -> Seq<Seq<char>>
    decreases pots.len(),
{
    if pots.len() == 0 {
        Seq::empty()
    } else {
        let p = pots.last();
        molpro_pot_lines(pots.drop_last(), max_am) + seq![
            if p.am[0] == max_am {
                nat_digits(p.r_exponents.len()) + "; !  ul potential"@
            } else {
                nat_digits(p.r_exponents.len()) + "; !  "@ + amint_to_char_spec(p.am, false) + "-ul potential"@
            },
        ] + molpro_terms(p)
    }
}

/// The ECP lines of the elements.
pub open spec fn molpro_ecp_lines(elems: Seq<(i32, ElementV)>) -> Seq<Seq<char>>
    decreases elems.len(),
{
    if elems.len() == 0 {
        Seq::empty()
    } else {
        let prev = molpro_ecp_lines(elems.drop_last());
        let (z, e) = elems.last();
        match e.potentials {
            None => prev,
            Some(pots) => {
                let max_am = max_first_am(pots);
                prev + seq![
                    "ECP, "@ + sym_spec(z as int) + ", "@ + int_text(e.ecp_electrons->0 as int) + ", "@ + int_text(
                        max_am as int,
                    ) + " ;"@,
                ] + molpro_pot_lines(ecp_order(pots), max_am)
            },
        }
    }
}

/// The text of a basis set in the Molpro format.
pub open spec fn molpro_text(function_types: Seq<Seq<char>>, elems: Seq<(i32, ElementV)>) -> Seq<char> {
    let lines = seq![
        if function_types.contains("gto_cartesian"@) {
            "cartesian"@
        } else {
            "spherical"@
        },
    ] + (if has_shells(elems) {
        seq!["basis={"@] + molpro_electron_lines(elems) + seq!["}"@]
    } else {
        Seq::empty()
    }) + (if has_ecp(elems) {
        seq!["\n\n! Effective core Potentials"@] + molpro_ecp_lines(elems)
    } else {
        Seq::empty()
    });
    join_spec(lines, "\n"@) + "\n"@
}

/// What writing a basis set in the Molpro format needs.
pub open spec fn molpro_ok(elems: Seq<(i32, ElementV)>) -> bool {
    forall|i: int|
        0 <= i < elems.len() ==> {
            let (z, e) = #[trigger] elems[i];
            &&& (e.shells is Some || e.potentials is Some) ==> 1 <= z <= 118
            &&& e.shells is Some ==> contraction_ok(e.shells->0)
            &&& e.shells is Some ==> forall|k: int|
                0 <= k < e.shells->0.len() ==> libmol_shell_ok(#[trigger] e.shells->0[k])
            &&& e.potentials is Some ==> e.ecp_electrons is Some && e.potentials->0.len() > 0
            &&& e.potentials is Some ==> forall|k: int|
                0 <= k < e.potentials->0.len() ==> libmol_pot_ok(#[trigger] e.potentials->0[k])
        }
}

proof fn lemma_molpro_ok_at(elems: Seq<(i32, ElementV)>, i: int)
    requires
        molpro_ok(elems),
        0 <= i < elems.len(),
    ensures
        (elems[i].1.shells is Some || elems[i].1.potentials is Some) ==> 1 <= elems[i].0 <= 118,
        elems[i].1.shells is Some ==> contraction_ok(elems[i].1.shells->0),
        elems[i].1.shells is Some ==> forall|k: int|
            0 <= k < elems[i].1.shells->0.len() ==> libmol_shell_ok(#[trigger] elems[i].1.shells->0[k]),
        elems[i].1.potentials is Some ==> elems[i].1.ecp_electrons is Some && elems[i].1.potentials->0.len() > 0,
        elems[i].1.potentials is Some ==> forall|k: int|
            0 <= k < elems[i].1.potentials->0.len() ==> libmol_pot_ok(#[trigger] elems[i].1.potentials->0[k]),
{
    let (z, e) = elems[i];
}

fn molpro_coefs_exec(lines: &mut Vec<String>, sh: &BseElectronShell)
    requires
        libmol_shell_ok(sh@),
    ensures
        final(lines).deep_view() == old(lines).deep_view() + molpro_coef_lines(sh@.coefficients),
{
    let ghost start = lines.deep_view();
    let ghost cv = sh@.coefficients;
    let mut g: usize = 0;
    while g < sh.coefficients.len()
        invariant
            g <= sh.coefficients@.len(),
            cv == sh@.coefficients,
            libmol_shell_ok(sh@),
            lines.deep_view() == start + molpro_coef_lines(cv.take(g as int)),
        decreases sh.coefficients.len() - g,
    {
        let c = &sh.coefficients[g];
        assert(c.deep_view() == cv[g as int]);
        assert(has_nonzero(cv[g as int]));
        let (a, b) = crate::misc::find_range(c.as_slice());
        proof {
            crate::writers::libmol::lemma_range_is_nonzero_range(cv[g as int], a as int, b as int);
        }
        let cl = c.len();
        assert(a <= b && b < cl);
        assert(cv.take(g + 1).drop_last() =~= cv.take(g as int));
        assert(cv.take(g + 1).last() == cv[g as int]);
        let mut l = "c, ".to_owned();
        let t1 = crate::text::usize_text(a + 1);
        crate::text::push_str(&mut l, t1.as_str());
        crate::text::push_str(&mut l, ".");
        let t2 = crate::text::usize_text(b + 1);
        crate::text::push_str(&mut l, t2.as_str());
        crate::text::push_str(&mut l, ", ");
        let piece = crate::writers::libmol::copy_range(c, a, b + 1);
        let j = crate::text::join(&piece, ", ");
        crate::text::push_str(&mut l, j.as_str());
        crate::writers::g94::push_line(lines, l);
        assert(lines.deep_view() =~= start + molpro_coef_lines(cv.take(g + 1)));
        g = g + 1;
    }
    assert(cv.take(sh.coefficients@.len() as int) =~= cv);
}

fn molpro_shells_exec(lines: &mut Vec<String>, z: i32, shells: &Vec<BseElectronShell>)
    requires
        1 <= z <= 118,
        forall|k: int| 0 <= k < shells@.len() ==> libmol_shell_ok(#[trigger] shells_view(shells@)[k]),
    ensures
        final(lines).deep_view() == old(lines).deep_view() + molpro_shell_lines(z, shells_view(shells@)),
{
    let ghost start = lines.deep_view();
    let ghost sv = shells_view(shells@);
    let sym = match crate::lut::element_sym_from_Z(z) {
        Some(t) => t,
        None => "",
    };
    let up = crate::writers::g94::upper(sym);
    let mut i: usize = 0;
    while i < shells.len()
        invariant
            i <= shells@.len(),
            sv == shells_view(shells@),
            up@ == upper_str(sym_spec(z as int)),
            forall|k: int| 0 <= k < sv.len() ==> libmol_shell_ok(#[trigger] sv[k]),
            lines.deep_view() == start + molpro_shell_lines(z, sv.take(i as int)),
        decreases shells.len() - i,
    {
        let sh = &shells[i];
        assert(sv[i as int] == sh@);
        assert(libmol_shell_ok(sv[i as int]));
        assert(sv.take(i + 1).drop_last() =~= sv.take(i as int));
        assert(sv.take(i + 1).last() == sh@);
        let ghost before = lines.deep_view();
        let mut l = crate::lut::amint_to_char(sh.angular_momentum.as_slice(), false);
        crate::text::push_str(&mut l, ", ");
        crate::text::push_str(&mut l, up.as_str());
        crate::text::push_str(&mut l, " , ");
        let j = crate::text::join(&sh.exponents, ", ");
        crate::text::push_str(&mut l, j.as_str());
        crate::writers::g94::push_line(lines, l);
        molpro_coefs_exec(lines, sh);
        assert(lines.deep_view() =~= start + molpro_shell_lines(z, sv.take(i + 1)));
        i = i + 1;
    }
    assert(sv.take(shells@.len() as int) =~= sv);
}

fn molpro_terms_exec(lines: &mut Vec<String>, p: &BseEcpPotential)
    requires
        libmol_pot_ok(p@),
    ensures
        final(lines).deep_view() == old(lines).deep_view() + molpro_terms(p@),
{
    let ghost start = lines.deep_view();
    let mut k: usize = 0;
    while k < p.r_exponents.len()
        invariant
            k <= p.r_exponents@.len(),
            libmol_pot_ok(p@),
            lines.deep_view() =~= start + molpro_terms(p@).take(k as int),
        decreases p.r_exponents.len() - k,
    {
        assert(p.gaussian_exponents@[k as int]@ == p@.gaussian_exponents[k as int]);
        assert(p.coefficients@[0]@[k as int]@ == p@.coefficients[0][k as int]);
        let mut l = crate::text::i32_text(p.r_exponents[k]);
        crate::text::push_str(&mut l, ",");
        crate::text::push_str(&mut l, p.gaussian_exponents[k].as_str());
        crate::text::push_str(&mut l, ",");
        crate::text::push_str(&mut l, p.coefficients[0][k].as_str());
        crate::text::push_str(&mut l, ";");
        crate::writers::g94::push_line(lines, l);
        k = k + 1;
    }
    assert(molpro_terms(p@).take(p.r_exponents@.len() as int) =~= molpro_terms(p@));
}

pub(crate) fn molpro_pots_exec(lines: &mut Vec<String>, pots: &Vec<BseEcpPotential>, max_am: i32)
    requires
        forall|k: int| 0 <= k < pots@.len() ==> libmol_pot_ok(#[trigger] pots@[k]@),
    ensures
        final(lines).deep_view() == old(lines).deep_view() + molpro_pot_lines(pots_view(pots@), max_am),
{
    let ghost start = lines.deep_view();
    let ghost pv = pots_view(pots@);
    let mut i: usize = 0;
    while i < pots.len()
        invariant
            i <= pots@.len(),
            pv == pots_view(pots@),
            forall|k: int| 0 <= k < pots@.len() ==> libmol_pot_ok(#[trigger] pots@[k]@),
            lines.deep_view() == start + molpro_pot_lines(pv.take(i as int), max_am),
        decreases pots.len() - i,
    {
        let p = &pots[i];
        assert(pv[i as int] == p@);
        assert(libmol_pot_ok(p@));
        assert(pv.take(i + 1).drop_last() =~= pv.take(i as int));
        assert(pv.take(i + 1).last() == p@);
        let mut l = crate::text::usize_text(p.r_exponents.len());
        if p.angular_momentum[0] == max_am {
            crate::text::push_str(&mut l, "; !  ul potential");
        } else {
            crate::text::push_str(&mut l, "; !  ");
            let c = crate::lut::amint_to_char(p.angular_momentum.as_slice(), false);
            crate::text::push_str(&mut l, c.as_str());
            crate::text::push_str(&mut l, "-ul potential");
        }
        crate::writers::g94::push_line(lines, l);
        molpro_terms_exec(lines, p);
        assert(lines.deep_view() =~= start + molpro_pot_lines(pv.take(i + 1), max_am));
        i = i + 1;
    }
    assert(pv.take(pots@.len() as int) =~= pv);
}

fn molpro_ecp_element(lines: &mut Vec<String>, z: i32, pots: &Vec<BseEcpPotential>, ecp_electrons: i32)
    requires
        1 <= z <= 118,
        pots@.len() > 0,
        forall|k: int| 0 <= k < pots@.len() ==> libmol_pot_ok(#[trigger] pots_view(pots@)[k]),
    ensures
        ({
            let pv = pots_view(pots@);
            let max_am = max_first_am(pv);
            final(lines).deep_view() == old(lines).deep_view() + seq![
                "ECP, "@ + sym_spec(z as int) + ", "@ + int_text(ecp_electrons as int) + ", "@ + int_text(max_am as int)
                    + " ;"@,
            ] + molpro_pot_lines(ecp_order(pv), max_am)
        }),
{
    let ghost pv = pots_view(pots@);
    proof {
        assert forall|k: int| 0 <= k < pots@.len() implies (#[trigger] pots@[k]).angular_momentum@.len() > 0 by {
            assert(pv[k] == pots@[k]@);
            assert(libmol_pot_ok(pv[k]));
        }
    }
    let (max_am, sorted) = crate::writers::g94::ordered_pots(pots);
    proof {
        assert forall|k: int| 0 <= k < sorted@.len() implies libmol_pot_ok(#[trigger] sorted@[k]@) by {
            assert(pv.contains(sorted@[k]@));
            let j = choose|j: int| 0 <= j < pv.len() && pv[j] == sorted@[k]@;
            assert(libmol_pot_ok(pv[j]));
        }
    }
    let sym = match crate::lut::element_sym_from_Z(z) {
        Some(t) => t,
        None => "",
    };
    let mut l = "ECP, ".to_owned();
    crate::text::push_str(&mut l, sym);
    crate::text::push_str(&mut l, ", ");
    let t = crate::text::i32_text(ecp_electrons);
    crate::text::push_str(&mut l, t.as_str());
    crate::text::push_str(&mut l, ", ");
    let t2 = crate::text::i32_text(max_am);
    crate::text::push_str(&mut l, t2.as_str());
    crate::text::push_str(&mut l, " ;");
    crate::writers::g94::push_line(lines, l);
    molpro_pots_exec(lines, &sorted, max_am);
}

/// Write a basis set, prepared and with its shells in canonical order, in
/// the Molpro format: the harmonic type, a `basis={...}` block with the
/// shells of each element and their nonzero ranges, then the potentials.
#[verifier::rlimit(40)]
pub fn write_molpro_sorted(basis: &BseBasis) -> (r: String)
    requires
        keys_increasing(basis.elements@),
        molpro_ok(elements_view(basis.elements@)),
    ensures
        r@ == molpro_text(basis.function_types.deep_view(), elements_view(basis.elements@)),
{
    let ghost ev = elements_view(basis.elements@);
    let mut lines: Vec<String> = Vec::new();
    let cart = crate::text::chars_of("gto_cartesian");
    let harm = if crate::formats::strings_contain(&basis.function_types, cart.as_slice()) {
        "cartesian".to_owned()
    } else {
        "spherical".to_owned()
    };
    crate::writers::g94::push_line(&mut lines, harm);
    let mut any_shells = false;
    let mut any_ecp = false;
    let mut i: usize = 0;
    while i < basis.elements.len()
        invariant
            i <= basis.elements@.len(),
            ev == elements_view(basis.elements@),
            any_shells <==> exists|k: int| 0 <= k < i && (#[trigger] ev[k]).1.shells is Some,
            any_ecp <==> exists|k: int| 0 <= k < i && (#[trigger] ev[k]).1.potentials is Some,
        decreases basis.elements.len() - i,
    {
        assert(ev[i as int].1 == basis.elements@[i as int].1@);
        if basis.elements[i].1.electron_shells.is_some() {
            any_shells = true;
        }
        if basis.elements[i].1.ecp_potentials.is_some() {
            any_ecp = true;
        }
        i = i + 1;
    }
    assert(any_shells == has_shells(ev));
    assert(any_ecp == has_ecp(ev));
    let ghost l0 = lines.deep_view();
    if any_shells {
        crate::writers::g94::push_line(&mut lines, "basis={".to_owned());
        let ghost base = lines.deep_view();
        let mut i: usize = 0;
        while i < basis.elements.len()
            invariant
                i <= basis.elements@.len(),
                ev == elements_view(basis.elements@),
                molpro_ok(ev),
                lines.deep_view() == base + molpro_electron_lines(ev.take(i as int)),
            decreases basis.elements.len() - i,
        {
            proof {
                lemma_molpro_ok_at(ev, i as int);
            }
            assert(ev.take(i + 1).drop_last() =~= ev.take(i as int));
            assert(ev.take(i + 1).last() == ev[i as int]);
            let z = basis.elements[i].0;
            let el = &basis.elements[i].1;
            assert(ev[i as int] == (z, el@));
            match &el.electron_shells {
                None => {},
                Some(shells) => {
                    assert(el@.shells == Some(shells_view(shells@)));
                    assert(ev[i as int].1.shells->0 == shells_view(shells@));
                    crate::writers::g94::push_line(&mut lines, "!".to_owned());
                    let name = match crate::lut::element_name_from_Z(z) {
                        Some(t) => t,
                        None => "",
                    };
                    let mut l = "! ".to_owned();
                    let pn = crate::writers::g94::pad_right(name, 20);
                    crate::text::push_str(&mut l, pn.as_str());
                    crate::text::push_str(&mut l, " ");
                    let c = crate::misc::contraction_string(shells.as_slice(), false, false);
                    crate::text::push_str(&mut l, c.as_str());
                    crate::writers::g94::push_line(&mut lines, l);
                    molpro_shells_exec(&mut lines, z, shells);
                },
            }
            assert(lines.deep_view() =~= base + molpro_electron_lines(ev.take(i + 1)));
            i = i + 1;
        }
        assert(ev.take(basis.elements.len() as int) =~= ev);
        crate::writers::g94::push_line(&mut lines, "}".to_owned());
    }
    let ghost l1 = lines.deep_view();
    if any_ecp {
        crate::writers::g94::push_line(&mut lines, "\n\n! Effective core Potentials".to_owned());
        let ghost base2 = lines.deep_view();
        let mut i: usize = 0;
        while i < basis.elements.len()
            invariant
                i <= basis.elements@.len(),
                ev == elements_view(basis.elements@),
                molpro_ok(ev),
                lines.deep_view() == base2 + molpro_ecp_lines(ev.take(i as int)),
            decreases basis.elements.len() - i,
        {
            proof {
                lemma_molpro_ok_at(ev, i as int);
            }
            assert(ev.take(i + 1).drop_last() =~= ev.take(i as int));
            assert(ev.take(i + 1).last() == ev[i as int]);
            let z = basis.elements[i].0;
            let el = &basis.elements[i].1;
            assert(ev[i as int] == (z, el@));
            match &el.ecp_potentials {
                None => {},
                Some(pots) => {
                    assert(el@.potentials == Some(pots_view(pots@)));
                    assert(ev[i as int].1.potentials->0 == pots_view(pots@));
                    let ne = match el.ecp_electrons {
                        Some(n) => n,
                        None => 0,
                    };
                    molpro_ecp_element(&mut lines, z, pots, ne);
                },
            }
            assert(lines.deep_view() =~= base2 + molpro_ecp_lines(ev.take(i + 1)));
            i = i + 1;
        }
        assert(ev.take(basis.elements.len() as int) =~= ev);
    }
    assert(lines.deep_view() =~= seq![
        if basis.function_types.deep_view().contains("gto_cartesian"@) {
            "cartesian"@
        } else {
            "spherical"@
        },
    ] + (if has_shells(ev) {
        seq!["basis={"@] + molpro_electron_lines(ev) + seq!["}"@]
    } else {
        Seq::empty()
    }) + (if has_ecp(ev) {
        seq!["\n\n! Effective core Potentials"@] + molpro_ecp_lines(ev)
    } else {
        Seq::empty()
    }));
    let mut r = crate::text::join(&lines, "\n");
    crate::text::push_str(&mut r, "\n");
    r
}

} // verus!
