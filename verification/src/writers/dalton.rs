//! Conversion of basis sets to the Dalton format.
//!
//! A basis set is made as generally contracted as possible and pruned
//! ([`prepare_general`](crate::writers::libmol::prepare_general)), its shells
//! put in canonical order (outside this library), and written by
//! [`write_dalton_sorted`].
use crate::fields::{keys_increasing, BseBasis, BseEcpPotential, BseElectronShell, ElementV, PotentialV, ShellV, elements_view, shells_view, pots_view};
use crate::lut::{am_in_range, amint_to_char_spec, name_spec};
use crate::misc::{contraction_ok, contraction_spec};
use crate::printing::{write_matrix_ok, write_matrix_spec};
use crate::sort::ecp_order;
use crate::text::{int_text, join_spec, nat_digits};
use crate::writers::g94::{ecp_points, g94_points, has_ecp, max_first_am, pot_matrix, right_aligned, shell_matrix, shell_matrix_ok, upper_str};
use vstd::prelude::*;

verus! {

/// The lines of the shells of an element.
pub open spec fn dalton_shell_lines(shells: Seq<ShellV>) -> Seq<Seq<char>>
    decreases shells.len(),
{
    if shells.len() == 0 {
        Seq::empty()
    } else {
        let sh = shells.last();
        dalton_shell_lines(shells.drop_last()) + seq![
            "! "@ + amint_to_char_spec(sh.am, true) + " functions"@,
            "H    "@ + nat_digits(sh.exponents.len()) + "    "@ + nat_digits(sh.coefficients.len()),
            write_matrix_spec(shell_matrix(sh), g94_points((sh.coefficients.len() + 1) as int), false),
        ]
    }
}

/// The electron basis lines of the elements.
pub open spec fn dalton_electron_lines(elems: Seq<(i32, ElementV)>) -> Seq<Seq<char>>
    decreases elems.len(),
{
    if elems.len() == 0 {
        Seq::empty()
    } else {
        let prev = dalton_electron_lines(elems.drop_last());
        let (z, e) = elems.last();
        match e.shells {
            None => prev,
            Some(shells) => prev + seq![
                "a "@ + int_text(z as int),
                "! "@ + upper_str(name_spec(z as int)) + "       "@ + contraction_spec(shells, true, false),
            ] + dalton_shell_lines(shells),
        }
    }
}

/// The lines of the potentials of an element.
pub open spec fn dalton_pot_lines(pots: Seq<PotentialV>) -> Seq<Seq<char>>
    decreases pots.len(),
{
    if pots.len() == 0 {
        Seq::empty()
    } else {
        let p = pots.last();
        dalton_pot_lines(pots.drop_last()) + seq![
            right_aligned(nat_digits(p.r_exponents.len()), 12),
            write_matrix_spec(pot_matrix(p), ecp_points(), false),
        ]
    }
}

/// The ECP lines of the elements.
pub open spec fn dalton_ecp_lines(elems: Seq<(i32, ElementV)>) -> Seq<Seq<char>>
    decreases elems.len(),
{
    if elems.len() == 0 {
        Seq::empty()
    } else {
        let prev = dalton_ecp_lines(elems.drop_last());
        let (z, e) = elems.last();
        match e.potentials {
            None => prev,
            Some(pots) => prev + seq![
                "a "@ + right_aligned(int_text(z as int), 3) + "\n$"@,
                right_aligned(int_text(max_first_am(pots) as int), 4) + right_aligned(
                    int_text(e.ecp_electrons->0 as int),
                    4,
                ),
            ] + dalton_pot_lines(ecp_order(pots)) + seq!["$"@],
        }
    }
}

/// The text of a basis set in the Dalton format.
pub open spec fn dalton_text(name: Seq<char>, elems: Seq<(i32, ElementV)>) -> Seq<char> {
    let lines = seq!["! Basis = "@ + name + "\n"@] + dalton_electron_lines(elems) + (if has_ecp(elems) {
        seq!["\n\nECP"@] + dalton_ecp_lines(elems) + seq!["$ END OF ECP"@]
    } else {
        Seq::empty()
    });
    join_spec(lines, "\n"@) + "\n"@
}

/// A potential can be written.
pub open spec fn dalton_pot_ok(p: PotentialV) -> bool {
    &&& p.am.len() > 0
    &&& write_matrix_ok(pot_matrix(p), ecp_points())
}

/// What writing a basis set in the Dalton format needs.
pub open spec fn dalton_ok(elems: Seq<(i32, ElementV)>) -> bool {
    forall|i: int|
        0 <= i < elems.len() ==> {
            let (z, e) = #[trigger] elems[i];
            &&& e.shells is Some ==> 1 <= z <= 118 && contraction_ok(e.shells->0)
            &&& e.shells is Some ==> forall|k: int|
                0 <= k < e.shells->0.len() ==> am_in_range((#[trigger] e.shells->0[k]).am) && shell_matrix_ok(
                    e.shells->0[k],
                )
            &&& e.potentials is Some ==> e.ecp_electrons is Some && e.potentials->0.len() > 0
            &&& e.potentials is Some ==> forall|k: int|
                0 <= k < e.potentials->0.len() ==> dalton_pot_ok(#[trigger] e.potentials->0[k])
        }
}

proof fn lemma_dalton_ok_at(elems: Seq<(i32, ElementV)>, i: int)
    requires
        dalton_ok(elems),
        0 <= i < elems.len(),
    ensures
        elems[i].1.shells is Some ==> 1 <= elems[i].0 <= 118 && contraction_ok(elems[i].1.shells->0),
        elems[i].1.shells is Some ==> forall|k: int|
            0 <= k < elems[i].1.shells->0.len() ==> am_in_range((#[trigger] elems[i].1.shells->0[k]).am)
                && shell_matrix_ok(elems[i].1.shells->0[k]),
        elems[i].1.potentials is Some ==> elems[i].1.ecp_electrons is Some && elems[i].1.potentials->0.len() > 0,
        elems[i].1.potentials is Some ==> forall|k: int|
            0 <= k < elems[i].1.potentials->0.len() ==> dalton_pot_ok(#[trigger] elems[i].1.potentials->0[k]),
{
    let (z, e) = elems[i];
}

fn dalton_shells_exec(lines: &mut Vec<String>, shells: &Vec<BseElectronShell>)
    requires
        forall|k: int|
            0 <= k < shells@.len() ==> am_in_range((#[trigger] shells_view(shells@)[k]).am) && shell_matrix_ok(
                shells_view(shells@)[k],
            ),
    ensures
        final(lines).deep_view() == old(lines).deep_view() + dalton_shell_lines(shells_view(shells@)),
{
    let ghost start = lines.deep_view();
    let ghost sv = shells_view(shells@);
    let mut i: usize = 0;
    while i < shells.len()
        invariant
            i <= shells@.len(),
            sv == shells_view(shells@),
            forall|k: int| 0 <= k < sv.len() ==> am_in_range((#[trigger] sv[k]).am) && shell_matrix_ok(sv[k]),
            lines.deep_view() == start + dalton_shell_lines(sv.take(i as int)),
        decreases shells.len() - i,
    {
        let sh = &shells[i];
        assert(sv[i as int] == sh@);
        assert(am_in_range(sv[i as int].am) && shell_matrix_ok(sv[i as int]));
        assert(sv.take(i + 1).drop_last() =~= sv.take(i as int));
        assert(sv.take(i + 1).last() == sh@);
        let mut l1 = "! ".to_owned();
        let c = crate::lut::amint_to_char(sh.angular_momentum.as_slice(), true);
        crate::text::push_str(&mut l1, c.as_str());
        crate::text::push_str(&mut l1, " functions");
        crate::writers::g94::push_line(lines, l1);
        let mut l2 = "H    ".to_owned();
        let t = crate::text::usize_text(sh.exponents.len());
        crate::text::push_str(&mut l2, t.as_str());
        crate::text::push_str(&mut l2, "    ");
        let t2 = crate::text::usize_text(sh.coefficients.len());
        crate::text::push_str(&mut l2, t2.as_str());
        crate::writers::g94::push_line(lines, l2);
        let m = crate::writers::g94::shell_matrix_text(sh, false);
        crate::writers::g94::push_line(lines, m);
        assert(lines.deep_view() =~= start + dalton_shell_lines(sv.take(i + 1)));
        i = i + 1;
    }
    assert(sv.take(shells@.len() as int) =~= sv);
}

fn dalton_pots_exec(lines: &mut Vec<String>, pots: &Vec<BseEcpPotential>)
    requires
        forall|k: int| 0 <= k < pots@.len() ==> dalton_pot_ok(#[trigger] pots@[k]@),
    ensures
        final(lines).deep_view() == old(lines).deep_view() + dalton_pot_lines(pots_view(pots@)),
{
    let ghost start = lines.deep_view();
    let ghost pv = pots_view(pots@);
    let mut i: usize = 0;
    while i < pots.len()
        invariant
            i <= pots@.len(),
            pv == pots_view(pots@),
            forall|k: int| 0 <= k < pots@.len() ==> dalton_pot_ok(#[trigger] pots@[k]@),
            lines.deep_view() == start + dalton_pot_lines(pv.take(i as int)),
        decreases pots.len() - i,
    {
        let p = &pots[i];
        assert(pv[i as int] == p@);
        assert(dalton_pot_ok(p@));
        assert(pv.take(i + 1).drop_last() =~= pv.take(i as int));
        assert(pv.take(i + 1).last() == p@);
        let t = crate::text::usize_text(p.r_exponents.len());
        let l1 = crate::writers::g94::pad_left(t.as_str(), 12);
        crate::writers::g94::push_line(lines, l1);
        let mat = crate::writers::g94::pot_matrix_exec(p);
        let pp: Vec<usize> = vec![0, 9, 32];
        assert(pp@ =~= ecp_points());
        let m = crate::printing::write_matrix(mat.as_slice(), pp.as_slice(), false);
        crate::writers::g94::push_line(lines, m);
        assert(lines.deep_view() =~= start + dalton_pot_lines(pv.take(i + 1)));
        i = i + 1;
    }
    assert(pv.take(pots@.len() as int) =~= pv);
}

fn dalton_ecp_element(lines: &mut Vec<String>, z: i32, pots: &Vec<BseEcpPotential>, ecp_electrons: i32)
    requires
        pots@.len() > 0,
        forall|k: int| 0 <= k < pots@.len() ==> dalton_pot_ok(#[trigger] pots_view(pots@)[k]),
    ensures
        ({
            let pv = pots_view(pots@);
            final(lines).deep_view() == old(lines).deep_view() + seq![
                "a "@ + right_aligned(int_text(z as int), 3) + "\n$"@,
                right_aligned(int_text(max_first_am(pv) as int), 4) + right_aligned(int_text(ecp_electrons as int), 4),
            ] + dalton_pot_lines(ecp_order(pv)) + seq!["$"@]
        }),
{
    let ghost start = lines.deep_view();
    let ghost pv = pots_view(pots@);
    proof {
        assert forall|k: int| 0 <= k < pots@.len() implies (#[trigger] pots@[k]).angular_momentum@.len() > 0 by {
            assert(pv[k] == pots@[k]@);
            assert(dalton_pot_ok(pv[k]));
        }
    }
    let (max_am, sorted) = crate::writers::g94::ordered_pots(pots);
    proof {
        assert forall|k: int| 0 <= k < sorted@.len() implies dalton_pot_ok(#[trigger] sorted@[k]@) by {
            assert(pv.contains(sorted@[k]@));
            let j = choose|j: int| 0 <= j < pv.len() && pv[j] == sorted@[k]@;
            assert(dalton_pot_ok(pv[j]));
        }
    }
    let mut l1 = "a ".to_owned();
    let zt = crate::text::i32_text(z);
    let zp = crate::writers::g94::pad_left(zt.as_str(), 3);
    crate::text::push_str(&mut l1, zp.as_str());
    crate::text::push_str(&mut l1, "\n$");
    crate::writers::g94::push_line(lines, l1);
    let mt = crate::text::i32_text(max_am);
    let mut l2 = crate::writers::g94::pad_left(mt.as_str(), 4);
    let nt = crate::text::i32_text(ecp_electrons);
    let np = crate::writers::g94::pad_left(nt.as_str(), 4);
    crate::text::push_str(&mut l2, np.as_str());
    crate::writers::g94::push_line(lines, l2);
    dalton_pots_exec(lines, &sorted);
    crate::writers::g94::push_line(lines, "$".to_owned());
}

/// Write a basis set, prepared and with its shells in canonical order, in
/// the Dalton format: a comment with its name, the shells of each element,
/// then the potentials of each element.
#[verifier::rlimit(40)]
pub fn write_dalton_sorted(basis: &BseBasis) -> (r: String)
    requires
        keys_increasing(basis.elements@),
        dalton_ok(elements_view(basis.elements@)),
    ensures
        r@ == dalton_text(basis.name@, elements_view(basis.elements@)),
{
    let ghost ev = elements_view(basis.elements@);
    let mut lines: Vec<String> = Vec::new();
    let mut first = "! Basis = ".to_owned();
    crate::text::push_str(&mut first, basis.name.as_str());
    crate::text::push_str(&mut first, "\n");
    crate::writers::g94::push_line(&mut lines, first);
    let ghost base = lines.deep_view();
    let mut i: usize = 0;
    while i < basis.elements.len()
        invariant
            i <= basis.elements@.len(),
            ev == elements_view(basis.elements@),
            dalton_ok(ev),
            lines.deep_view() == base + dalton_electron_lines(ev.take(i as int)),
        decreases basis.elements.len() - i,
    {
        proof {
            lemma_dalton_ok_at(ev, i as int);
        }
        assert(ev.take(i + 1).drop_last() =~= ev.take(i as int));
        assert(ev.take(i + 1).last() == ev[i as int]);
        let z = basis.elements[i].0;
        let el = &basis.elements[i].1;
        assert(ev[i as int] == (z, el@));
        match &el.electron_shells {
            None => {},
            Some(shells) => {
                assert(el@.shells == Some(shells_view(shells@)));
                assert(ev[i as int].1.shells->0 == shells_view(shells@));
                let mut l1 = "a ".to_owned();
                let zt = crate::text::i32_text(z);
                crate::text::push_str(&mut l1, zt.as_str());
                crate::writers::g94::push_line(&mut lines, l1);
                let name = match crate::lut::element_name_from_Z(z) {
                    Some(t) => t,
                    None => "",
                };
                let mut l2 = "! ".to_owned();
                let un = crate::writers::g94::upper(name);
                crate::text::push_str(&mut l2, un.as_str());
                crate::text::push_str(&mut l2, "       ");
                let c = crate::misc::contraction_string(shells.as_slice(), true, false);
                crate::text::push_str(&mut l2, c.as_str());
                crate::writers::g94::push_line(&mut lines, l2);
                dalton_shells_exec(&mut lines, shells);
            },
        }
        assert(lines.deep_view() =~= base + dalton_electron_lines(ev.take(i + 1)));
        i = i + 1;
    }
    assert(ev.take(basis.elements.len() as int) =~= ev);
    let mut any_ecp = false;
    let mut i: usize = 0;
    while i < basis.elements.len()
        invariant
            i <= basis.elements@.len(),
            ev == elements_view(basis.elements@),
            any_ecp <==> exists|k: int| 0 <= k < i && (#[trigger] ev[k]).1.potentials is Some,
        decreases basis.elements.len() - i,
    {
        assert(ev[i as int].1 == basis.elements@[i as int].1@);
        if basis.elements[i].1.ecp_potentials.is_some() {
            any_ecp = true;
        }
        i = i + 1;
    }
    assert(any_ecp == has_ecp(ev));
    if any_ecp {
        crate::writers::g94::push_line(&mut lines, "\n\nECP".to_owned());
        let ghost base2 = lines.deep_view();
        let mut i: usize = 0;
        while i < basis.elements.len()
            invariant
                i <= basis.elements@.len(),
                ev == elements_view(basis.elements@),
                dalton_ok(ev),
                lines.deep_view() == base2 + dalton_ecp_lines(ev.take(i as int)),
            decreases basis.elements.len() - i,
        {
            proof {
                lemma_dalton_ok_at(ev, i as int);
            }
            assert(ev.take(i + 1).drop_last() =~= ev.take(i as int));
            assert(ev.take(i + 1).last() == ev[i as int]);
            let z = basis.elements[i].0;
            let el = &basis.elements[i].1;
            assert(ev[i as int] == (z, el@));
            match &el.ecp_potentials {
                None => {},
                Some(pots) => {
                    assert(el@.potentials == Some(pots_view(pots@)));
                    assert(ev[i as int].1.potentials->0 == pots_view(pots@));
                    let ne = match el.ecp_electrons {
                        Some(n) => n,
                        None => 0,
                    };
                    dalton_ecp_element(&mut lines, z, pots, ne);
                },
            }
            assert(lines.deep_view() =~= base2 + dalton_ecp_lines(ev.take(i + 1)));
            i = i + 1;
        }
        assert(ev.take(basis.elements.len() as int) =~= ev);
        crate::writers::g94::push_line(&mut lines, "$ END OF ECP".to_owned());
    }
    assert(lines.deep_view() =~= seq!["! Basis = "@ + basis.name@ + "\n"@] + dalton_electron_lines(ev) + (if has_ecp(
        ev,
    ) {
        seq!["\n\nECP"@] + dalton_ecp_lines(ev) + seq!["$ END OF ECP"@]
    } else {
        Seq::empty()
    }));
    let mut r = crate::text::join(&lines, "\n");
    crate::text::push_str(&mut r, "\n");
    r
}

} // verus!
