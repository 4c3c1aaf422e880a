//! Conversion of basis sets to the deMon2K format.
//!
//! A basis set is segmented ([`prepare_demon2k`]), its shells put in
//! canonical order (outside this library), and written by
//! [`write_demon2k_sorted`].
use crate::fields::{keys_increasing, BseBasis, BseEcpPotential, BseElectronShell, ElementV, PotentialV, ShellV, elements_view, shells_view, pots_view};
use crate::lut::{am_in_range, amint_to_char_spec, capitalize_spec, core_shells, name_spec, shells_start_spec, sym_spec};
use crate::manip::{general_spec, spdf_spec, prune_list_spec, spdf_ok, prune_list_ok, map_elements, all_shell_lists, same_but_elements};
use crate::misc::{contraction_ok, contraction_spec};
use crate::printing::{write_matrix_ok, write_matrix_spec};
use crate::sort::ecp_order;
use crate::text::{int_text, join_spec, nat_digits};
use crate::writers::g94::{ecp_points, g94_points, has_ecp, max_first_am, pot_matrix, shell_matrix, shell_matrix_ok, upper_str};
use vstd::prelude::*;

verus! {

/* #region preparation */

/// The shells of an element once prepared for deMon2K: fused shells split,
/// general contractions removed, and pruned.
pub open spec fn demon2k_prepared(s: Seq<ShellV>) -> Seq<ShellV> {
    prune_list_spec(general_spec(spdf_spec(s, 0)))
}

/// What preparing the shells of an element for deMon2K needs.
pub open spec fn demon2k_prepare_ok(s: Seq<ShellV>) -> bool {
    spdf_ok(s) && prune_list_ok(general_spec(spdf_spec(s, 0)))
}

/// Prepare a basis set for deMon2K: split fused shells, remove general
/// contractions, and prune.
pub fn prepare_demon2k(basis: &mut BseBasis)
    requires
        all_shell_lists(elements_view(old(basis).elements@), |s: Seq<ShellV>| demon2k_prepare_ok(s)),
    ensures
        same_but_elements(*old(basis), *final(basis)),
        elements_view(final(basis).elements@) == map_elements(
            elements_view(old(basis).elements@),
            |s: Seq<ShellV>| demon2k_prepared(s),
        ),
{
    let ghost e0 = elements_view(basis.elements@);
    assert(all_shell_lists(e0, |s: Seq<ShellV>| spdf_ok(s))) by {
        assert forall|i: int| 0 <= i < e0.len() implies match (#[trigger] e0[i]).1.shells {
            Some(s) => spdf_ok(s),
            None => true,
        } by {
            assert(match e0[i].1.shells { Some(s) => demon2k_prepare_ok(s), None => true });
        }
    }
    crate::manip::uncontract_spdf(basis, 0);
    let ghost e1 = elements_view(basis.elements@);
    crate::manip::uncontract_general(basis);
    let ghost e2 = elements_view(basis.elements@);
    assert(all_shell_lists(e2, |s: Seq<ShellV>| prune_list_ok(s))) by {
        assert forall|i: int| 0 <= i < e2.len() implies match (#[trigger] e2[i]).1.shells {
            Some(s) => prune_list_ok(s),
            None => true,
        } by {
            assert(e2[i] == map_elements(e1, |s: Seq<ShellV>| general_spec(s))[i]);
            assert(e1[i] == map_elements(e0, |s: Seq<ShellV>| spdf_spec(s, 0))[i]);
            assert(match e0[i].1.shells { Some(s) => demon2k_prepare_ok(s), None => true });
        }
    }
    crate::manip::prune_basis(basis);
    assert(elements_view(basis.elements@) =~= map_elements(e0, |s: Seq<ShellV>| demon2k_prepared(s))) by {
        let e3 = elements_view(basis.elements@);
        assert forall|i: int| 0 <= i < e3.len() implies e3[i] == map_elements(e0, |s: Seq<ShellV>| demon2k_prepared(s))[i] by {
            assert(e3[i] == map_elements(e2, |s: Seq<ShellV>| prune_list_spec(s))[i]);
            assert(e2[i] == map_elements(e1, |s: Seq<ShellV>| general_spec(s))[i]);
            assert(e1[i] == map_elements(e0, |s: Seq<ShellV>| spdf_spec(s, 0))[i]);
        }
    }
}

/* #endregion */

/* #region text */

/// The starting principal quantum numbers outside a core of `n` electrons,
/// for angular momenta 0 through 20.
pub open spec fn start_pqns(n: i32) -> Seq<int> {
    shells_start_spec(core_shells(n as int)->0, 20)
}

/// How many of the first `k` shells have angular momentum `a`.
pub open spec fn count_am_before(shells: Seq<ShellV>, k: int, a: i32) -> int
    decreases k,
{
    if k <= 0 {
        0
    } else {
        count_am_before(shells, k - 1, a) + if shells[k - 1].am[0] == a {
            1int
        } else {
            0int
        }
    }
}

/// The principal quantum number of shell `k`.
pub open spec fn pqn_at(n: i32, shells: Seq<ShellV>, k: int) -> int {
    start_pqns(n)[shells[k].am[0] as int] + count_am_before(shells, k, shells[k].am[0])
}

/// The lines of the first `k` shells of an element.
pub open spec fn d2k_shell_lines(n: i32, shells: Seq<ShellV>, k: int) -> Seq<Seq<char>>
    decreases k,
{
    if k <= 0 {
        Seq::empty()
    } else {
        let sh = shells[k - 1];
        d2k_shell_lines(n, shells, k - 1) + seq![
            "    "@ + int_text(pqn_at(n, shells, k - 1)) + "    "@ + int_text(sh.am[0] as int) + "    "@ + nat_digits(
                sh.exponents.len(),
            ),
            write_matrix_spec(shell_matrix(sh), g94_points((sh.coefficients.len() + 1) as int), false),
        ]
    }
}

/// The core electrons of an element, 0 without an ECP.
pub open spec fn core_of(e: ElementV) -> i32 {
    match e.ecp_electrons {
        Some(n) => n,
        None => 0,
    }
}

/// The electron basis lines of the elements.
pub open spec fn d2k_electron_lines(name: Seq<char>, elems: Seq<(i32, ElementV)>) -> Seq<Seq<char>>
    decreases elems.len(),
{
    if elems.len() == 0 {
        Seq::empty()
    } else {
        let prev = d2k_electron_lines(name, elems.drop_last());
        let (z, e) = elems.last();
        match e.shells {
            None => prev,
            Some(shells) => prev + seq![
                "O-"@ + upper_str(name_spec(z as int)) + " "@ + upper_str(capitalize_spec(sym_spec(z as int))) + " ("@
                    + name + ")"@,
                "# "@ + contraction_spec(shells, false, false),
                "    "@ + nat_digits(shells.len()),
            ] + d2k_shell_lines(core_of(e), shells, shells.len() as int),
        }
    }
}

/// The lines of the potentials of an element.
pub open spec fn d2k_pot_lines(sym: Seq<char>, pots: Seq<PotentialV>, max_am: i32) -> Seq<Seq<char>>
    decreases pots.len(),
{
    if pots.len() == 0 {
        Seq::empty()
    } else {
        let p = pots.last();
        d2k_pot_lines(sym, pots.drop_last(), max_am) + seq![
            if p.am[0] == max_am {
                sym + " ul"@
            } else {
                sym + " "@ + upper_str(amint_to_char_spec(p.am, false))
            },
            write_matrix_spec(pot_matrix(p), ecp_points(), false),
        ]
    }
}

/// The ECP lines of the elements.
pub open spec fn d2k_ecp_lines(elems: Seq<(i32, ElementV)>) -> Seq<Seq<char>>
    decreases elems.len(),
{
    if elems.len() == 0 {
        Seq::empty()
    } else {
        let prev = d2k_ecp_lines(elems.drop_last());
        let (z, e) = elems.last();
        match e.potentials {
            None => prev,
            Some(pots) => {
                let sym = capitalize_spec(sym_spec(z as int));
                prev + seq![sym + " nelec "@ + int_text(e.ecp_electrons->0 as int)] + d2k_pot_lines(
                    sym,
                    ecp_order(pots),
                    max_first_am(pots),
                )
            },
        }
    }
}

/// The text of a basis set in the deMon2K format.
pub open spec fn demon2k_text(name: Seq<char>, function_types: Seq<Seq<char>>, elems: Seq<(i32, ElementV)>) -> Seq<char> {
    let lines = seq![
        if function_types.contains("gto_spherical"@) {
            "# This basis set uses spherical components\n"@
        } else {
            "# This basis set uses cartesian components\n"@
        },
    ] + d2k_electron_lines(name, elems) + (if has_ecp(elems) {
        seq!["\n\nECP"@] + d2k_ecp_lines(elems) + seq!["END"@]
    } else {
        Seq::empty()
    });
    join_spec(lines, "\n"@) + "\n"@
}

/// A shell can be written: one angular momentum with a starting principal
/// quantum number, and a matrix that fits its point places.
pub open spec fn d2k_shell_ok(sh: ShellV) -> bool {
    &&& sh.am.len() == 1
    &&& 0 <= sh.am[0] <= 20
    &&& shell_matrix_ok(sh)
}

/// A potential can be written.
pub open spec fn d2k_pot_ok(p: PotentialV) -> bool {
    &&& p.am.len() > 0
    &&& am_in_range(p.am)
    &&& write_matrix_ok(pot_matrix(p), ecp_points())
}

/// What writing a basis set in the deMon2K format needs.
pub open spec fn demon2k_ok(elems: Seq<(i32, ElementV)>) -> bool {
    forall|i: int|
        0 <= i < elems.len() ==> {
            let (z, e) = #[trigger] elems[i];
            &&& (e.shells is Some || e.potentials is Some) ==> 1 <= z <= 118
            &&& e.shells is Some ==> contraction_ok(e.shells->0)
            &&& e.shells is Some ==> 0 <= core_of(e) <= 118 && core_shells(core_of(e) as int) is Some
            &&& e.shells is Some ==> forall|k: int|
                0 <= k < e.shells->0.len() ==> d2k_shell_ok(#[trigger] e.shells->0[k]) && pqn_at(
                    core_of(e),
                    e.shells->0,
                    k,
                ) < i32::MAX
            &&& e.potentials is Some ==> e.ecp_electrons is Some && e.potentials->0.len() > 0
            &&& e.potentials is Some ==> forall|k: int|
                0 <= k < e.potentials->0.len() ==> d2k_pot_ok(#[trigger] e.potentials->0[k])
        }
}

proof fn lemma_d2k_ok_at(elems: Seq<(i32, ElementV)>, i: int)
    requires
        demon2k_ok(elems),
        0 <= i < elems.len(),
    ensures
        (elems[i].1.shells is Some || elems[i].1.potentials is Some) ==> 1 <= elems[i].0 <= 118,
        elems[i].1.shells is Some ==> contraction_ok(elems[i].1.shells->0),
        elems[i].1.shells is Some ==> 0 <= core_of(elems[i].1) <= 118 && core_shells(core_of(elems[i].1) as int) is Some,
        elems[i].1.shells is Some ==> forall|k: int|
            0 <= k < elems[i].1.shells->0.len() ==> d2k_shell_ok(#[trigger] elems[i].1.shells->0[k]) && pqn_at(
                core_of(elems[i].1),
                elems[i].1.shells->0,
                k,
            ) < i32::MAX,
        elems[i].1.potentials is Some ==> elems[i].1.ecp_electrons is Some && elems[i].1.potentials->0.len() > 0,
        elems[i].1.potentials is Some ==> forall|k: int|
            0 <= k < elems[i].1.potentials->0.len() ==> d2k_pot_ok(#[trigger] elems[i].1.potentials->0[k]),
{
    let (z, e) = elems[i];
}

proof fn lemma_count_am_before_nonneg(shells: Seq<ShellV>, k: int, a: i32)
    ensures
        count_am_before(shells, k, a) >= 0,
    decreases k,
{
    if k > 0 {
        lemma_count_am_before_nonneg(shells, k - 1, a);
    }
}

fn d2k_shells_exec(lines: &mut Vec<String>, n: i32, shells: &Vec<BseElectronShell>)
    requires
        0 <= n <= 118,
        core_shells(n as int) is Some,
        forall|k: int|
            0 <= k < shells@.len() ==> d2k_shell_ok(#[trigger] shells_view(shells@)[k]) && pqn_at(
                n,
                shells_view(shells@),
                k,
            ) < i32::MAX,
    ensures
        final(lines).deep_view() == old(lines).deep_view() + d2k_shell_lines(n, shells_view(shells@), shells@.len() as int),
{
    let ghost start = lines.deep_view();
    let ghost sv = shells_view(shells@);
    let mut st = crate::lut::electron_shells_start(n, 20);
    let ghost st0 = start_pqns(n);
    assert(Seq::new(st@.len(), |i: int| st@[i] as int) == st0);
    assert(st0.len() == 21);
    let mut k: usize = 0;
    while k < shells.len()
        invariant
            k <= shells@.len(),
            sv == shells_view(shells@),
            st0 == start_pqns(n),
            st0.len() == 21,
            st@.len() == 21,
            forall|j: int|
                0 <= j < shells@.len() ==> d2k_shell_ok(#[trigger] sv[j]) && pqn_at(n, sv, j) < i32::MAX,
            forall|a: int| 0 <= a < 21 ==> #[trigger] st@[a] as int == st0[a] + count_am_before(sv, k as int, a as i32),
            lines.deep_view() == start + d2k_shell_lines(n, sv, k as int),
        decreases shells.len() - k,
    {
        let sh = &shells[k];
        assert(sv[k as int] == sh@);
        assert(d2k_shell_ok(sv[k as int]));
        let am = sh.angular_momentum[0];
        let ai = am as usize;
        let pqn = st[ai];
        assert(pqn as int == pqn_at(n, sv, k as int));
        proof {
            lemma_count_am_before_nonneg(sv, k as int, am);
        }
        let mut l = "    ".to_owned();
        let t = crate::text::i32_text(pqn);
        crate::text::push_str(&mut l, t.as_str());
        crate::text::push_str(&mut l, "    ");
        let t2 = crate::text::i32_text(am);
        crate::text::push_str(&mut l, t2.as_str());
        crate::text::push_str(&mut l, "    ");
        let t3 = crate::text::usize_text(sh.exponents.len());
        crate::text::push_str(&mut l, t3.as_str());
        crate::writers::g94::push_line(lines, l);
        let m = crate::writers::g94::shell_matrix_text(sh, false);
        crate::writers::g94::push_line(lines, m);
        assert(lines.deep_view() =~= start + d2k_shell_lines(n, sv, k + 1));
        let ghost old_st = st@;
        st.set(ai, pqn + 1);
        proof {
            assert forall|a: int| 0 <= a < 21 implies #[trigger] st@[a] as int == st0[a] + count_am_before(
                sv,
                k + 1,
                a as i32,
            ) by {
                assert(count_am_before(sv, k + 1, a as i32) == count_am_before(sv, k as int, a as i32) + if sv[k as int].am[0]
                    == a as i32 {
                    1int
                } else {
                    0int
                });
                if a != ai as int {
                    assert(st@[a] == old_st[a]);
                }
            }
        }
        k = k + 1;
    }
}

fn d2k_pots_exec(lines: &mut Vec<String>, sym: &String, pots: &Vec<BseEcpPotential>, max_am: i32)
    requires
        forall|k: int| 0 <= k < pots@.len() ==> d2k_pot_ok(#[trigger] pots@[k]@),
    ensures
        final(lines).deep_view() == old(lines).deep_view() + d2k_pot_lines(sym@, pots_view(pots@), max_am),
{
    let ghost start = lines.deep_view();
    let ghost pv = pots_view(pots@);
    let mut i: usize = 0;
    while i < pots.len()
        invariant
            i <= pots@.len(),
            pv == pots_view(pots@),
            forall|k: int| 0 <= k < pots@.len() ==> d2k_pot_ok(#[trigger] pots@[k]@),
            lines.deep_view() == start + d2k_pot_lines(sym@, pv.take(i as int), max_am),
        decreases pots.len() - i,
    {
        let p = &pots[i];
        assert(pv[i as int] == p@);
        assert(d2k_pot_ok(p@));
        assert(pv.take(i + 1).drop_last() =~= pv.take(i as int));
        assert(pv.take(i + 1).last() == p@);
        let mut l = sym.clone();
        if p.angular_momentum[0] == max_am {
            crate::text::push_str(&mut l, " ul");
        } else {
            crate::text::push_str(&mut l, " ");
            let c = crate::lut::amint_to_char(p.angular_momentum.as_slice(), false);
            let u = crate::writers::g94::upper(c.as_str());
            crate::text::push_str(&mut l, u.as_str());
        }
        crate::writers::g94::push_line(lines, l);
        let mat = crate::writers::g94::pot_matrix_exec(p);
        let pp: Vec<usize> = vec![0, 9, 32];
        assert(pp@ =~= ecp_points());
        let m = crate::printing::write_matrix(mat.as_slice(), pp.as_slice(), false);
        crate::writers::g94::push_line(lines, m);
        assert(lines.deep_view() =~= start + d2k_pot_lines(sym@, pv.take(i + 1), max_am));
        i = i + 1;
    }
    assert(pv.take(pots@.len() as int) =~= pv);
}

fn d2k_ecp_element(lines: &mut Vec<String>, z: i32, pots: &Vec<BseEcpPotential>, ecp_electrons: i32)
    requires
        1 <= z <= 118,
        pots@.len() > 0,
        forall|k: int| 0 <= k < pots@.len() ==> d2k_pot_ok(#[trigger] pots_view(pots@)[k]),
    ensures
        ({
            let pv = pots_view(pots@);
            let sym = capitalize_spec(sym_spec(z as int));
            final(lines).deep_view() == old(lines).deep_view() + seq![sym + " nelec "@ + int_text(ecp_electrons as int)]
                + d2k_pot_lines(sym, ecp_order(pv), max_first_am(pv))
        }),
{
    let ghost pv = pots_view(pots@);
    proof {
        assert forall|k: int| 0 <= k < pots@.len() implies (#[trigger] pots@[k]).angular_momentum@.len() > 0 by {
            assert(pv[k] == pots@[k]@);
            assert(d2k_pot_ok(pv[k]));
        }
    }
    let (max_am, sorted) = crate::writers::g94::ordered_pots(pots);
    proof {
        assert forall|k: int| 0 <= k < sorted@.len() implies d2k_pot_ok(#[trigger] sorted@[k]@) by {
            assert(pv.contains(sorted@[k]@));
            let j = choose|j: int| 0 <= j < pv.len() && pv[j] == sorted@[k]@;
            assert(d2k_pot_ok(pv[j]));
        }
    }
    let sym = match crate::lut::element_sym_from_Z_with_normalize(z) {
        Some(t) => t,
        None => String::new(),
    };
    let mut l = sym.clone();
    crate::text::push_str(&mut l, " nelec ");
    let t = crate::text::i32_text(ecp_electrons);
    crate::text::push_str(&mut l, t.as_str());
    crate::writers::g94::push_line(lines, l);
    d2k_pots_exec(lines, &sym, &sorted, max_am);
}

/// Write a basis set, prepared and with its shells in canonical order, in
/// the deMon2K format: a comment on the harmonic type, then for each
/// element its shells with their principal quantum numbers (counted from
/// the first shell outside the ECP core), then the potentials.
#[verifier::rlimit(40)]
pub fn write_demon2k_sorted(basis: &BseBasis) -> (r: String)
    requires
        keys_increasing(basis.elements@),
        demon2k_ok(elements_view(basis.elements@)),
    ensures
        r@ == demon2k_text(basis.name@, basis.function_types.deep_view(), elements_view(basis.elements@)),
{
    let ghost ev = elements_view(basis.elements@);
    let mut lines: Vec<String> = Vec::new();
    let sph = crate::text::chars_of("gto_spherical");
    let first = if crate::formats::strings_contain(&basis.function_types, sph.as_slice()) {
        "# This basis set uses spherical components\n".to_owned()
    } else {
        "# This basis set uses cartesian components\n".to_owned()
    };
    crate::writers::g94::push_line(&mut lines, first);
    let ghost base = lines.deep_view();
    let mut i: usize = 0;
    while i < basis.elements.len()
        invariant
            i <= basis.elements@.len(),
            ev == elements_view(basis.elements@),
            demon2k_ok(ev),
            lines.deep_view() == base + d2k_electron_lines(basis.name@, ev.take(i as int)),
        decreases basis.elements.len() - i,
    {
        proof {
            lemma_d2k_ok_at(ev, i as int);
        }
        assert(ev.take(i + 1).drop_last() =~= ev.take(i as int));
        assert(ev.take(i + 1).last() == ev[i as int]);
        let z = basis.elements[i].0;
        let el = &basis.elements[i].1;
        assert(ev[i as int] == (z, el@));
        match &el.electron_shells {
            None => {},
            Some(shells) => {
                assert(el@.shells == Some(shells_view(shells@)));
                assert(ev[i as int].1.shells->0 == shells_view(shells@));
                let name = match crate::lut::element_name_from_Z(z) {
                    Some(t) => t,
                    None => "",
                };
                let sym = match crate::lut::element_sym_from_Z_with_normalize(z) {
                    Some(t) => t,
                    None => String::new(),
                };
                let mut l1 = "O-".to_owned();
                let un = crate::writers::g94::upper(name);
                crate::text::push_str(&mut l1, un.as_str());
                crate::text::push_str(&mut l1, " ");
                let us = crate::writers::g94::upper(sym.as_str());
                crate::text::push_str(&mut l1, us.as_str());
                crate::text::push_str(&mut l1, " (");
                crate::text::push_str(&mut l1, basis.name.as_str());
                crate::text::push_str(&mut l1, ")");
                crate::writers::g94::push_line(&mut lines, l1);
                let mut l2 = "# ".to_owned();
                let c = crate::misc::contraction_string(shells.as_slice(), false, false);
                crate::text::push_str(&mut l2, c.as_str());
                crate::writers::g94::push_line(&mut lines, l2);
                let mut l3 = "    ".to_owned();
                let t = crate::text::usize_text(shells.len());
                crate::text::push_str(&mut l3, t.as_str());
                crate::writers::g94::push_line(&mut lines, l3);
                let n = match el.ecp_electrons {
                    Some(n) => n,
                    None => 0,
                };
                assert(n == core_of(el@));
                d2k_shells_exec(&mut lines, n, shells);
            },
        }
        assert(lines.deep_view() =~= base + d2k_electron_lines(basis.name@, ev.take(i + 1)));
        i = i + 1;
    }
    assert(ev.take(basis.elements.len() as int) =~= ev);
    let mut any_ecp = false;
    let mut i: usize = 0;
    while i < basis.elements.len()
        invariant
            i <= basis.elements@.len(),
            ev == elements_view(basis.elements@),
            any_ecp <==> exists|k: int| 0 <= k < i && (#[trigger] ev[k]).1.potentials is Some,
        decreases basis.elements.len() - i,
    {
        assert(ev[i as int].1 == basis.elements@[i as int].1@);
        if basis.elements[i].1.ecp_potentials.is_some() {
            any_ecp = true;
        }
        i = i + 1;
    }
    assert(any_ecp == has_ecp(ev));
    if any_ecp {
        crate::writers::g94::push_line(&mut lines, "\n\nECP".to_owned());
        let ghost base2 = lines.deep_view();
        let mut i: usize = 0;
        while i < basis.elements.len()
            invariant
                i <= basis.elements@.len(),
                ev == elements_view(basis.elements@),
                demon2k_ok(ev),
                lines.deep_view() == base2 + d2k_ecp_lines(ev.take(i as int)),
            decreases basis.elements.len() - i,
        {
            proof {
                lemma_d2k_ok_at(ev, i as int);
            }
            assert(ev.take(i + 1).drop_last() =~= ev.take(i as int));
            assert(ev.take(i + 1).last() == ev[i as int]);
            let z = basis.elements[i].0;
            let el = &basis.elements[i].1;
            assert(ev[i as int] == (z, el@));
            match &el.ecp_potentials {
                None => {},
                Some(pots) => {
                    assert(el@.potentials == Some(pots_view(pots@)));
                    assert(ev[i as int].1.potentials->0 == pots_view(pots@));
                    let ne = match el.ecp_electrons {
                        Some(n) => n,
                        None => 0,
                    };
                    d2k_ecp_element(&mut lines, z, pots, ne);
                },
            }
            assert(lines.deep_view() =~= base2 + d2k_ecp_lines(ev.take(i + 1)));
            i = i + 1;
        }
        assert(ev.take(basis.elements.len() as int) =~= ev);
        crate::writers::g94::push_line(&mut lines, "END".to_owned());
    }
    assert(lines.deep_view() =~= seq![
        if basis.function_types.deep_view().contains("gto_spherical"@) {
            "# This basis set uses spherical components\n"@
        } else {
            "# This basis set uses cartesian components\n"@
        },
    ] + d2k_electron_lines(basis.name@, ev) + (if has_ecp(ev) {
        seq!["\n\nECP"@] + d2k_ecp_lines(ev) + seq!["END"@]
    } else {
        Seq::empty()
    }));
    let mut r = crate::text::join(&lines, "\n");
    crate::text::push_str(&mut r, "\n");
    r
}

/* #endregion */

} // verus!
