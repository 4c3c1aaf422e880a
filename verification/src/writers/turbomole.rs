//! Conversion of basis sets to the Turbomole format.
//!
//! Turbomole basis sets are completely segmented: a basis set is prepared
//! with [`prepare_segmented`](crate::writers::g94::prepare_segmented) and 0,
//! its shells put in canonical order (outside this library), and written by
//! [`write_turbomole_sorted`].
use crate::fields::{keys_increasing, BseBasis, BseEcpPotential, BseElectronShell, ElementV, PotentialV, ShellV, elements_view, shells_view, pots_view};
use crate::lut::{am_in_range, amint_to_char_spec, sym_spec};
use crate::printing::{write_matrix_ok, write_matrix_spec};
use crate::sort::ecp_order;
use crate::text::{int_text, join_spec, nat_digits};
use crate::writers::g94::{g94_points, has_ecp, max_first_am, r_exponent_texts, shell_matrix, shell_matrix_ok};
use vstd::prelude::*;

verus! {

/// The keyword that opens a basis set of a role.
pub open spec fn role_keyword(role: Seq<char>) -> Seq<char> {
    if role == "jfit"@ {
        "$jbas"@
    } else if role == "jkfit"@ {
        "$jkbas"@
    } else if role == "rifit"@ {
        "$cbas"@
    } else {
        "$basis"@
    }
}

/// The lines of the shells of an element.
pub open spec fn tm_shell_lines(shells: Seq<ShellV>) -> Seq<Seq<char>>
    decreases shells.len(),
{
    if shells.len() == 0 {
        Seq::empty()
    } else {
        let sh = shells.last();
        tm_shell_lines(shells.drop_last()) + seq![
            "    "@ + nat_digits(sh.exponents.len()) + "   "@ + amint_to_char_spec(sh.am, true),
            write_matrix_spec(shell_matrix(sh), g94_points((sh.coefficients.len() + 1) as int), true),
        ]
    }
}

/// The electron basis lines of the elements.
pub open spec fn tm_electron_lines(name: Seq<char>, elems: Seq<(i32, ElementV)>) -> Seq<Seq<char>>
    decreases elems.len(),
{
    if elems.len() == 0 {
        Seq::empty()
    } else {
        let prev = tm_electron_lines(name, elems.drop_last());
        let (z, e) = elems.last();
        match e.shells {
            None => prev,
            Some(shells) => prev + seq![sym_spec(z as int) + " "@ + name, "*"@] + tm_shell_lines(shells) + seq!["*"@],
        }
    }
}

/// The matrix of a potential: each contraction, then powers of r and
/// exponents.
pub open spec fn tm_pot_matrix(p: PotentialV) -> Seq<Seq<Seq<char>>> {
    p.coefficients + seq![r_exponent_texts(p), p.gaussian_exponents]
}

/// The decimal point places of a potential's matrix.
pub open spec fn tm_pot_points() -> Seq<usize> {
    seq![9usize, 23usize, 32usize]
}

/// The lines of the potentials of an element.
pub open spec fn tm_pot_lines(pots: Seq<PotentialV>, max_am: i32) -> Seq<Seq<char>>
    decreases pots.len(),
{
    if pots.len() == 0 {
        Seq::empty()
    } else {
        let p = pots.last();
        let amchar = amint_to_char_spec(p.am, true);
        tm_pot_lines(pots.drop_last(), max_am) + seq![
            if p.am[0] == max_am {
                amchar
            } else {
                amchar + "-"@ + amint_to_char_spec(seq![max_am], true)
            },
            write_matrix_spec(tm_pot_matrix(p), tm_pot_points(), true),
        ]
    }
}

/// The ECP lines of the elements.
pub open spec fn tm_ecp_lines(name: Seq<char>, elems: Seq<(i32, ElementV)>) -> Seq<Seq<char>>
    decreases elems.len(),
{
    if elems.len() == 0 {
        Seq::empty()
    } else {
        let prev = tm_ecp_lines(name, elems.drop_last());
        let (z, e) = elems.last();
        match e.potentials {
            None => prev,
            Some(pots) => {
                let max_am = max_first_am(pots);
                prev + seq![
                    sym_spec(z as int) + " "@ + name + "-ecp"@,
                    "*"@,
                    "  ncore = "@ + int_text(e.ecp_electrons->0 as int) + "   lmax = "@ + int_text(max_am as int),
                ] + tm_pot_lines(ecp_order(pots), max_am) + seq!["*"@]
            },
        }
    }
}

/// The text of a basis set in the Turbomole format.
pub open spec fn turbomole_text(name: Seq<char>, role: Seq<char>, elems: Seq<(i32, ElementV)>) -> Seq<char> {
    let lines = seq![role_keyword(role), "*"@] + tm_electron_lines(name, elems) + (if has_ecp(elems) {
        seq!["$ecp"@, "*"@] + tm_ecp_lines(name, elems)
    } else {
        Seq::empty()
    }) + seq!["$end"@];
    join_spec(lines, "\n"@) + "\n"@
}

/// A potential can be written.
pub open spec fn tm_pot_ok(p: PotentialV) -> bool {
    &&& p.am.len() > 0
    &&& am_in_range(p.am)
    &&& write_matrix_ok(tm_pot_matrix(p), tm_pot_points())
}

/// What writing a basis set in the Turbomole format needs.
pub open spec fn turbomole_ok(elems: Seq<(i32, ElementV)>) -> bool {
    forall|i: int|
        0 <= i < elems.len() ==> {
            let (z, e) = #[trigger] elems[i];
            &&& (e.shells is Some || e.potentials is Some) ==> 1 <= z <= 118
            &&& e.shells is Some ==> forall|k: int|
                0 <= k < e.shells->0.len() ==> am_in_range((#[trigger] e.shells->0[k]).am) && shell_matrix_ok(
                    e.shells->0[k],
                )
            &&& e.potentials is Some ==> e.ecp_electrons is Some && e.potentials->0.len() > 0
            &&& e.potentials is Some ==> forall|k: int|
                0 <= k < e.potentials->0.len() ==> tm_pot_ok(#[trigger] e.potentials->0[k])
        }
}

proof fn lemma_turbomole_ok_at(elems: Seq<(i32, ElementV)>, i: int)
    requires
        turbomole_ok(elems),
        0 <= i < elems.len(),
    ensures
        (elems[i].1.shells is Some || elems[i].1.potentials is Some) ==> 1 <= elems[i].0 <= 118,
        elems[i].1.shells is Some ==> forall|k: int|
            0 <= k < elems[i].1.shells->0.len() ==> am_in_range((#[trigger] elems[i].1.shells->0[k]).am)
                && shell_matrix_ok(elems[i].1.shells->0[k]),
        elems[i].1.potentials is Some ==> elems[i].1.ecp_electrons is Some && elems[i].1.potentials->0.len() > 0,
        elems[i].1.potentials is Some ==> forall|k: int|
            0 <= k < elems[i].1.potentials->0.len() ==> tm_pot_ok(#[trigger] elems[i].1.potentials->0[k]),
{
    let (z, e) = elems[i];
}

fn tm_shells_exec(lines: &mut Vec<String>, shells: &Vec<BseElectronShell>)
    requires
        forall|k: int|
            0 <= k < shells@.len() ==> am_in_range((#[trigger] shells_view(shells@)[k]).am) && shell_matrix_ok(
                shells_view(shells@)[k],
            ),
    ensures
        final(lines).deep_view() == old(lines).deep_view() + tm_shell_lines(shells_view(shells@)),
{
    let ghost start = lines.deep_view();
    let ghost sv = shells_view(shells@);
    let mut i: usize = 0;
    while i < shells.len()
        invariant
            i <= shells@.len(),
            sv == shells_view(shells@),
            forall|k: int| 0 <= k < sv.len() ==> am_in_range((#[trigger] sv[k]).am) && shell_matrix_ok(sv[k]),
            lines.deep_view() == start + tm_shell_lines(sv.take(i as int)),
        decreases shells.len() - i,
    {
        let sh = &shells[i];
        assert(sv[i as int] == sh@);
        assert(am_in_range(sv[i as int].am) && shell_matrix_ok(sv[i as int]));
        assert(sv.take(i + 1).drop_last() =~= sv.take(i as int));
        assert(sv.take(i + 1).last() == sh@);
        let mut head = "    ".to_owned();
        let t = crate::text::usize_text(sh.exponents.len());
        crate::text::push_str(&mut head, t.as_str());
        crate::text::push_str(&mut head, "   ");
        let c = crate::lut::amint_to_char(sh.angular_momentum.as_slice(), true);
        crate::text::push_str(&mut head, c.as_str());
        crate::writers::g94::push_line(lines, head);
        let m = crate::writers::g94::shell_matrix_text(sh, true);
        crate::writers::g94::push_line(lines, m);
        assert(lines.deep_view() =~= start + tm_shell_lines(sv.take(i + 1)));
        i = i + 1;
    }
    assert(sv.take(shells@.len() as int) =~= sv);
}

/// The matrix of a potential.
fn tm_pot_matrix_exec(p: &BseEcpPotential) -> (r: Vec<Vec<String>>)
    ensures
        r.deep_view() == tm_pot_matrix(p@),
{
    let mut r = crate::fields::copy_matrix(&p.coefficients);
    let ghost c = r.deep_view();
    let re = crate::writers::g94::r_exponents_exec(p);
    r.push(re);
    let ghost c1 = r.deep_view();
    assert(c1 =~= c.push(r_exponent_texts(p@)));
    r.push(crate::fields::copy_strings(&p.gaussian_exponents));
    assert(r.deep_view() =~= c1.push(p@.gaussian_exponents));
    assert(r.deep_view() =~= tm_pot_matrix(p@));
    r
}

fn tm_pots_exec(lines: &mut Vec<String>, pots: &Vec<BseEcpPotential>, max_am: i32)
    requires
        forall|k: int| 0 <= k < pots@.len() ==> tm_pot_ok(#[trigger] pots@[k]@),
        0 <= max_am < 26,
    ensures
        final(lines).deep_view() == old(lines).deep_view() + tm_pot_lines(pots_view(pots@), max_am),
{
    let ghost start = lines.deep_view();
    let ghost pv = pots_view(pots@);
    let mut i: usize = 0;
    while i < pots.len()
        invariant
            i <= pots@.len(),
            pv == pots_view(pots@),
            0 <= max_am < 26,
            forall|k: int| 0 <= k < pots@.len() ==> tm_pot_ok(#[trigger] pots@[k]@),
            lines.deep_view() == start + tm_pot_lines(pv.take(i as int), max_am),
        decreases pots.len() - i,
    {
        let p = &pots[i];
        assert(pv[i as int] == p@);
        assert(tm_pot_ok(p@));
        assert(pv.take(i + 1).drop_last() =~= pv.take(i as int));
        assert(pv.take(i + 1).last() == p@);
        let mut head = crate::lut::amint_to_char(p.angular_momentum.as_slice(), true);
        if p.angular_momentum[0] != max_am {
            crate::text::push_str(&mut head, "-");
            let m = vec![max_am];
            let mc = crate::lut::amint_to_char(m.as_slice(), true);
            assert(m@ =~= seq![max_am]);
            crate::text::push_str(&mut head, mc.as_str());
        }
        crate::writers::g94::push_line(lines, head);
        let mat = tm_pot_matrix_exec(p);
        let pp: Vec<usize> = vec![9, 23, 32];
        assert(pp@ =~= tm_pot_points());
        let m = crate::printing::write_matrix(mat.as_slice(), pp.as_slice(), true);
        crate::writers::g94::push_line(lines, m);
        assert(lines.deep_view() =~= start + tm_pot_lines(pv.take(i + 1), max_am));
        i = i + 1;
    }
    assert(pv.take(pots@.len() as int) =~= pv);
}

fn tm_ecp_element(lines: &mut Vec<String>, name: &str, z: i32, pots: &Vec<BseEcpPotential>, ecp_electrons: i32)
    requires
        1 <= z <= 118,
        pots@.len() > 0,
        forall|k: int| 0 <= k < pots@.len() ==> tm_pot_ok(#[trigger] pots_view(pots@)[k]),
    ensures
        ({
            let pv = pots_view(pots@);
            let max_am = max_first_am(pv);
            final(lines).deep_view() == old(lines).deep_view() + seq![
                sym_spec(z as int) + " "@ + name@ + "-ecp"@,
                "*"@,
                "  ncore = "@ + int_text(ecp_electrons as int) + "   lmax = "@ + int_text(max_am as int),
            ] + tm_pot_lines(ecp_order(pv), max_am)
        }),
{
    let ghost start = lines.deep_view();
    let ghost pv = pots_view(pots@);
    proof {
        assert forall|k: int| 0 <= k < pots@.len() implies (#[trigger] pots@[k]).angular_momentum@.len() > 0
            && am_in_range(pots@[k].angular_momentum@) by {
            assert(pv[k] == pots@[k]@);
            assert(tm_pot_ok(pv[k]));
        }
    }
    let (max_am, sorted) = crate::writers::g94::ordered_pots(pots);
    proof {
        assert forall|k: int| 0 <= k < pv.len() implies (#[trigger] pv[k]).am.len() > 0 && am_in_range(pv[k].am) by {
            assert(tm_pot_ok(pv[k]));
        }
        crate::writers::g94::lemma_max_first_am(pv);
        assert forall|k: int| 0 <= k < sorted@.len() implies tm_pot_ok(#[trigger] sorted@[k]@) by {
            assert(pv.contains(sorted@[k]@));
            let j = choose|j: int| 0 <= j < pv.len() && pv[j] == sorted@[k]@;
            assert(tm_pot_ok(pv[j]));
        }
    }
    let sym = match crate::lut::element_sym_from_Z(z) {
        Some(t) => t,
        None => "",
    };
    let mut l1 = sym.to_owned();
    crate::text::push_str(&mut l1, " ");
    crate::text::push_str(&mut l1, name);
    crate::text::push_str(&mut l1, "-ecp");
    crate::writers::g94::push_line(lines, l1);
    crate::writers::g94::push_line(lines, "*".to_owned());
    let mut l3 = "  ncore = ".to_owned();
    let t = crate::text::i32_text(ecp_electrons);
    crate::text::push_str(&mut l3, t.as_str());
    crate::text::push_str(&mut l3, "   lmax = ");
    let t2 = crate::text::i32_text(max_am);
    crate::text::push_str(&mut l3, t2.as_str());
    crate::writers::g94::push_line(lines, l3);
    tm_pots_exec(lines, &sorted, max_am);
}

/// Write a basis set, segmented and with its shells in canonical order, in
/// the Turbomole format: the keyword of its role, the shells of each
/// element, then the potentials of each element, and `$end`.
#[verifier::rlimit(40)]
pub fn write_turbomole_sorted(basis: &BseBasis) -> (r: String)
    requires
        keys_increasing(basis.elements@),
        turbomole_ok(elements_view(basis.elements@)),
    ensures
        r@ == turbomole_text(basis.name@, basis.role@, elements_view(basis.elements@)),
{
    let ghost ev = elements_view(basis.elements@);
    let rc = crate::text::chars_of(basis.role.as_str());
    let jfit = crate::text::chars_of("jfit");
    let jkfit = crate::text::chars_of("jkfit");
    let rifit = crate::text::chars_of("rifit");
    let key = if crate::text::chars_eq(rc.as_slice(), jfit.as_slice()) {
        "$jbas".to_owned()
    } else if crate::text::chars_eq(rc.as_slice(), jkfit.as_slice()) {
        "$jkbas".to_owned()
    } else if crate::text::chars_eq(rc.as_slice(), rifit.as_slice()) {
        "$cbas".to_owned()
    } else {
        "$basis".to_owned()
    };
    assert(key@ == role_keyword(basis.role@));
    let mut lines: Vec<String> = Vec::new();
    crate::writers::g94::push_line(&mut lines, key);
    crate::writers::g94::push_line(&mut lines, "*".to_owned());
    let ghost base = lines.deep_view();
    let mut i: usize = 0;
    while i < basis.elements.len()
        invariant
            i <= basis.elements@.len(),
            ev == elements_view(basis.elements@),
            turbomole_ok(ev),
            lines.deep_view() == base + tm_electron_lines(basis.name@, ev.take(i as int)),
        decreases basis.elements.len() - i,
    {
        proof {
            lemma_turbomole_ok_at(ev, i as int);
        }
        assert(ev.take(i + 1).drop_last() =~= ev.take(i as int));
        assert(ev.take(i + 1).last() == ev[i as int]);
        let z = basis.elements[i].0;
        let el = &basis.elements[i].1;
        assert(ev[i as int] == (z, el@));
        match &el.electron_shells {
            None => {},
            Some(shells) => {
                assert(el@.shells == Some(shells_view(shells@)));
                assert(ev[i as int].1.shells->0 == shells_view(shells@));
                let sym = match crate::lut::element_sym_from_Z(z) {
                    Some(t) => t,
                    None => "",
                };
                let mut head = sym.to_owned();
                crate::text::push_str(&mut head, " ");
                crate::text::push_str(&mut head, basis.name.as_str());
                crate::writers::g94::push_line(&mut lines, head);
                crate::writers::g94::push_line(&mut lines, "*".to_owned());
                tm_shells_exec(&mut lines, shells);
                crate::writers::g94::push_line(&mut lines, "*".to_owned());
            },
        }
        assert(lines.deep_view() =~= base + tm_electron_lines(basis.name@, ev.take(i + 1)));
        i = i + 1;
    }
    assert(ev.take(basis.elements.len() as int) =~= ev);
    let mut any_ecp = false;
    let mut i: usize = 0;
    while i < basis.elements.len()
        invariant
            i <= basis.elements@.len(),
            ev == elements_view(basis.elements@),
            any_ecp <==> exists|k: int| 0 <= k < i && (#[trigger] ev[k]).1.potentials is Some,
        decreases basis.elements.len() - i,
    {
        assert(ev[i as int].1 == basis.elements@[i as int].1@);
        if basis.elements[i].1.ecp_potentials.is_some() {
            any_ecp = true;
        }
        i = i + 1;
    }
    assert(any_ecp == has_ecp(ev));
    let ghost elines = lines.deep_view();
    if any_ecp {
        crate::writers::g94::push_line(&mut lines, "$ecp".to_owned());
        crate::writers::g94::push_line(&mut lines, "*".to_owned());
        let ghost base2 = lines.deep_view();
        let mut i: usize = 0;
        while i < basis.elements.len()
            invariant
                i <= basis.elements@.len(),
                ev == elements_view(basis.elements@),
                turbomole_ok(ev),
                lines.deep_view() == base2 + tm_ecp_lines(basis.name@, ev.take(i as int)),
            decreases basis.elements.len() - i,
        {
            proof {
                lemma_turbomole_ok_at(ev, i as int);
            }
            assert(ev.take(i + 1).drop_last() =~= ev.take(i as int));
            assert(ev.take(i + 1).last() == ev[i as int]);
            let z = basis.elements[i].0;
            let el = &basis.elements[i].1;
            assert(ev[i as int] == (z, el@));
            match &el.ecp_potentials {
                None => {},
                Some(pots) => {
                    assert(el@.potentials == Some(pots_view(pots@)));
                    assert(ev[i as int].1.potentials->0 == pots_view(pots@));
                    let ne = match el.ecp_electrons {
                        Some(n) => n,
                        None => 0,
                    };
                    tm_ecp_element(&mut lines, basis.name.as_str(), z, pots, ne);
                    crate::writers::g94::push_line(&mut lines, "*".to_owned());
                },
            }
            assert(lines.deep_view() =~= base2 + tm_ecp_lines(basis.name@, ev.take(i + 1)));
            i = i + 1;
        }
        assert(ev.take(basis.elements.len() as int) =~= ev);
    }
    crate::writers::g94::push_line(&mut lines, "$end".to_owned());
    assert(lines.deep_view() =~= seq![role_keyword(basis.role@), "*"@] + tm_electron_lines(basis.name@, ev) + (if has_ecp(
        ev,
    ) {
        seq!["$ecp"@, "*"@] + tm_ecp_lines(basis.name@, ev)
    } else {
        Seq::empty()
    }) + seq!["$end"@]);
    let mut r = crate::text::join(&lines, "\n");
    crate::text::push_str(&mut r, "\n");
    r
}


/// Text joined from three or more parts begins with the first two parts,
/// each followed by the separator.
proof fn lemma_join_starts(parts: Seq<Seq<char>>, sep: Seq<char>)
    requires
        parts.len() >= 3,
    ensures
        (parts[0] + sep + parts[1] + sep).is_prefix_of(join_spec(parts, sep)),
    decreases parts.len(),
{
    let j = join_spec(parts, sep);
    let h = parts[0] + sep + parts[1] + sep;
    let d = parts.drop_last();
    if parts.len() == 3 {
        assert(d.drop_last().len() == 1);
        assert(d.drop_last()[0] == parts[0] && d.last() == parts[1]);
        assert(join_spec(d.drop_last(), sep) == parts[0]);
        assert(join_spec(d, sep) =~= parts[0] + sep + parts[1]);
        assert(j =~= h + parts[2]);
        assert(j.subrange(0, h.len() as int) =~= h);
    } else {
        lemma_join_starts(d, sep);
        assert(d[0] == parts[0] && d[1] == parts[1]);
        let p = join_spec(d, sep);
        assert(j =~= p + sep + parts.last());
        assert(j.subrange(0, h.len() as int) =~= p.subrange(0, h.len() as int));
    }
}

/// The first line of a basis set in the Turbomole format names the role of
/// the basis set: `$jbas` for a Coulomb fitting basis (`jfit`), `$jkbas` for
/// a Coulomb and exchange fitting basis (`jkfit`), `$cbas` for an RI
/// correlation fitting basis (`rifit`), and `$basis` for any other role; the
/// second line is `*`.
pub proof fn law_turbomole_first_line(name: Seq<char>, role: Seq<char>, elems: Seq<(i32, ElementV)>)
    ensures
        role == "jfit"@ ==> ("$jbas"@ + "\n"@ + "*"@ + "\n"@).is_prefix_of(turbomole_text(name, role, elems)),
        role == "jkfit"@ ==> ("$jkbas"@ + "\n"@ + "*"@ + "\n"@).is_prefix_of(turbomole_text(name, role, elems)),
        role == "rifit"@ ==> ("$cbas"@ + "\n"@ + "*"@ + "\n"@).is_prefix_of(turbomole_text(name, role, elems)),
        role != "jfit"@ && role != "jkfit"@ && role != "rifit"@ ==> ("$basis"@ + "\n"@ + "*"@ + "\n"@).is_prefix_of(
            turbomole_text(name, role, elems),
        ),
{
    let lines = seq![role_keyword(role), "*"@] + tm_electron_lines(name, elems) + (if has_ecp(elems) {
        seq!["$ecp"@, "*"@] + tm_ecp_lines(name, elems)
    } else {
        Seq::empty()
    }) + seq!["$end"@];
    reveal_strlit("jfit");
    reveal_strlit("jkfit");
    reveal_strlit("rifit");
    if role == "jkfit"@ {
        assert(role.len() != "jfit"@.len());
    }
    if role == "rifit"@ {
        assert(role.len() != "jfit"@.len());
        assert(role[0] != "jkfit"@[0]);
    }
    assert(lines.len() >= 3);
    assert(lines[0] == role_keyword(role) && lines[1] == "*"@);
    lemma_join_starts(lines, "\n"@);
    let t = turbomole_text(name, role, elems);
    let h = role_keyword(role) + "\n"@ + "*"@ + "\n"@;
    let j = join_spec(lines, "\n"@);
    assert(t =~= j + "\n"@);
    assert(t.subrange(0, h.len() as int) =~= j.subrange(0, h.len() as int));
    assert(h.is_prefix_of(t));
}

} // verus!
