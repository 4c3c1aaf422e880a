//! A plain dump of a basis set, element by element, for inspection.
use crate::fields::{keys_increasing, BseBasis, BseBasisElement, BseEcpPotential, BseElectronShell, ElementV, PotentialV, ShellV, elements_view, shells_view, pots_view};
use crate::lut::{am_in_range, amint_to_char_spec, capitalize_spec, sym_spec};
use crate::misc::{contraction_ok, contraction_spec};
use crate::printing::{write_matrix_ok, write_matrix_spec};
use crate::text::{int_text, nat_digits};
use crate::writers::g94::{g94_points, pot_matrix, shell_matrix, upper_str};
use vstd::prelude::*;

verus! {

/// The decimal point places of a potential's matrix in a dump.
pub open spec fn dump_pot_points() -> Seq<usize> {
    seq![0usize, 10usize, 33usize]
}

/// The dump of a shell with its index.
pub open spec fn dump_shell(sh: ShellV, idx: nat) -> Seq<char> {
    "Shell: Index "@ + nat_digits(idx) + "  Region: "@ + (if sh.region.len() == 0 {
        "(none)"@
    } else {
        sh.region
    }) + " AM: "@ + upper_str(amint_to_char_spec(sh.am, false)) + "\n"@ + "Function: "@ + sh.function_type
        + "\n"@ + write_matrix_spec(shell_matrix(sh), g94_points((sh.coefficients.len() + 1) as int), false)
        + "\n"@
}

/// The dump of the first `n` shells, each followed by a blank line.
pub open spec fn dump_shells(shells: Seq<ShellV>, n: nat) -> Seq<char>
    decreases n,
{
    if n == 0 {
        Seq::empty()
    } else {
        dump_shells(shells, (n - 1) as nat) + dump_shell(shells[n - 1], (n - 1) as nat) + "\n"@
    }
}

/// The dump of a potential.
pub open spec fn dump_pot(p: PotentialV) -> Seq<char> {
    "Potential: "@ + amint_to_char_spec(p.am, false) + " potential\n"@ + "Type: "@ + p.ecp_type + "\n"@
        + write_matrix_spec(pot_matrix(p), dump_pot_points(), false) + "\n\n"@
}

/// The dump of the first `n` potentials.
pub open spec fn dump_pots(pots: Seq<PotentialV>, n: nat) -> Seq<char>
    decreases n,
{
    if n == 0 {
        Seq::empty()
    } else {
        dump_pots(pots, (n - 1) as nat) + dump_pot(pots[n - 1])
    }
}

/// The first line of the dump of an element: symbol and contraction.
pub open spec fn dump_head(z: i32, e: ElementV) -> Seq<char> {
    "\nElement: "@ + capitalize_spec(sym_spec(z as int)) + " : "@ + (match e.shells {
        Some(s) => contraction_spec(s, false, false),
        None => "(no electron shells)"@,
    }) + "\n"@
}

/// The potentials part of the dump of an element.
pub open spec fn dump_ecp(z: i32, e: ElementV) -> Seq<char> {
    match e.potentials {
        Some(p) => "ECP: Element: "@ + capitalize_spec(sym_spec(z as int)) + "   Number of electrons: "@ + int_text(
            e.ecp_electrons->0 as int,
        ) + "\n"@ + dump_pots(p, p.len()),
        None => Seq::empty(),
    }
}

/// The dump of an element.
pub open spec fn dump_element(z: i32, e: ElementV) -> Seq<char> {
    dump_head(z, e) + (match e.shells {
        Some(s) => dump_shells(s, s.len()),
        None => Seq::empty(),
    }) + dump_ecp(z, e)
}

/// The dump of the first `n` elements.
pub open spec fn dump_elements(elems: Seq<(i32, ElementV)>, n: nat) -> Seq<char>
    decreases n,
{
    if n == 0 {
        Seq::empty()
    } else {
        dump_elements(elems, (n - 1) as nat) + dump_element(elems[n - 1].0, elems[n - 1].1)
    }
}

/// A shell can be dumped: letters for its angular momenta and a matrix that
/// fits its point places.
pub open spec fn dump_shell_ok(sh: ShellV) -> bool {
    &&& am_in_range(sh.am)
    &&& 23 * (sh.coefficients.len() + 1) < 0x7fff_ffff + 15
    &&& write_matrix_ok(shell_matrix(sh), g94_points((sh.coefficients.len() + 1) as int))
}

/// A potential can be dumped.
pub open spec fn dump_pot_ok(p: PotentialV) -> bool {
    &&& am_in_range(p.am)
    &&& write_matrix_ok(pot_matrix(p), dump_pot_points())
}

/// What dumping needs: known elements, shells and potentials that can be
/// written, and a number of core electrons where there are potentials.
pub open spec fn dump_ok(elems: Seq<(i32, ElementV)>) -> bool {
    forall|i: int|
        0 <= i < elems.len() ==> {
            let (z, e) = #[trigger] elems[i];
            &&& 1 <= z <= 118
            &&& e.shells matches Some(s) ==> contraction_ok(s) && forall|k: int|
                0 <= k < s.len() ==> dump_shell_ok(#[trigger] s[k])
            &&& e.potentials matches Some(p) ==> e.ecp_electrons is Some && forall|k: int|
                0 <= k < p.len() ==> dump_pot_ok(#[trigger] p[k])
        }
}

fn dump_shell_exec(out: &mut String, sh: &BseElectronShell, idx: usize)
    requires
        dump_shell_ok(sh@),
    ensures
        final(out)@ == old(out)@ + dump_shell(sh@, idx as nat),
{
    let ghost start = out@;
    crate::text::push_str(out, "Shell: Index ");
    let t = crate::text::usize_text(idx);
    crate::text::push_str(out, t.as_str());
    crate::text::push_str(out, "  Region: ");
    let rc = crate::text::chars_of(sh.region.as_str());
    if rc.len() == 0 {
        crate::text::push_str(out, "(none)");
    } else {
        crate::text::push_str(out, sh.region.as_str());
    }
    crate::text::push_str(out, " AM: ");
    let c = crate::lut::amint_to_char(sh.angular_momentum.as_slice(), false);
    let u = crate::writers::g94::upper(c.as_str());
    crate::text::push_str(out, u.as_str());
    crate::text::push_str(out, "\n");
    crate::text::push_str(out, "Function: ");
    crate::text::push_str(out, sh.function_type.as_str());
    crate::text::push_str(out, "\n");
    let mat = crate::writers::g94::shell_matrix_exec(sh);
    let ncol = sh.coefficients.len() + 1;
    let pp = crate::writers::g94::points(ncol);
    let m = crate::printing::write_matrix(mat.as_slice(), pp.as_slice(), false);
    crate::text::push_str(out, m.as_str());
    crate::text::push_str(out, "\n");
    assert(out@ =~= start + dump_shell(sh@, idx as nat));
}

fn dump_pot_exec(out: &mut String, p: &BseEcpPotential)
    requires
        dump_pot_ok(p@),
    ensures
        final(out)@ == old(out)@ + dump_pot(p@),
{
    let ghost start = out@;
    crate::text::push_str(out, "Potential: ");
    let c = crate::lut::amint_to_char(p.angular_momentum.as_slice(), false);
    crate::text::push_str(out, c.as_str());
    crate::text::push_str(out, " potential\n");
    crate::text::push_str(out, "Type: ");
    crate::text::push_str(out, p.ecp_type.as_str());
    crate::text::push_str(out, "\n");
    let mat = crate::writers::g94::pot_matrix_exec(p);
    let pp: Vec<usize> = vec![0, 10, 33];
    assert(pp@ =~= dump_pot_points());
    let m = crate::printing::write_matrix(mat.as_slice(), pp.as_slice(), false);
    crate::text::push_str(out, m.as_str());
    crate::text::push_str(out, "\n\n");
    assert(out@ =~= start + dump_pot(p@));
}

proof fn lemma_dump_ok_at(elems: Seq<(i32, ElementV)>, i: int)
    requires
        dump_ok(elems),
        0 <= i < elems.len(),
    ensures
        1 <= elems[i].0 <= 118,
        elems[i].1.shells is Some ==> contraction_ok(elems[i].1.shells->0),
        elems[i].1.shells is Some ==> forall|k: int|
            0 <= k < elems[i].1.shells->0.len() ==> dump_shell_ok(#[trigger] elems[i].1.shells->0[k]),
        elems[i].1.potentials is Some ==> elems[i].1.ecp_electrons is Some,
        elems[i].1.potentials is Some ==> forall|k: int|
            0 <= k < elems[i].1.potentials->0.len() ==> dump_pot_ok(#[trigger] elems[i].1.potentials->0[k]),
{
    let (z, e) = elems[i];
}

fn dump_shells_exec(out: &mut String, shells: &Vec<BseElectronShell>)
    requires
        forall|j: int| 0 <= j < shells@.len() ==> dump_shell_ok(#[trigger] shells_view(shells@)[j]),
    ensures
        final(out)@ == old(out)@ + dump_shells(shells_view(shells@), shells@.len()),
{
    let ghost head = out@;
    let ghost sv = shells_view(shells@);
    let mut k: usize = 0;
    while k < shells.len()
        invariant
            k <= shells@.len(),
            sv == shells_view(shells@),
            forall|j: int| 0 <= j < sv.len() ==> dump_shell_ok(#[trigger] sv[j]),
            out@ == head + dump_shells(sv, k as nat),
        decreases shells.len() - k,
    {
        assert(sv[k as int] == shells@[k as int]@);
        assert(dump_shell_ok(sv[k as int]));
        dump_shell_exec(out, &shells[k], k);
        crate::text::push_str(out, "\n");
        assert(out@ =~= head + dump_shells(sv, (k + 1) as nat));
        k = k + 1;
    }
}

fn dump_pots_exec(out: &mut String, pots: &Vec<BseEcpPotential>)
    requires
        forall|j: int| 0 <= j < pots@.len() ==> dump_pot_ok(#[trigger] pots_view(pots@)[j]),
    ensures
        final(out)@ == old(out)@ + dump_pots(pots_view(pots@), pots@.len()),
{
    let ghost head = out@;
    let ghost pv = pots_view(pots@);
    let mut k: usize = 0;
    while k < pots.len()
        invariant
            k <= pots@.len(),
            pv == pots_view(pots@),
            forall|j: int| 0 <= j < pv.len() ==> dump_pot_ok(#[trigger] pv[j]),
            out@ == head + dump_pots(pv, k as nat),
        decreases pots.len() - k,
    {
        assert(pv[k as int] == pots@[k as int]@);
        assert(dump_pot_ok(pv[k as int]));
        dump_pot_exec(out, &pots[k]);
        assert(out@ =~= head + dump_pots(pv, (k + 1) as nat));
        k = k + 1;
    }
}

fn dump_head_exec(out: &mut String, z: i32, sym: &String, el: &BseBasisElement)
    requires
        sym@ == capitalize_spec(sym_spec(z as int)),
        el@.shells is Some ==> contraction_ok(el@.shells->0),
    ensures
        final(out)@ == old(out)@ + dump_head(z, el@),
{
    let ghost start = out@;
    crate::text::push_str(out, "\nElement: ");
    crate::text::push_str(out, sym.as_str());
    crate::text::push_str(out, " : ");
    match &el.electron_shells {
        Some(shells) => {
            let c = crate::misc::contraction_string(shells.as_slice(), false, false);
            crate::text::push_str(out, c.as_str());
        },
        None => {
            crate::text::push_str(out, "(no electron shells)");
        },
    }
    crate::text::push_str(out, "\n");
    assert(out@ =~= start + dump_head(z, el@));
}

fn dump_ecp_exec(out: &mut String, z: i32, sym: &String, el: &BseBasisElement)
    requires
        sym@ == capitalize_spec(sym_spec(z as int)),
        el@.potentials is Some ==> el@.ecp_electrons is Some,
        el@.potentials is Some ==> forall|k: int|
            0 <= k < el@.potentials->0.len() ==> dump_pot_ok(#[trigger] el@.potentials->0[k]),
    ensures
        final(out)@ == old(out)@ + dump_ecp(z, el@),
{
    let ghost start = out@;
    match &el.ecp_potentials {
        Some(pots) => {
            crate::text::push_str(out, "ECP: Element: ");
            crate::text::push_str(out, sym.as_str());
            crate::text::push_str(out, "   Number of electrons: ");
            let n = match el.ecp_electrons {
                Some(n) => n,
                None => 0,
            };
            let t = crate::text::i32_text(n);
            crate::text::push_str(out, t.as_str());
            crate::text::push_str(out, "\n");
            let ghost pv = pots_view(pots@);
            assert(el@.potentials == Some(pv));
            assert(el@.potentials->0 == pv);
            assert forall|k: int| 0 <= k < pv.len() implies dump_pot_ok(#[trigger] pv[k]) by {
                assert(dump_pot_ok(el@.potentials->0[k]));
            }
            dump_pots_exec(out, pots);
        },
        None => {},
    }
    assert(out@ =~= start + dump_ecp(z, el@));
}

fn dump_element_exec(out: &mut String, z: i32, el: &BseBasisElement)
    requires
        1 <= z <= 118,
        el@.shells is Some ==> contraction_ok(el@.shells->0),
        el@.shells is Some ==> forall|k: int|
            0 <= k < el@.shells->0.len() ==> dump_shell_ok(#[trigger] el@.shells->0[k]),
        el@.potentials is Some ==> el@.ecp_electrons is Some,
        el@.potentials is Some ==> forall|k: int|
            0 <= k < el@.potentials->0.len() ==> dump_pot_ok(#[trigger] el@.potentials->0[k]),
    ensures
        final(out)@ == old(out)@ + dump_element(z, el@),
{
    let ghost start = out@;
    let sym = match crate::lut::element_sym_from_Z_with_normalize(z) {
        Some(t) => t,
        None => String::new(),
    };
    dump_head_exec(out, z, &sym, el);
    let ghost a = out@;
    match &el.electron_shells {
        Some(shells) => {
            assert(el@.shells == Some(shells_view(shells@)));
            dump_shells_exec(out, shells);
        },
        None => {},
    }
    let ghost b = out@;
    dump_ecp_exec(out, z, &sym, el);
    assert(out@ =~= start + dump_element(z, el@));
}

/// Write a basis set in the debug dump format: for each element, its symbol
/// and contraction, each shell with its index, region, angular momentum,
/// function type and matrix, and its potentials.
#[verifier::rlimit(40)]
pub fn write_bsedebug(basis: &BseBasis) -> (r: String)
    requires
        keys_increasing(basis.elements@),
        dump_ok(elements_view(basis.elements@)),
    ensures
        r@ == dump_elements(elements_view(basis.elements@), basis.elements@.len()),
{
    let ghost ev = elements_view(basis.elements@);
    let mut out = String::new();
    let mut i: usize = 0;
    while i < basis.elements.len()
        invariant
            i <= basis.elements@.len(),
            ev == elements_view(basis.elements@),
            dump_ok(ev),
            out@ == dump_elements(ev, i as nat),
        decreases basis.elements.len() - i,
    {
        proof {
            lemma_dump_ok_at(ev, i as int);
        }
        assert(ev[i as int] == (basis.elements@[i as int].0, basis.elements@[i as int].1@));
        dump_element_exec(&mut out, basis.elements[i].0, &basis.elements[i].1);
        i = i + 1;
    }
    out
}

} // verus!
