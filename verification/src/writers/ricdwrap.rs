//! Conversion of basis sets to an OpenMolcas input that generates acCD
//! auxiliary basis sets.
//!
//! A basis set is made as generally contracted as possible and pruned
//! ([`prepare_general`](crate::writers::libmol::prepare_general)), its shells
//! put in canonical order (outside this library), and written by
//! [`write_ricdwrap_sorted`].
use crate::fields::{keys_increasing, BseBasis, BseElectronShell, ElementV, ShellV, elements_view, shells_view};
use crate::lut::{am_in_range, amchars, amint_to_char_spec, capitalize_spec, name_spec, sym_spec};
use crate::manip::dedup;
use crate::misc::{all_ams, contraction_ok, contraction_spec, max_or_zero};
use crate::printing::{write_matrix_ok, write_matrix_spec};
use crate::text::{int_text, join_spec, nat_digits};
use crate::writers::g94::{g94_points, right_aligned, upper_str};
use vstd::prelude::*;

verus! {

/// The angular momenta of the Cartesian shells, in order.
pub open spec fn cartesian_ams(shells: Seq<ShellV>) -> Seq<i32>
    decreases shells.len(),
{
    if shells.len() == 0 {
        Seq::empty()
    } else {
        let sh = shells.last();
        cartesian_ams(shells.drop_last()) + if sh.function_type == "gto_cartesian"@ {
            sh.am
        } else {
            Seq::empty()
        }
    }
}

/// The letters of the angular momenta of the Cartesian shells, each once,
/// in order of first appearance.
pub open spec fn cartesian_letters(shells: Seq<ShellV>) -> Seq<Seq<char>> {
    dedup(cartesian_ams(shells)).map_values(|a: i32| seq![amchars(false)[a as int]])
}

/// The text of a shell.
pub open spec fn ricd_shell(sh: ShellV) -> Seq<char> {
    "* "@ + upper_str(amint_to_char_spec(sh.am, false)) + "-type functions\n"@ + right_aligned(
        nat_digits(sh.exponents.len()),
        6,
    ) + "    "@ + nat_digits(sh.coefficients.len()) + "\n"@ + write_matrix_spec(seq![sh.exponents], seq![17usize], false)
        + "\n"@ + write_matrix_spec(sh.coefficients, g94_points(sh.coefficients.len() as int), false) + "\n"@
}

/// The text of the first `n` shells.
pub open spec fn ricd_shells(shells: Seq<ShellV>, n: nat) -> Seq<char>
    decreases n,
{
    if n == 0 {
        Seq::empty()
    } else {
        ricd_shells(shells, (n - 1) as nat) + ricd_shell(shells[n - 1])
    }
}

/// The first lines of an element: its name, contraction and symbol.
pub open spec fn ricd_el_head(z: i32, e: ElementV) -> Seq<char> {
    "Basis set\n"@ + "* "@ + upper_str(name_spec(z as int)) + "  "@ + (match e.shells {
        Some(s) => contraction_spec(s, false, false),
        None => Seq::empty(),
    }) + "\n"@ + " "@ + capitalize_spec(sym_spec(z as int)) + "    / inline\n"@
}

/// The shells of an element, after its charge and largest angular momentum.
pub open spec fn ricd_el_shells(z: i32, e: ElementV) -> Seq<char> {
    match e.shells {
        Some(s) => right_aligned(int_text(z as int), 7) + ".00   "@ + int_text(max_or_zero(all_ams(s)) as int) + "\n"@
            + ricd_shells(s, s.len()),
        None => Seq::empty(),
    }
}

/// The last lines of an element: its nucleus and Cartesian angular momenta.
pub open spec fn ricd_el_tail(z: i32, e: ElementV) -> Seq<char> {
    capitalize_spec(sym_spec(z as int)) + " 0.0 0.0 "@ + int_text(10 * (z - 1)) + ".0\n"@ + (match e.shells {
        Some(s) => if cartesian_letters(s).len() > 0 {
            "cartesian "@ + join_spec(cartesian_letters(s), " "@) + "\n"@
        } else {
            Seq::empty()
        },
        None => Seq::empty(),
    }) + "End of basis set\n\n"@
}

/// The text of an element.
pub open spec fn ricd_element(z: i32, e: ElementV) -> Seq<char> {
    ricd_el_head(z, e) + ricd_el_shells(z, e) + ricd_el_tail(z, e)
}

/// The text of the first `n` elements.
pub open spec fn ricd_elements(elems: Seq<(i32, ElementV)>, n: nat) -> Seq<char>
    decreases n,
{
    if n == 0 {
        Seq::empty()
    } else {
        ricd_elements(elems, (n - 1) as nat) + ricd_element(elems[n - 1].0, elems[n - 1].1)
    }
}

/// The opening of the input.
pub open spec fn ricd_head() -> Seq<char> {
    "\n&GATEWAY\n  ricd\n  accd\n  cdthreshold=1.0d-4\n"@
}

/// A shell can be written.
pub open spec fn ricd_shell_ok(sh: ShellV) -> bool {
    &&& am_in_range(sh.am)
    &&& 23 * (sh.coefficients.len() + 1) < 0x7fff_ffff + 15
    &&& write_matrix_ok(seq![sh.exponents], seq![17usize])
    &&& write_matrix_ok(sh.coefficients, g94_points(sh.coefficients.len() as int))
}

/// What writing the input needs.
pub open spec fn ricdwrap_ok(elems: Seq<(i32, ElementV)>) -> bool {
    forall|i: int|
        0 <= i < elems.len() ==> {
            let (z, e) = #[trigger] elems[i];
            &&& 1 <= z <= 118
            &&& e.shells is Some ==> contraction_ok(e.shells->0)
            &&& e.shells is Some ==> forall|k: int|
                0 <= k < e.shells->0.len() ==> ricd_shell_ok(#[trigger] e.shells->0[k])
        }
}

fn ricd_shell_exec(out: &mut String, sh: &BseElectronShell)
    requires
        ricd_shell_ok(sh@),
    ensures
        final(out)@ == old(out)@ + ricd_shell(sh@),
{
    let ghost start = out@;
    crate::text::push_str(out, "* ");
    let c = crate::lut::amint_to_char(sh.angular_momentum.as_slice(), false);
    let u = crate::writers::g94::upper(c.as_str());
    crate::text::push_str(out, u.as_str());
    crate::text::push_str(out, "-type functions\n");
    let t = crate::text::usize_text(sh.exponents.len());
    let tp = crate::writers::g94::pad_left(t.as_str(), 6);
    crate::text::push_str(out, tp.as_str());
    crate::text::push_str(out, "    ");
    let t2 = crate::text::usize_text(sh.coefficients.len());
    crate::text::push_str(out, t2.as_str());
    crate::text::push_str(out, "\n");
    let ev = vec![crate::fields::copy_strings(&sh.exponents)];
    assert(ev.deep_view() =~= seq![sh@.exponents]);
    let p17: Vec<usize> = vec![17];
    assert(p17@ =~= seq![17usize]);
    let m1 = crate::printing::write_matrix(ev.as_slice(), p17.as_slice(), false);
    crate::text::push_str(out, m1.as_str());
    crate::text::push_str(out, "\n");
    let pp = if sh.coefficients.len() > 0 {
        crate::writers::g94::points(sh.coefficients.len())
    } else {
        Vec::new()
    };
    assert(pp@ =~= g94_points(sh@.coefficients.len() as int));
    let m2 = crate::printing::write_matrix(sh.coefficients.as_slice(), pp.as_slice(), false);
    crate::text::push_str(out, m2.as_str());
    crate::text::push_str(out, "\n");
    assert(out@ =~= start + ricd_shell(sh@));
}

fn ricd_shells_exec(out: &mut String, shells: &Vec<BseElectronShell>)
    requires
        forall|k: int| 0 <= k < shells@.len() ==> ricd_shell_ok(#[trigger] shells_view(shells@)[k]),
    ensures
        final(out)@ == old(out)@ + ricd_shells(shells_view(shells@), shells@.len()),
{
    let ghost start = out@;
    let ghost sv = shells_view(shells@);
    let mut k: usize = 0;
    while k < shells.len()
        invariant
            k <= shells@.len(),
            sv == shells_view(shells@),
            forall|j: int| 0 <= j < sv.len() ==> ricd_shell_ok(#[trigger] sv[j]),
            out@ == start + ricd_shells(sv, k as nat),
        decreases shells.len() - k,
    {
        assert(sv[k as int] == shells@[k as int]@);
        assert(ricd_shell_ok(sv[k as int]));
        ricd_shell_exec(out, &shells[k]);
        k = k + 1;
    }
}

/// The letters of the Cartesian angular momenta of a list of shells.
fn cartesian_letters_exec(shells: &Vec<BseElectronShell>) -> (r: Vec<String>)
    requires
        forall|k: int| 0 <= k < shells@.len() ==> am_in_range((#[trigger] shells_view(shells@)[k]).am),
    ensures
        r.deep_view() == cartesian_letters(shells_view(shells@)),
{
    let ghost sv = shells_view(shells@);
    let cart = crate::text::chars_of("gto_cartesian");
    let mut ams: Vec<i32> = Vec::new();
    let ghost all: Seq<i32> = Seq::empty();
    let mut k: usize = 0;
    while k < shells.len()
        invariant
            k <= shells@.len(),
            sv == shells_view(shells@),
            cart@ == "gto_cartesian"@,
            forall|j: int| 0 <= j < sv.len() ==> am_in_range((#[trigger] sv[j]).am),
            all == cartesian_ams(sv.take(k as int)),
            ams@ == dedup(all),
            forall|j: int| 0 <= j < all.len() ==> 0 <= #[trigger] all[j] < 26,
        decreases shells.len() - k,
    {
        let sh = &shells[k];
        assert(sv[k as int] == sh@);
        assert(sv.take(k + 1).drop_last() =~= sv.take(k as int));
        assert(sv.take(k + 1).last() == sh@);
        let fc = crate::text::chars_of(sh.function_type.as_str());
        if crate::text::chars_eq(fc.as_slice(), cart.as_slice()) {
            let ghost base = all;
            let mut a: usize = 0;
            while a < sh.angular_momentum.len()
                invariant
                    a <= sh.angular_momentum@.len(),
                    am_in_range(sh@.am),
                    all == base + sh@.am.take(a as int),
                    ams@ == dedup(all),
                    forall|j: int| 0 <= j < all.len() ==> 0 <= #[trigger] all[j] < 26,
                decreases sh.angular_momentum.len() - a,
            {
                let x = sh.angular_momentum[a];
                let mut found = false;
                let mut t: usize = 0;
                while t < ams.len()
                    invariant
                        t <= ams@.len(),
                        found <==> exists|q: int| 0 <= q < t && ams@[q] == x,
                    decreases ams.len() - t,
                {
                    if ams[t] == x {
                        found = true;
                    }
                    t = t + 1;
                }
                proof {
                    let next = all.push(x);
                    assert(next.drop_last() =~= all);
                    assert(found == dedup(all).contains(x));
                    all = next;
                }
                assert(all =~= base + sh@.am.take(a + 1));
                if !found {
                    ams.push(x);
                }
                a = a + 1;
            }
            assert(sh@.am.take(sh.angular_momentum@.len() as int) =~= sh@.am);
        }
        assert(all =~= cartesian_ams(sv.take(k + 1)));
        k = k + 1;
    }
    assert(sv.take(shells@.len() as int) =~= sv);
    let mut r: Vec<String> = Vec::new();
    let mut t: usize = 0;
    while t < ams.len()
        invariant
            t <= ams@.len(),
            ams@ == dedup(all),
            all == cartesian_ams(sv),
            forall|j: int| 0 <= j < all.len() ==> 0 <= #[trigger] all[j] < 26,
            r.deep_view() =~= dedup(all).take(t as int).map_values(|a: i32| seq![amchars(false)[a as int]]),
        decreases ams.len() - t,
    {
        proof {
            crate::manip::lemma_dedup_members(all);
        }
        assert(all.contains(ams@[t as int]));
        let one = vec![ams[t]];
        assert(one@ =~= seq![ams@[t as int]]);
        let c = crate::lut::amint_to_char(one.as_slice(), false);
        assert(c@ =~= seq![amchars(false)[ams@[t as int] as int]]);
        let ghost before = r.deep_view();
        r.push(c);
        assert(r.deep_view() =~= before.push(seq![amchars(false)[ams@[t as int] as int]]));
        t = t + 1;
    }
    assert(dedup(all).take(ams@.len() as int) =~= dedup(all));
    r
}

fn ricd_head_exec(out: &mut String, z: i32, sym: &String, el: &crate::fields::BseBasisElement)
    requires
        1 <= z <= 118,
        sym@ == capitalize_spec(sym_spec(z as int)),
        el@.shells is Some ==> contraction_ok(el@.shells->0),
    ensures
        final(out)@ == old(out)@ + ricd_el_head(z, el@),
{
    let ghost start = out@;
    let name = match crate::lut::element_name_from_Z(z) {
        Some(t) => t,
        None => "",
    };
    crate::text::push_str(out, "Basis set\n");
    crate::text::push_str(out, "* ");
    let un = crate::writers::g94::upper(name);
    crate::text::push_str(out, un.as_str());
    crate::text::push_str(out, "  ");
    match &el.electron_shells {
        Some(shells) => {
            assert(el@.shells == Some(shells_view(shells@)));
            let c = crate::misc::contraction_string(shells.as_slice(), false, false);
            crate::text::push_str(out, c.as_str());
        },
        None => {},
    }
    crate::text::push_str(out, "\n");
    crate::text::push_str(out, " ");
    crate::text::push_str(out, sym.as_str());
    crate::text::push_str(out, "    / inline\n");
    assert(out@ =~= start + ricd_el_head(z, el@));
}

fn ricd_body_exec(out: &mut String, z: i32, el: &crate::fields::BseBasisElement)
    requires
        el@.shells is Some ==> forall|k: int|
            0 <= k < el@.shells->0.len() ==> ricd_shell_ok(#[trigger] el@.shells->0[k]),
    ensures
        final(out)@ == old(out)@ + ricd_el_shells(z, el@),
{
    let ghost start = out@;
    match &el.electron_shells {
        Some(shells) => {
            let ghost sv = shells_view(shells@);
            assert(el@.shells == Some(sv));
            assert(el@.shells->0 == sv);
            assert forall|k: int| 0 <= k < shells@.len() implies ricd_shell_ok(#[trigger] sv[k]) by {
                assert(ricd_shell_ok(el@.shells->0[k]));
            }
            let zt = crate::text::i32_text(z);
            let zp = crate::writers::g94::pad_left(zt.as_str(), 7);
            crate::text::push_str(out, zp.as_str());
            crate::text::push_str(out, ".00   ");
            let m = crate::misc::max_am(shells.as_slice());
            let mt = crate::text::i32_text(m);
            crate::text::push_str(out, mt.as_str());
            crate::text::push_str(out, "\n");
            ricd_shells_exec(out, shells);
        },
        None => {},
    }
    assert(out@ =~= start + ricd_el_shells(z, el@));
}

fn ricd_tail_exec(out: &mut String, z: i32, sym: &String, el: &crate::fields::BseBasisElement)
    requires
        1 <= z <= 118,
        sym@ == capitalize_spec(sym_spec(z as int)),
        el@.shells is Some ==> forall|k: int|
            0 <= k < el@.shells->0.len() ==> ricd_shell_ok(#[trigger] el@.shells->0[k]),
    ensures
        final(out)@ == old(out)@ + ricd_el_tail(z, el@),
{
    let ghost start = out@;
    crate::text::push_str(out, sym.as_str());
    crate::text::push_str(out, " 0.0 0.0 ");
    let d = crate::text::i32_text(10 * (z - 1));
    crate::text::push_str(out, d.as_str());
    crate::text::push_str(out, ".0\n");
    match &el.electron_shells {
        Some(shells) => {
            let ghost sv = shells_view(shells@);
            assert(el@.shells == Some(sv));
            assert(el@.shells->0 == sv);
            assert forall|k: int| 0 <= k < shells@.len() implies am_in_range((#[trigger] sv[k]).am) by {
                assert(ricd_shell_ok(el@.shells->0[k]));
            }
            let letters = cartesian_letters_exec(shells);
            if letters.len() > 0 {
                crate::text::push_str(out, "cartesian ");
                let j = crate::text::join(&letters, " ");
                crate::text::push_str(out, j.as_str());
                crate::text::push_str(out, "\n");
            }
        },
        None => {},
    }
    crate::text::push_str(out, "End of basis set\n\n");
    assert(out@ =~= start + ricd_el_tail(z, el@));
}

fn ricd_element_exec(out: &mut String, z: i32, el: &crate::fields::BseBasisElement)
    requires
        1 <= z <= 118,
        el@.shells is Some ==> contraction_ok(el@.shells->0),
        el@.shells is Some ==> forall|k: int|
            0 <= k < el@.shells->0.len() ==> ricd_shell_ok(#[trigger] el@.shells->0[k]),
    ensures
        final(out)@ == old(out)@ + ricd_element(z, el@),
{
    let ghost start = out@;
    let sym = match crate::lut::element_sym_from_Z_with_normalize(z) {
        Some(t) => t,
        None => String::new(),
    };
    ricd_head_exec(out, z, &sym, el);
    ricd_body_exec(out, z, el);
    ricd_tail_exec(out, z, &sym, el);
    assert(out@ =~= start + ricd_element(z, el@));
}

/// Write a basis set, prepared and with its shells in canonical order, as
/// an OpenMolcas input that generates acCD auxiliary basis sets: for each
/// element, its inline basis set, a nucleus 10 Angstrom further than the
/// previous one, and its Cartesian angular momenta (in order of first
/// appearance).
#[verifier::rlimit(40)]
pub fn write_ricdwrap_sorted(basis: &BseBasis) -> (r: String)
    requires
        keys_increasing(basis.elements@),
        ricdwrap_ok(elements_view(basis.elements@)),
    ensures
        r@ == ricd_head() + ricd_elements(elements_view(basis.elements@), basis.elements@.len()),
{
    let ghost ev = elements_view(basis.elements@);
    let mut out = "\n&GATEWAY\n  ricd\n  accd\n  cdthreshold=1.0d-4\n".to_owned();
    let mut i: usize = 0;
    while i < basis.elements.len()
        invariant
            i <= basis.elements@.len(),
            ev == elements_view(basis.elements@),
            ricdwrap_ok(ev),
            out@ == ricd_head() + ricd_elements(ev, i as nat),
        decreases basis.elements.len() - i,
    {
        let z = basis.elements[i].0;
        let el = &basis.elements[i].1;
        assert(ev[i as int] == (z, el@));
        proof {
            let (zz, e) = ev[i as int];
        }
        ricd_element_exec(&mut out, z, el);
        i = i + 1;
    }
    out
}

} // verus!
