//! Conversion of basis sets to the Molpro system library format (libmol).
//!
//! A basis set is first made as generally contracted as possible and pruned
//! ([`prepare_libmol`]); the shells are then put in their canonical order,
//! which compares spatial extents in floating point and is done outside this
//! library; [`write_libmol_sorted`] writes the result.
use crate::fields::{keys_increasing, BseBasis, BseEcpPotential, BseElectronShell, ElementV, PotentialV, ShellV, elements_view, shells_view, pots_view};
use crate::lut::{am_in_range, amint_to_char_spec, name_spec, sym_spec};
use crate::manip::{make_general_ok, make_general_spec, prune_list_ok, prune_list_spec, map_elements, all_shell_lists, same_but_elements};
use crate::misc::{all_numerals, contraction_ok, contraction_spec};
use crate::numeral::num_is_zero;
use crate::sort::ecp_order;
use crate::text::{int_text, join_spec, nat_digits};
use crate::writers::g94::{has_ecp, max_first_am, upper_str};
use vstd::prelude::*;

verus! {

/* #region preparation */

/// The shells of an element once prepared for libmol.
pub open spec fn libmol_prepared(s: Seq<ShellV>) -> Seq<ShellV> {
    prune_list_spec(make_general_spec(s, false))
}

/// What preparing the shells of an element for libmol needs.
pub open spec fn libmol_prepare_ok(s: Seq<ShellV>) -> bool {
    make_general_ok(s, false) && prune_list_ok(make_general_spec(s, false))
}

/// Prepare a basis set for libmol (and the other formats that use general
/// contractions): make it as generally contracted as possible and prune it.
pub fn prepare_general(basis: &mut BseBasis)
    requires
        all_shell_lists(elements_view(old(basis).elements@), |s: Seq<ShellV>| libmol_prepare_ok(s)),
    ensures
        same_but_elements(*old(basis), *final(basis)),
        elements_view(final(basis).elements@) == map_elements(
            elements_view(old(basis).elements@),
            |s: Seq<ShellV>| libmol_prepared(s),
        ),
{
    let ghost e0 = elements_view(basis.elements@);
    crate::manip::make_general(basis, false);
    let ghost e1 = elements_view(basis.elements@);
    assert(all_shell_lists(e1, |s: Seq<ShellV>| prune_list_ok(s))) by {
        assert forall|i: int| 0 <= i < e1.len() implies match (#[trigger] e1[i]).1.shells {
            Some(s) => prune_list_ok(s),
            None => true,
        } by {
            assert(e1[i] == map_elements(e0, |s: Seq<ShellV>| make_general_spec(s, false))[i]);
            assert(match e0[i].1.shells { Some(s) => libmol_prepare_ok(s), None => true });
        }
    }
    crate::manip::prune_basis(basis);
    assert(elements_view(basis.elements@) =~= map_elements(e0, |s: Seq<ShellV>| libmol_prepared(s))) by {
        let e2 = elements_view(basis.elements@);
        assert forall|i: int| 0 <= i < e2.len() implies e2[i] == map_elements(e0, |s: Seq<ShellV>| libmol_prepared(s))[i] by {
            assert(e2[i] == map_elements(e1, |s: Seq<ShellV>| prune_list_spec(s))[i]);
            assert(e1[i] == map_elements(e0, |s: Seq<ShellV>| make_general_spec(s, false))[i]);
        }
    }
}

/* #endregion */

/* #region text */

/// The index of the first nonzero value of a list that has one.
#[verifier::opaque]
pub open spec fn first_nonzero(c: Seq<Seq<char>>) -> int {
    choose|i: int| 0 <= i < c.len() && !num_is_zero(c[i]) && forall|j: int| 0 <= j < i ==> num_is_zero(#[trigger] c[j])
}

/// The index of the last nonzero value of a list that has one.
#[verifier::opaque]
pub open spec fn last_nonzero(c: Seq<Seq<char>>) -> int {
    choose|i: int|
        0 <= i < c.len() && !num_is_zero(c[i]) && forall|j: int| i < j < c.len() ==> num_is_zero(#[trigger] c[j])
}

/// A list of numerals with a nonzero value.
pub open spec fn has_nonzero(c: Seq<Seq<char>>) -> bool {
    all_numerals(c) && exists|i: int| 0 <= i < c.len() && !num_is_zero(#[trigger] c[i])
}

/// The ranges of nonzero coefficients of the contractions, one-based:
/// ` first.last` for each.
pub open spec fn ranges_text(coefs: Seq<Seq<Seq<char>>>) -> Seq<char>
    decreases coefs.len(),
{
    if coefs.len() == 0 {
        Seq::empty()
    } else {
        let c = coefs.last();
        ranges_text(coefs.drop_last()) + " "@ + nat_digits((first_nonzero(c) + 1) as nat) + "."@ + nat_digits(
            (last_nonzero(c) + 1) as nat,
        )
    }
}

/// The nonzero ranges of the contractions, one after the other.
pub open spec fn trimmed_coefs(coefs: Seq<Seq<Seq<char>>>) -> Seq<Seq<char>>
    decreases coefs.len(),
{
    if coefs.len() == 0 {
        Seq::empty()
    } else {
        let c = coefs.last();
        trimmed_coefs(coefs.drop_last()) + c.subrange(first_nonzero(c), last_nonzero(c) + 1)
    }
}

/// Values written in rows of `n`, separated by spaces, each row ended by a
/// newline and all but the first preceded by `lead`.
pub open spec fn rows_text(data: Seq<Seq<char>>, n: nat, lead: Seq<char>, first: bool) -> Seq<char>
    decreases data.len(),
{
    if data.len() == 0 || n == 0 {
        Seq::empty()
    } else if data.len() <= n {
        (if first { Seq::empty() } else { lead }) + join_spec(data, " "@) + "\n"@
    } else {
        (if first { Seq::empty() } else { lead }) + join_spec(data.take(n as int), " "@) + "\n"@ + rows_text(
            data.skip(n as int),
            n,
            lead,
            false,
        )
    }
}

/// The libmol text of a shell of an element.
pub open spec fn libmol_shell(z: i32, name: Seq<char>, cont: Seq<char>, sh: ShellV) -> Seq<char> {
    upper_str(sym_spec(z as int)) + " "@ + amint_to_char_spec(sh.am, false) + " "@ + name + " : "@ + nat_digits(
        sh.exponents.len(),
    ) + " "@ + nat_digits(sh.coefficients.len()) + ranges_text(sh.coefficients) + "\n"@ + name_spec(z as int)
        + " "@ + cont + " converted by Basis Set Exchange\n"@ + rows_text(
        sh.exponents + trimmed_coefs(sh.coefficients),
        5,
        Seq::empty(),
        true,
    )
}

/// The libmol text of the first `n` shells of an element.
pub open spec fn libmol_shells(z: i32, name: Seq<char>, cont: Seq<char>, shells: Seq<ShellV>, n: nat) -> Seq<char>
    decreases n,
{
    if n == 0 {
        Seq::empty()
    } else {
        libmol_shells(z, name, cont, shells, (n - 1) as nat) + libmol_shell(z, name, cont, shells[n - 1])
    }
}

/// The electron basis of the first `n` elements.
pub open spec fn libmol_electrons(name: Seq<char>, elems: Seq<(i32, ElementV)>, n: nat) -> Seq<char>
    decreases n,
{
    if n == 0 {
        Seq::empty()
    } else {
        let (z, e) = elems[n - 1];
        libmol_electrons(name, elems, (n - 1) as nat) + match e.shells {
            Some(s) => libmol_shells(z, name, contraction_spec(s, false, false), s, s.len()),
            None => Seq::empty(),
        }
    }
}

/// The data of a potential: power of r, exponent and coefficient for each
/// term.
pub open spec fn pot_terms(p: PotentialV) -> Seq<Seq<char>> {
    Seq::new(
        3 * p.r_exponents.len(),
        |k: int|
            if k % 3 == 0 {
                int_text(p.r_exponents[k / 3] as int)
            } else if k % 3 == 1 {
                p.gaussian_exponents[k / 3]
            } else {
                p.coefficients[0][k / 3]
            },
    )
}

/// The number of data of a list of potentials.
pub open spec fn num_data(pots: Seq<PotentialV>) -> nat
    decreases pots.len(),
{
    if pots.len() == 0 {
        0
    } else {
        num_data(pots.drop_last()) + 3 * pots.last().r_exponents.len() + 1
    }
}

/// The libmol text of the potentials, each with its number of terms and its
/// data in rows of six.
pub open spec fn libmol_pots(pots: Seq<PotentialV>, n: nat) -> Seq<char>
    decreases n,
{
    if n == 0 {
        Seq::empty()
    } else {
        let p = pots[n - 1];
        libmol_pots(pots, (n - 1) as nat) + nat_digits(p.r_exponents.len()) + " "@ + rows_text(
            pot_terms(p),
            6,
            "  "@,
            true,
        )
    }
}

/// The ECP block of an element.
pub open spec fn libmol_ecp_element(name: Seq<char>, z: i32, e: ElementV) -> Seq<char> {
    let pots = e.potentials->0;
    let ordered = ecp_order(pots);
    sym_spec(z as int) + " ECP : "@ + int_text(e.ecp_electrons->0 as int) + " "@ + int_text(
        max_first_am(pots) as int,
    ) + " 0 "@ + nat_digits(num_data(ordered)) + "\n"@ + "ECP for "@ + name + " converted by Basis Set Exchange\n"@
        + libmol_pots(ordered, ordered.len())
}

/// The ECP blocks of the first `n` elements.
pub open spec fn libmol_ecps(name: Seq<char>, elems: Seq<(i32, ElementV)>, n: nat) -> Seq<char>
    decreases n,
{
    if n == 0 {
        Seq::empty()
    } else {
        let (z, e) = elems[n - 1];
        libmol_ecps(name, elems, (n - 1) as nat) + if e.potentials is Some {
            libmol_ecp_element(name, z, e)
        } else {
            Seq::empty()
        }
    }
}

/// Some element has shells.
pub open spec fn has_shells(elems: Seq<(i32, ElementV)>) -> bool {
    exists|i: int| 0 <= i < elems.len() && (#[trigger] elems[i]).1.shells is Some
}

/// The libmol text of a basis set.
pub open spec fn libmol_text(name: Seq<char>, function_types: Seq<Seq<char>>, elems: Seq<(i32, ElementV)>) -> Seq<char> {
    (if function_types.contains("gto_cartesian"@) {
        "cartesian"@
    } else {
        "spherical"@
    }) + "\n"@ + (if has_shells(elems) {
        "basis={\n"@ + libmol_electrons(name, elems, elems.len())
    } else {
        Seq::empty()
    }) + (if has_ecp(elems) {
        "\n\n! Effective core Potentials\n"@ + libmol_ecps(name, elems, elems.len())
    } else {
        Seq::empty()
    })
}

/// A shell can be written: letters for its angular momenta and a nonzero
/// value in each contraction.
pub open spec fn libmol_shell_ok(sh: ShellV) -> bool {
    &&& am_in_range(sh.am)
    &&& forall|g: int| 0 <= g < sh.coefficients.len() ==> has_nonzero(#[trigger] sh.coefficients[g])
}

/// A potential can be written: a first angular momentum with a letter, and
/// an exponent and a first coefficient for each power of r.
pub open spec fn libmol_pot_ok(p: PotentialV) -> bool {
    &&& p.am.len() > 0
    &&& am_in_range(p.am)
    &&& p.gaussian_exponents.len() >= p.r_exponents.len()
    &&& p.coefficients.len() > 0
    &&& p.coefficients[0].len() >= p.r_exponents.len()
}

/// What writing a basis set in the libmol format needs.
pub open spec fn libmol_ok(elems: Seq<(i32, ElementV)>) -> bool {
    forall|i: int|
        0 <= i < elems.len() ==> {
            let (z, e) = #[trigger] elems[i];
            &&& (e.shells is Some || e.potentials is Some) ==> 1 <= z <= 118
            &&& e.shells is Some ==> contraction_ok(e.shells->0)
            &&& e.shells is Some ==> forall|k: int|
                0 <= k < e.shells->0.len() ==> libmol_shell_ok(#[trigger] e.shells->0[k])
            &&& e.potentials is Some ==> e.ecp_electrons is Some && e.potentials->0.len() > 0
            &&& e.potentials is Some ==> num_data(ecp_order(e.potentials->0)) <= usize::MAX
            &&& e.potentials is Some ==> forall|k: int|
                0 <= k < e.potentials->0.len() ==> libmol_pot_ok(#[trigger] e.potentials->0[k])
        }
}

proof fn lemma_rows_step(data: Seq<Seq<char>>, n: nat, lead: Seq<char>, first: bool)
    requires
        n > 0,
        data.len() > 0,
    ensures
        rows_text(data, n, lead, first) == (if first { Seq::empty() } else { lead }) + join_spec(
            data.take(if data.len() <= n { data.len() as int } else { n as int }),
            " "@,
        ) + "\n"@ + rows_text(data.skip(if data.len() <= n { data.len() as int } else { n as int }), n, lead, false),
{
    if data.len() <= n {
        assert(data.take(data.len() as int) =~= data);
        assert(data.skip(data.len() as int).len() == 0);
    }
}

/// Append values in rows of `n`.
fn push_rows(out: &mut String, data: &Vec<String>, n: usize, lead: &str)
    requires
        n > 0,
    ensures
        final(out)@ == old(out)@ + rows_text(data.deep_view(), n as nat, lead@, true),
{
    let ghost base = old(out)@;
    let ghost dv = data.deep_view();
    let mut start: usize = 0;
    assert(dv.skip(0) =~= dv);
    while start < data.len()
        invariant
            start <= data@.len(),
            dv == data.deep_view(),
            n > 0,
            out@ + rows_text(dv.skip(start as int), n as nat, lead@, start == 0) == base + rows_text(
                dv,
                n as nat,
                lead@,
                true,
            ),
        decreases data.len() - start,
    {
        let end = if data.len() - start <= n {
            data.len()
        } else {
            start + n
        };
        let ghost rest = dv.skip(start as int);
        proof {
            lemma_rows_step(rest, n as nat, lead@, start == 0);
        }
        let chunk = copy_range(data, start, end);
        assert(chunk.deep_view() =~= rest.take((end - start) as int));
        if start > 0 {
            crate::text::push_str(out, lead);
        }
        let j = crate::text::join(&chunk, " ");
        crate::text::push_str(out, j.as_str());
        crate::text::push_str(out, "\n");
        assert(rest.skip((end - start) as int) =~= dv.skip(end as int));
        start = end;
    }
    assert(dv.skip(data@.len() as int).len() == 0);
    assert(out@ =~= base + rows_text(dv, n as nat, lead@, true));
}

/// A copy of the strings from position `a` up to `b`.
pub(crate) fn copy_range(v: &Vec<String>, a: usize, b: usize) -> (r: Vec<String>)
    requires
        a <= b <= v@.len(),
    ensures
        r.deep_view() == v.deep_view().subrange(a as int, b as int),
{
    let mut r: Vec<String> = Vec::new();
    let mut k: usize = a;
    while k < b
        invariant
            a <= k <= b <= v@.len(),
            r.len() == k - a,
            forall|t: int| 0 <= t < r.len() ==> #[trigger] r@[t]@ == v@[a + t]@,
        decreases b - k,
    {
        r.push(v[k].clone());
        k = k + 1;
    }
    assert(r.deep_view() =~= v.deep_view().subrange(a as int, b as int));
    r
}

/// Append a list of strings to another.
fn append_strings(v: &mut Vec<String>, w: Vec<String>)
    ensures
        final(v).deep_view() == old(v).deep_view() + w.deep_view(),
{
    let ghost start = v.deep_view();
    let ghost wv = w.deep_view();
    let mut k: usize = 0;
    while k < w.len()
        invariant
            k <= w@.len(),
            wv == w.deep_view(),
            v.deep_view() =~= start + wv.take(k as int),
        decreases w.len() - k,
    {
        let ghost before = v.deep_view();
        v.push(w[k].clone());
        assert(v.deep_view() =~= before.push(wv[k as int]));
        k = k + 1;
    }
    assert(wv.take(w@.len() as int) =~= wv);
}

pub(crate) proof fn lemma_range_is_nonzero_range(c: Seq<Seq<char>>, a: int, b: int)
    requires
        0 <= a <= b < c.len(),
        !num_is_zero(c[a]),
        !num_is_zero(c[b]),
        forall|i: int| 0 <= i < a ==> num_is_zero(#[trigger] c[i]),
        forall|i: int| b < i < c.len() ==> num_is_zero(#[trigger] c[i]),
    ensures
        first_nonzero(c) == a,
        last_nonzero(c) == b,
{
    reveal(first_nonzero);
    reveal(last_nonzero);
    let f = first_nonzero(c);
    assert(0 <= a < c.len() && !num_is_zero(c[a]) && forall|j: int| 0 <= j < a ==> num_is_zero(#[trigger] c[j]));
    if f < a {
        assert(num_is_zero(c[f]));
    }
    if f > a {
        assert(num_is_zero(c[a]));
    }
    let l = last_nonzero(c);
    assert(0 <= b < c.len() && !num_is_zero(c[b]) && forall|j: int| b < j < c.len() ==> num_is_zero(#[trigger] c[j]));
    if l > b {
        assert(num_is_zero(c[l]));
    }
    if l < b {
        assert(num_is_zero(c[b]));
    }
}

/// The nonzero ranges of the contractions of a shell and the data that
/// goes with them: the exponents, then the nonzero range of each
/// contraction.
fn shell_ranges(sh: &BseElectronShell) -> (r: (String, Vec<String>))
    requires
        libmol_shell_ok(sh@),
    ensures
        r.0@ == ranges_text(sh@.coefficients),
        r.1.deep_view() == sh@.exponents + trimmed_coefs(sh@.coefficients),
{
    let mut ranges = String::new();
    let mut data = crate::fields::copy_strings(&sh.exponents);
    let ghost cv = sh@.coefficients;
    let mut g: usize = 0;
    while g < sh.coefficients.len()
        invariant
            g <= sh.coefficients@.len(),
            cv == sh@.coefficients,
            libmol_shell_ok(sh@),
            ranges@ == ranges_text(cv.take(g as int)),
            data.deep_view() == sh@.exponents + trimmed_coefs(cv.take(g as int)),
        decreases sh.coefficients.len() - g,
    {
        let c = &sh.coefficients[g];
        assert(c.deep_view() == cv[g as int]);
        assert(has_nonzero(cv[g as int]));
        let (a, b) = crate::misc::find_range(c.as_slice());
        proof {
            lemma_range_is_nonzero_range(cv[g as int], a as int, b as int);
        }
        assert(cv.take(g + 1).drop_last() =~= cv.take(g as int));
        assert(cv.take(g + 1).last() == cv[g as int]);
        crate::text::push_str(&mut ranges, " ");
        let cl = c.len();
        assert(a <= b && b < cl);
        let t1 = crate::text::usize_text(a + 1);
        crate::text::push_str(&mut ranges, t1.as_str());
        crate::text::push_str(&mut ranges, ".");
        let t2 = crate::text::usize_text(b + 1);
        crate::text::push_str(&mut ranges, t2.as_str());
        let ghost before = data.deep_view();
        let piece = copy_range(c, a, b + 1);
        append_strings(&mut data, piece);
        assert(data.deep_view() == before + cv[g as int].subrange(a as int, b + 1));
        assert(data.deep_view() =~= sh@.exponents + trimmed_coefs(cv.take(g + 1)));
        g = g + 1;
    }
    assert(cv.take(sh.coefficients@.len() as int) =~= cv);
    (ranges, data)
}

/// The first line of a shell in libmol.
pub open spec fn libmol_shell_head(z: i32, name: Seq<char>, sh: ShellV) -> Seq<char> {
    upper_str(sym_spec(z as int)) + " "@ + amint_to_char_spec(sh.am, false) + " "@ + name + " : "@ + nat_digits(
        sh.exponents.len(),
    ) + " "@ + nat_digits(sh.coefficients.len())
}

fn push_libmol_head(out: &mut String, z: i32, name: &str, sh: &BseElectronShell)
    requires
        1 <= z <= 118,
        am_in_range(sh@.am),
    ensures
        final(out)@ == old(out)@ + libmol_shell_head(z, name@, sh@),
{
    let ghost start = out@;
    let sym = match crate::lut::element_sym_from_Z(z) {
        Some(t) => t,
        None => "",
    };
    let up = crate::writers::g94::upper(sym);
    let amc = crate::lut::amint_to_char(sh.angular_momentum.as_slice(), false);
    crate::text::push_str(out, up.as_str());
    crate::text::push_str(out, " ");
    crate::text::push_str(out, amc.as_str());
    crate::text::push_str(out, " ");
    crate::text::push_str(out, name);
    crate::text::push_str(out, " : ");
    let t = crate::text::usize_text(sh.exponents.len());
    crate::text::push_str(out, t.as_str());
    crate::text::push_str(out, " ");
    let t2 = crate::text::usize_text(sh.coefficients.len());
    crate::text::push_str(out, t2.as_str());
    assert(out@ =~= start + libmol_shell_head(z, name@, sh@));
}

/// The libmol text of one shell.
fn push_libmol_shell(out: &mut String, z: i32, name: &str, cont: &str, sh: &BseElectronShell)
    requires
        1 <= z <= 118,
        libmol_shell_ok(sh@),
    ensures
        final(out)@ == old(out)@ + libmol_shell(z, name@, cont@, sh@),
{
    let ghost start = out@;
    let el = match crate::lut::element_name_from_Z(z) {
        Some(t) => t,
        None => "",
    };
    let (ranges, data) = shell_ranges(sh);
    push_libmol_head(out, z, name, sh);
    let ghost a = out@;
    crate::text::push_str(out, ranges.as_str());
    crate::text::push_str(out, "\n");
    crate::text::push_str(out, el);
    crate::text::push_str(out, " ");
    crate::text::push_str(out, cont);
    crate::text::push_str(out, " converted by Basis Set Exchange\n");
    let ghost b = out@;
    assert(el@ == name_spec(z as int));
    assert(b =~= a + ranges_text(sh@.coefficients) + "\n"@ + name_spec(z as int) + " "@ + cont@
        + " converted by Basis Set Exchange\n"@);
    push_rows(out, &data, 5, "");
    proof {
        reveal_strlit("");
    }
    assert(""@ =~= Seq::<char>::empty());
    assert(libmol_shell(z, name@, cont@, sh@) =~= libmol_shell_head(z, name@, sh@) + ranges_text(sh@.coefficients)
        + "\n"@ + name_spec(z as int) + " "@ + cont@ + " converted by Basis Set Exchange\n"@ + rows_text(
        sh@.exponents + trimmed_coefs(sh@.coefficients),
        5,
        Seq::empty(),
        true,
    ));
    assert(out@ =~= start + libmol_shell(z, name@, cont@, sh@));
}

/// The data of a potential.
fn pot_terms_exec(p: &BseEcpPotential) -> (r: Vec<String>)
    requires
        libmol_pot_ok(p@),
    ensures
        r.deep_view() == pot_terms(p@),
{
    let mut r: Vec<String> = Vec::new();
    let mut i: usize = 0;
    while i < p.r_exponents.len()
        invariant
            i <= p.r_exponents@.len(),
            libmol_pot_ok(p@),
            r.deep_view() =~= pot_terms(p@).take((3 * i) as int),
        decreases p.r_exponents.len() - i,
    {
        assert(p.gaussian_exponents@[i as int]@ == p@.gaussian_exponents[i as int]);
        assert(p.coefficients@[0]@[i as int]@ == p@.coefficients[0][i as int]);
        let ghost r0 = r.deep_view();
        r.push(crate::text::i32_text(p.r_exponents[i]));
        let ghost r1 = r.deep_view();
        assert(r1 =~= r0.push(int_text(p@.r_exponents[i as int] as int)));
        r.push(p.gaussian_exponents[i].clone());
        let ghost r2 = r.deep_view();
        assert(r2 =~= r1.push(p@.gaussian_exponents[i as int]));
        r.push(p.coefficients[0][i].clone());
        assert(r.deep_view() =~= r2.push(p@.coefficients[0][i as int]));
        proof {
            let t = pot_terms(p@);
            assert((3 * i) % 3 == 0 && (3 * i) / 3 == i) by (nonlinear_arith);
            assert((3 * i + 1) % 3 == 1 && (3 * i + 1) / 3 == i) by (nonlinear_arith);
            assert((3 * i + 2) % 3 == 2 && (3 * i + 2) / 3 == i) by (nonlinear_arith);
            assert(t[3 * i] == int_text(p@.r_exponents[i as int] as int));
            assert(t[3 * i + 1] == p@.gaussian_exponents[i as int]);
            assert(t[3 * i + 2] == p@.coefficients[0][i as int]);
        }
        i = i + 1;
    }
    assert(pot_terms(p@).take((3 * p.r_exponents@.len()) as int) =~= pot_terms(p@));
    r
}

/// The libmol text of the shells of an element.
fn push_libmol_shells(out: &mut String, z: i32, name: &str, shells: &Vec<BseElectronShell>)
    requires
        1 <= z <= 118,
        contraction_ok(shells_view(shells@)),
        forall|k: int| 0 <= k < shells@.len() ==> libmol_shell_ok(#[trigger] shells_view(shells@)[k]),
    ensures
        final(out)@ == old(out)@ + libmol_shells(
            z,
            name@,
            contraction_spec(shells_view(shells@), false, false),
            shells_view(shells@),
            shells@.len(),
        ),
{
    let ghost start = out@;
    let ghost sv = shells_view(shells@);
    let cont = crate::misc::contraction_string(shells.as_slice(), false, false);
    let mut k: usize = 0;
    while k < shells.len()
        invariant
            k <= shells@.len(),
            1 <= z <= 118,
            sv == shells_view(shells@),
            cont@ == contraction_spec(sv, false, false),
            forall|j: int| 0 <= j < sv.len() ==> libmol_shell_ok(#[trigger] sv[j]),
            out@ == start + libmol_shells(z, name@, cont@, sv, k as nat),
        decreases shells.len() - k,
    {
        assert(sv[k as int] == shells@[k as int]@);
        assert(libmol_shell_ok(sv[k as int]));
        push_libmol_shell(out, z, name, cont.as_str(), &shells[k]);
        k = k + 1;
    }
}

proof fn lemma_libmol_ok_at(elems: Seq<(i32, ElementV)>, i: int)
    requires
        libmol_ok(elems),
        0 <= i < elems.len(),
    ensures
        (elems[i].1.shells is Some || elems[i].1.potentials is Some) ==> 1 <= elems[i].0 <= 118,
        elems[i].1.shells is Some ==> contraction_ok(elems[i].1.shells->0),
        elems[i].1.shells is Some ==> forall|k: int|
            0 <= k < elems[i].1.shells->0.len() ==> libmol_shell_ok(#[trigger] elems[i].1.shells->0[k]),
        elems[i].1.potentials is Some ==> elems[i].1.ecp_electrons is Some && elems[i].1.potentials->0.len() > 0,
        elems[i].1.potentials is Some ==> num_data(ecp_order(elems[i].1.potentials->0)) <= usize::MAX,
        elems[i].1.potentials is Some ==> forall|k: int|
            0 <= k < elems[i].1.potentials->0.len() ==> libmol_pot_ok(#[trigger] elems[i].1.potentials->0[k]),
{
    let (z, e) = elems[i];
}

proof fn lemma_num_data_prefix(pots: Seq<PotentialV>, k: int)
    requires
        0 <= k <= pots.len(),
    ensures
        num_data(pots.take(k)) <= num_data(pots),
    decreases pots.len() - k,
{
    if k < pots.len() {
        lemma_num_data_prefix(pots, k + 1);
        assert(pots.take(k + 1).drop_last() =~= pots.take(k));
    } else {
        assert(pots.take(k) =~= pots);
    }
}

/// The number of data of a list of potentials.
fn num_data_exec(pots: &Vec<BseEcpPotential>) -> (r: usize)
    requires
        num_data(pots_view(pots@)) <= usize::MAX,
    ensures
        r == num_data(pots_view(pots@)),
{
    let ghost pv = pots_view(pots@);
    let mut n: usize = 0;
    let mut k: usize = 0;
    while k < pots.len()
        invariant
            k <= pots@.len(),
            pv == pots_view(pots@),
            num_data(pv) <= usize::MAX,
            n == num_data(pv.take(k as int)),
        decreases pots.len() - k,
    {
        assert(pv.take(k + 1).drop_last() =~= pv.take(k as int));
        assert(pv.take(k + 1).last() == pots@[k as int]@);
        proof {
            lemma_num_data_prefix(pv, k + 1);
        }
        n = n + 3 * pots[k].r_exponents.len() + 1;
        k = k + 1;
    }
    assert(pv.take(pots@.len() as int) =~= pv);
    n
}

/// The potentials of an element in libmol, in the order given.
fn push_libmol_pots(out: &mut String, pots: &Vec<BseEcpPotential>)
    requires
        forall|k: int| 0 <= k < pots@.len() ==> libmol_pot_ok(#[trigger] pots@[k]@),
    ensures
        final(out)@ == old(out)@ + libmol_pots(pots_view(pots@), pots@.len()),
{
    let ghost start = out@;
    let ghost pv = pots_view(pots@);
    let mut k: usize = 0;
    while k < pots.len()
        invariant
            k <= pots@.len(),
            pv == pots_view(pots@),
            forall|j: int| 0 <= j < pots@.len() ==> libmol_pot_ok(#[trigger] pots@[j]@),
            out@ == start + libmol_pots(pv, k as nat),
        decreases pots.len() - k,
    {
        let p = &pots[k];
        assert(pv[k as int] == p@);
        let t = crate::text::usize_text(p.r_exponents.len());
        crate::text::push_str(out, t.as_str());
        crate::text::push_str(out, " ");
        let terms = pot_terms_exec(p);
        push_rows(out, &terms, 6, "  ");
        proof {
            reveal_strlit("  ");
        }
        assert(out@ =~= start + libmol_pots(pv, (k + 1) as nat));
        k = k + 1;
    }
}

/// The ECP block of an element in libmol.
fn push_libmol_ecp(out: &mut String, name: &str, z: i32, pots: &Vec<BseEcpPotential>, ecp_electrons: i32)
    requires
        1 <= z <= 118,
        pots@.len() > 0,
        num_data(ecp_order(pots_view(pots@))) <= usize::MAX,
        forall|k: int| 0 <= k < pots@.len() ==> libmol_pot_ok(#[trigger] pots_view(pots@)[k]),
    ensures
        final(out)@ == old(out)@ + libmol_ecp_element(
            name@,
            z,
            ElementV { references: Seq::empty(), shells: None, potentials: Some(pots_view(pots@)), ecp_electrons: Some(ecp_electrons) },
        ),
{
    broadcast use vstd::seq_lib::group_to_multiset_ensures;

    let ghost start = out@;
    let ghost pv = pots_view(pots@);
    let sym = match crate::lut::element_sym_from_Z(z) {
        Some(t) => t,
        None => "",
    };
    proof {
        assert forall|k: int| 0 <= k < pv.len() implies (#[trigger] pv[k]).am.len() > 0 && am_in_range(pv[k].am) by {
            assert(libmol_pot_ok(pv[k]));
        }
        assert forall|k: int| 0 <= k < pots@.len() implies (#[trigger] pots@[k]).angular_momentum@.len() > 0 by {
            assert(pv[k] == pots@[k]@);
        }
    }
    let max_am = crate::writers::g94::max_first_am_exec(pots);
    let sorted = crate::sort::order_by_am(pots);
    proof {
        crate::sort::lemma_ecp_order_permutes(pv);
        let sv = pots_view(sorted@);
        assert forall|k: int| 0 <= k < sorted@.len() implies libmol_pot_ok(#[trigger] sorted@[k]@) by {
            assert(sv[k] == sorted@[k]@);
            assert(sv.contains(sv[k]));
            vstd::seq_lib::to_multiset_contains(sv, sv[k]);
            vstd::seq_lib::to_multiset_contains(pv, sv[k]);
            assert(pv.contains(sv[k]));
            let j = choose|j: int| 0 <= j < pv.len() && pv[j] == sv[k];
            assert(libmol_pot_ok(pv[j]));
        }
    }
    let nd = num_data_exec(&sorted);
    crate::text::push_str(out, sym);
    crate::text::push_str(out, " ECP : ");
    let t = crate::text::i32_text(ecp_electrons);
    crate::text::push_str(out, t.as_str());
    crate::text::push_str(out, " ");
    let t2 = crate::text::i32_text(max_am);
    crate::text::push_str(out, t2.as_str());
    crate::text::push_str(out, " 0 ");
    let t3 = crate::text::usize_text(nd);
    crate::text::push_str(out, t3.as_str());
    crate::text::push_str(out, "\n");
    crate::text::push_str(out, "ECP for ");
    crate::text::push_str(out, name);
    crate::text::push_str(out, " converted by Basis Set Exchange\n");
    push_libmol_pots(out, &sorted);
    assert(out@ =~= start + libmol_ecp_element(
        name@,
        z,
        ElementV { references: Seq::empty(), shells: None, potentials: Some(pv), ecp_electrons: Some(ecp_electrons) },
    ));
}

/// Write a basis set, prepared and with its shells in canonical order, in
/// the Molpro system library format: the harmonic type, the shells of each
/// element with their nonzero ranges and data in rows of five, then the
/// potentials of each element with ECP data in rows of six.
#[verifier::rlimit(40)]
pub fn write_libmol_sorted(basis: &BseBasis) -> (r: String)
    requires
        keys_increasing(basis.elements@),
        libmol_ok(elements_view(basis.elements@)),
    ensures
        r@ == libmol_text(basis.name@, basis.function_types.deep_view(), elements_view(basis.elements@)),
{
    let ghost ev = elements_view(basis.elements@);
    let cart = crate::text::chars_of("gto_cartesian");
    let mut out = if crate::formats::strings_contain(&basis.function_types, cart.as_slice()) {
        "cartesian".to_owned()
    } else {
        "spherical".to_owned()
    };
    crate::text::push_str(&mut out, "\n");
    let ghost head = out@;
    let mut any_shells = false;
    let mut any_ecp = false;
    let mut i: usize = 0;
    while i < basis.elements.len()
        invariant
            i <= basis.elements@.len(),
            ev == elements_view(basis.elements@),
            any_shells <==> exists|k: int| 0 <= k < i && (#[trigger] ev[k]).1.shells is Some,
            any_ecp <==> exists|k: int| 0 <= k < i && (#[trigger] ev[k]).1.potentials is Some,
        decreases basis.elements.len() - i,
    {
        assert(ev[i as int].1 == basis.elements@[i as int].1@);
        if basis.elements[i].1.electron_shells.is_some() {
            any_shells = true;
        }
        if basis.elements[i].1.ecp_potentials.is_some() {
            any_ecp = true;
        }
        i = i + 1;
    }
    assert(any_shells == has_shells(ev));
    assert(any_ecp == has_ecp(ev));
    if any_shells {
        crate::text::push_str(&mut out, "basis={\n");
        let ghost base = out@;
        let mut i: usize = 0;
        while i < basis.elements.len()
            invariant
                i <= basis.elements@.len(),
                ev == elements_view(basis.elements@),
                libmol_ok(ev),
                out@ == base + libmol_electrons(basis.name@, ev, i as nat),
            decreases basis.elements.len() - i,
        {
            proof {
                lemma_libmol_ok_at(ev, i as int);
            }
            let z = basis.elements[i].0;
            let el = &basis.elements[i].1;
            assert(ev[i as int] == (z, el@));
            match &el.electron_shells {
                Some(shells) => {
                    assert(el@.shells == Some(shells_view(shells@)));
                    assert(ev[i as int].1.shells->0 == shells_view(shells@));
                    push_libmol_shells(&mut out, z, basis.name.as_str(), shells);
                },
                None => {},
            }
            assert(out@ =~= base + libmol_electrons(basis.name@, ev, (i + 1) as nat));
            i = i + 1;
        }
    }
    let ghost mid = out@;
    if any_ecp {
        crate::text::push_str(&mut out, "\n\n! Effective core Potentials\n");
        let ghost base = out@;
        let mut i: usize = 0;
        while i < basis.elements.len()
            invariant
                i <= basis.elements@.len(),
                ev == elements_view(basis.elements@),
                libmol_ok(ev),
                out@ == base + libmol_ecps(basis.name@, ev, i as nat),
            decreases basis.elements.len() - i,
        {
            proof {
                lemma_libmol_ok_at(ev, i as int);
            }
            let z = basis.elements[i].0;
            let el = &basis.elements[i].1;
            assert(ev[i as int] == (z, el@));
            match &el.ecp_potentials {
                Some(pots) => {
                    let ghost pv = pots_view(pots@);
                    assert(el@.potentials == Some(pv));
                    assert(ev[i as int].1.potentials->0 == pv);
                    let ne = match el.ecp_electrons {
                        Some(n) => n,
                        None => 0,
                    };
                    push_libmol_ecp(&mut out, basis.name.as_str(), z, pots, ne);
                    assert(libmol_ecp_element(basis.name@, z, el@) == libmol_ecp_element(
                        basis.name@,
                        z,
                        ElementV { references: Seq::empty(), shells: None, potentials: Some(pv), ecp_electrons: Some(ne) },
                    ));
                },
                None => {},
            }
            assert(out@ =~= base + libmol_ecps(basis.name@, ev, (i + 1) as nat));
            i = i + 1;
        }
    }
    assert(out@ =~= libmol_text(basis.name@, basis.function_types.deep_view(), ev));
    out
}

/* #endregion */

} // verus!