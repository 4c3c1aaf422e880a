//! Pieces shared by the tables of reader and writer formats: lists of
//! names, case-insensitive comparison and extensions.
use crate::text::{chars_of, chars_eq, string_of};
use vstd::prelude::*;

verus! {

/// The characters of each string of a list.
pub open spec fn strs_view(v: Seq<&str>) -> Seq<Seq<char>> {
    v.map_values(|s: &str| s@)
}

/// The function types of Gaussian-type orbitals and scalar ECPs.
pub open spec fn types_all() -> Seq<Seq<char>> {
    seq!["gto"@, "gto_cartesian"@, "gto_spherical"@, "scalar_ecp"@]
}

/// The function types of Gaussian-type orbitals.
pub open spec fn types_no_ecp() -> Seq<Seq<char>> {
    seq!["gto"@, "gto_cartesian"@, "gto_spherical"@]
}

/// The function types of spherical Gaussian-type orbitals.
pub open spec fn types_spherical() -> Seq<Seq<char>> {
    seq!["gto"@, "gto_spherical"@]
}

pub(crate) fn types_all_vec() -> (r: Vec<&'static str>)
    ensures
        strs_view(r@) == types_all(),
{
    let r = vec!["gto", "gto_cartesian", "gto_spherical", "scalar_ecp"];
    assert(strs_view(r@) =~= types_all());
    r
}

pub(crate) fn types_no_ecp_vec() -> (r: Vec<&'static str>)
    ensures
        strs_view(r@) == types_no_ecp(),
{
    let r = vec!["gto", "gto_cartesian", "gto_spherical"];
    assert(strs_view(r@) =~= types_no_ecp());
    r
}

pub(crate) fn types_spherical_vec() -> (r: Vec<&'static str>)
    ensures
        strs_view(r@) == types_spherical(),
{
    let r = vec!["gto", "gto_spherical"];
    assert(strs_view(r@) =~= types_spherical());
    r
}

pub(crate) fn list1(a: &'static str) -> (r: Vec<&'static str>)
    ensures
        strs_view(r@) == seq![a@],
{
    let r = vec![a];
    assert(strs_view(r@) =~= seq![a@]);
    r
}

pub(crate) fn list2(a: &'static str, b: &'static str) -> (r: Vec<&'static str>)
    ensures
        strs_view(r@) == seq![a@, b@],
{
    let r = vec![a, b];
    assert(strs_view(r@) =~= seq![a@, b@]);
    r
}

pub(crate) fn list4(a: &'static str, b: &'static str, c: &'static str, d: &'static str) -> (r: Vec<&'static str>)
    ensures
        strs_view(r@) == seq![a@, b@, c@, d@],
{
    let r = vec![a, b, c, d];
    assert(strs_view(r@) =~= seq![a@, b@, c@, d@]);
    r
}

pub(crate) fn list5(a: &'static str, b: &'static str, c: &'static str, d: &'static str, e: &'static str) -> (r: Vec<&'static str>)
    ensures
        strs_view(r@) == seq![a@, b@, c@, d@, e@],
{
    let r = vec![a, b, c, d, e];
    assert(strs_view(r@) =~= seq![a@, b@, c@, d@, e@]);
    r
}

/// Whether a list of names holds `key`.
pub(crate) fn names_contain(names: &Vec<&'static str>, key: &[char]) -> (r: bool)
    ensures
        r == strs_view(names@).contains(key@),
{
    let mut k: usize = 0;
    while k < names.len()
        invariant
            k <= names@.len(),
            forall|t: int| 0 <= t < k ==> #[trigger] strs_view(names@)[t] != key@,
        decreases names.len() - k,
    {
        let c = chars_of(names[k]);
        if chars_eq(c.as_slice(), key) {
            assert(strs_view(names@)[k as int] == key@);
            return true;
        }
        k = k + 1;
    }
    false
}

/// Whether a list of strings holds `key`.
pub(crate) fn strings_contain(names: &Vec<String>, key: &[char]) -> (r: bool)
    ensures
        r == names.deep_view().contains(key@),
{
    let mut k: usize = 0;
    while k < names.len()
        invariant
            k <= names@.len(),
            forall|t: int| 0 <= t < k ==> #[trigger] names.deep_view()[t] != key@,
        decreases names.len() - k,
    {
        let c = chars_of(names[k].as_str());
        if chars_eq(c.as_slice(), key) {
            assert(names.deep_view()[k as int] == key@);
            return true;
        }
        k = k + 1;
    }
    false
}

/// Two strings are equal up to the case of ASCII letters.
pub open spec fn ascii_ci_eq(a: Seq<char>, b: Seq<char>) -> bool {
    a.len() == b.len() && forall|i: int|
        0 <= i < a.len() ==> crate::lut::lower_ascii(#[trigger] a[i]) == crate::lut::lower_ascii(b[i])
}

/// Whether two strings are equal up to the case of ASCII letters.
pub(crate) fn eq_ignore_ascii_case(a: &str, b: &str) -> (r: bool)
    ensures
        r == ascii_ci_eq(a@, b@),
{
    let x = chars_of(a);
    let y = chars_of(b);
    if x.len() != y.len() {
        return false;
    }
    let mut i: usize = 0;
    while i < x.len()
        invariant
            i <= x@.len(),
            x@.len() == y@.len(),
            x@ == a@,
            y@ == b@,
            forall|t: int| 0 <= t < i ==> crate::lut::lower_ascii(#[trigger] x@[t]) == crate::lut::lower_ascii(y@[t]),
        decreases x.len() - i,
    {
        if crate::lut::to_lower_ascii(x[i]) != crate::lut::to_lower_ascii(y[i]) {
            return false;
        }
        i = i + 1;
    }
    true
}

/// Whether a list of names holds one equal to `name` up to ASCII case.
pub(crate) fn any_ascii_ci(names: &Vec<&'static str>, name: &str) -> (r: bool)
    ensures
        r == exists|t: int| 0 <= t < names@.len() && ascii_ci_eq(#[trigger] names@[t]@, name@),
{
    let mut k: usize = 0;
    while k < names.len()
        invariant
            k <= names@.len(),
            forall|t: int| 0 <= t < k ==> !ascii_ci_eq(#[trigger] names@[t]@, name@),
        decreases names.len() - k,
    {
        if eq_ignore_ascii_case(names[k], name) {
            return true;
        }
        k = k + 1;
    }
    false
}

/// The number of leading dots of a string.
pub open spec fn lead_dots(s: Seq<char>) -> nat
    decreases s.len(),
{
    if s.len() > 0 && s[0] == '.' {
        1 + lead_dots(s.drop_first())
    } else {
        0
    }
}

/// A string without its leading dots.
pub open spec fn trim_dots(s: Seq<char>) -> Seq<char> {
    s.skip(lead_dots(s) as int)
}

proof fn lemma_lead_dots(s: Seq<char>, k: int)
    requires
        0 <= k <= s.len(),
        forall|j: int| 0 <= j < k ==> #[trigger] s[j] == '.',
        k == s.len() || s[k] != '.',
    ensures
        lead_dots(s) == k,
    decreases k,
{
    if k > 0 {
        lemma_lead_dots(s.drop_first(), k - 1);
    }
}

/// A string without its leading dots (`trim_start_matches('.')`).
pub(crate) fn trim_leading_dots(s: &str) -> (r: String)
    ensures
        r@ == trim_dots(s@),
{
    let v = chars_of(s);
    let mut k: usize = 0;
    while k < v.len() && v[k] == '.'
        invariant
            k <= v@.len(),
            v@ == s@,
            forall|j: int| 0 <= j < k ==> #[trigger] v@[j] == '.',
        decreases v.len() - k,
    {
        k = k + 1;
    }
    proof {
        lemma_lead_dots(s@, k as int);
    }
    let mut rest: Vec<char> = Vec::new();
    let mut j: usize = k;
    while j < v.len()
        invariant
            k <= j <= v@.len(),
            v@ == s@,
            rest@ =~= s@.subrange(k as int, j as int),
        decreases v.len() - j,
    {
        rest.push(v[j]);
        j = j + 1;
    }
    string_of(rest.as_slice())
}

/// The characters of each string of an optional list.
pub open spec fn opt_strings(o: Option<Vec<String>>) -> Option<Seq<Seq<char>>> {
    match o {
        Some(v) => Some(v.deep_view()),
        None => None,
    }
}

/// Every type of `fts`, lowercased, is among the `valid` ones.
pub open spec fn types_supported(valid: Seq<Seq<char>>, fts: Seq<Seq<char>>) -> bool {
    forall|i: int| 0 <= i < fts.len() ==> valid.contains(crate::text::lowercase_of(#[trigger] fts[i]))
}

/// The lowercase form of each string of a list.
pub(crate) fn lowercase_all(v: &Vec<String>) -> (r: Vec<Vec<char>>)
    ensures
        r@.len() == v@.len(),
        forall|i: int| 0 <= i < v@.len() ==> (#[trigger] r@[i])@ == crate::text::lowercase_of(v@[i]@),
{
    let mut r: Vec<Vec<char>> = Vec::new();
    let mut k: usize = 0;
    while k < v.len()
        invariant
            k <= v@.len(),
            r@.len() == k,
            forall|i: int| 0 <= i < k ==> (#[trigger] r@[i])@ == crate::text::lowercase_of(v@[i]@),
        decreases v.len() - k,
    {
        let low = crate::text::to_lowercase(v[k].as_str());
        r.push(chars_of(low.as_str()));
        k = k + 1;
    }
    r
}

/// Whether every lowercased type is among the valid ones.
pub(crate) fn all_supported(valid: &Vec<&'static str>, lows: &Vec<Vec<char>>, fts: Ghost<Seq<Seq<char>>>) -> (r: bool)
    requires
        lows@.len() == fts@.len(),
        forall|i: int| 0 <= i < fts@.len() ==> (#[trigger] lows@[i])@ == crate::text::lowercase_of(fts@[i]),
    ensures
        r == types_supported(strs_view(valid@), fts@),
{
    let mut k: usize = 0;
    while k < lows.len()
        invariant
            k <= lows@.len(),
            lows@.len() == fts@.len(),
            forall|i: int| 0 <= i < fts@.len() ==> (#[trigger] lows@[i])@ == crate::text::lowercase_of(fts@[i]),
            forall|i: int| 0 <= i < k ==> strs_view(valid@).contains(crate::text::lowercase_of(#[trigger] fts@[i])),
        decreases lows.len() - k,
    {
        if !names_contain(valid, lows[k].as_slice()) {
            assert(!strs_view(valid@).contains(crate::text::lowercase_of(fts@[k as int])));
            return false;
        }
        k = k + 1;
    }
    true
}

} // verus!
