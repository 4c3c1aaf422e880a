//! Decimal numerals, as exponents and coefficients are stored.
//!
//! A numeral is an optional sign, a mantissa of digits with at most one
//! decimal point, and an optional exponent part (`e` or `E`, an optional
//! sign, then one to eighteen digits). Two numerals are compared by the
//! exact decimal values they denote.
use crate::text::{all_digits, digits_value, is_digit};
use vstd::prelude::*;

verus! {

/// Exponent marker.
pub open spec fn is_e(c: char) -> bool {
    c == 'e' || c == 'E'
}

/// Index of the first exponent marker at or after `i`, or the length.
pub open spec fn epos_from(s: Seq<char>, i: int) -> int
    decreases s.len() - i,
{
    if i >= s.len() {
        s.len() as int
    } else if is_e(s[i]) {
        i
    } else {
        epos_from(s, i + 1)
    }
}

/// Length of the leading sign (0 or 1).
pub open spec fn sign_len(s: Seq<char>) -> int {
    if s.len() > 0 && (s[0] == '+' || s[0] == '-') {
        1
    } else {
        0
    }
}

/// Whether the numeral is negative (a leading minus).
pub open spec fn is_neg(s: Seq<char>) -> bool {
    s.len() > 0 && s[0] == '-'
}

/// Index where the exponent marker stands, or the length.
pub open spec fn epos(s: Seq<char>) -> int {
    epos_from(s, sign_len(s))
}

/// Mantissa: between the sign and the exponent marker.
pub open spec fn mantissa(s: Seq<char>) -> Seq<char> {
    s.subrange(sign_len(s), epos(s))
}

/// Exponent part after the marker (empty without one).
pub open spec fn exp_part(s: Seq<char>) -> Seq<char> {
    if epos(s) < s.len() {
        s.subrange(epos(s) + 1, s.len() as int)
    } else {
        Seq::empty()
    }
}

/// Index of the decimal point at or after `i`, or the length.
pub open spec fn dot_from(m: Seq<char>, i: int) -> int
    decreases m.len() - i,
{
    if i >= m.len() {
        m.len() as int
    } else if m[i] == '.' {
        i
    } else {
        dot_from(m, i + 1)
    }
}

/// Index of the decimal point of a mantissa, or its length.
pub open spec fn dot(m: Seq<char>) -> int {
    dot_from(m, 0)
}

/// The digits of a mantissa, without the decimal point.
pub open spec fn mdigits(m: Seq<char>) -> Seq<char> {
    if dot(m) < m.len() {
        m.subrange(0, dot(m)) + m.subrange(dot(m) + 1, m.len() as int)
    } else {
        m
    }
}

/// A mantissa: digits with at most one decimal point, at least one digit.
pub open spec fn valid_mantissa(m: Seq<char>) -> bool {
    &&& all_digits(mdigits(m))
    &&& mdigits(m).len() >= 1
}

/// An exponent part: an optional sign, then one to eighteen digits.
pub open spec fn valid_exp(x: Seq<char>) -> bool {
    let d = x.subrange(sign_len(x), x.len() as int);
    1 <= d.len() <= 18 && all_digits(d)
}

/// Whether `s` is a numeral.
pub open spec fn is_numeral(s: Seq<char>) -> bool {
    &&& sign_len(s) <= epos(s)
    &&& valid_mantissa(mantissa(s))
    &&& (epos(s) < s.len() ==> valid_exp(exp_part(s)))
}

/// Value of the exponent part (0 without one).
pub open spec fn exp_value(s: Seq<char>) -> int {
    let x = exp_part(s);
    if x.len() == 0 {
        0
    } else {
        let v = digits_value(x.subrange(sign_len(x), x.len() as int)) as int;
        if x[0] == '-' {
            -v
        } else {
            v
        }
    }
}

/// Number of leading zero digits.
pub open spec fn lead_zeros(d: Seq<char>) -> nat
    decreases d.len(),
{
    if d.len() > 0 && d[0] == '0' {
        1 + lead_zeros(d.drop_first())
    } else {
        0
    }
}

/// Number of trailing zero digits.
pub open spec fn trail_zeros(d: Seq<char>) -> nat
    decreases d.len(),
{
    if d.len() > 0 && d.last() == '0' {
        1 + trail_zeros(d.drop_last())
    } else {
        0
    }
}

/// Whether the numeral denotes zero: its mantissa digits are all `0`.
pub open spec fn num_is_zero(s: Seq<char>) -> bool {
    lead_zeros(mdigits(mantissa(s))) == mdigits(mantissa(s)).len()
}

/// Significant digits of a nonzero numeral (no leading or trailing zeros).
pub open spec fn sig_digits(s: Seq<char>) -> Seq<char> {
    let d = mdigits(mantissa(s));
    d.subrange(lead_zeros(d) as int, d.len() - trail_zeros(d))
}

/// Decimal order of a nonzero numeral: its value is `0.{sig} × 10^order`.
pub open spec fn order(s: Seq<char>) -> int {
    let m = mantissa(s);
    dot(m) - lead_zeros(mdigits(m)) + exp_value(s)
}

/// Two numerals denote the same decimal value.
pub open spec fn same_value(a: Seq<char>, b: Seq<char>) -> bool {
    if num_is_zero(a) || num_is_zero(b) {
        num_is_zero(a) && num_is_zero(b)
    } else {
        is_neg(a) == is_neg(b) && sig_digits(a) == sig_digits(b) && order(a) == order(b)
    }
}

/// The parts of a numeral that decide its value.
pub struct NumParts {
    pub neg: bool,
    pub zero: bool,
    pub sig: Vec<char>,
    pub order: i128,
}

proof fn lemma_epos_from(s: Seq<char>, i: int, k: int)
    requires
        0 <= i <= k <= s.len(),
        forall|j: int| i <= j < k ==> !is_e(#[trigger] s[j]),
        k == s.len() || is_e(s[k]),
    ensures
        epos_from(s, i) == k,
    decreases k - i,
{
    if i < k {
        lemma_epos_from(s, i + 1, k);
    }
}

proof fn lemma_dot_from(m: Seq<char>, i: int, k: int)
    requires
        0 <= i <= k <= m.len(),
        forall|j: int| i <= j < k ==> #[trigger] m[j] != '.',
        k == m.len() || m[k] == '.',
    ensures
        dot_from(m, i) == k,
    decreases k - i,
{
    if i < k {
        lemma_dot_from(m, i + 1, k);
    }
}

proof fn lemma_lead_zeros(d: Seq<char>, k: int)
    requires
        0 <= k <= d.len(),
        forall|j: int| 0 <= j < k ==> #[trigger] d[j] == '0',
        k == d.len() || d[k] != '0',
    ensures
        lead_zeros(d) == k,
    decreases k,
{
    if k > 0 {
        lemma_lead_zeros(d.drop_first(), k - 1);
    }
}

proof fn lemma_trail_zeros(d: Seq<char>, k: int)
    requires
        0 <= k <= d.len(),
        forall|j: int| d.len() - k <= j < d.len() ==> #[trigger] d[j] == '0',
        k == d.len() || d[d.len() - k - 1] != '0',
    ensures
        trail_zeros(d) == k,
    decreases k,
{
    if k > 0 {
        lemma_trail_zeros(d.drop_last(), k - 1);
    }
}

proof fn lemma_digits_value_bound(d: Seq<char>)
    requires
        all_digits(d),
        d.len() <= 18,
    ensures
        digits_value(d) < 1000000000000000000,
{
    lemma_pow_bound(d);
    lemma_pow10_mono(d.len(), 18);
    assert(pow10(18) == 1000000000000000000) by {
        reveal_with_fuel(pow10, 19);
    }
}

proof fn lemma_pow10_mono(a: nat, b: nat)
    requires
        a <= b,
    ensures
        pow10(a) <= pow10(b),
    decreases b,
{
    if a < b {
        lemma_pow10_mono(a, (b - 1) as nat);
    }
}

proof fn lemma_pow_bound(d: Seq<char>)
    requires
        all_digits(d),
    ensures
        digits_value(d) < pow10(d.len()),
    decreases d.len(),
{
    if d.len() > 0 {
        let p = d.drop_last();
        assert(all_digits(p)) by {
            assert forall|i: int| 0 <= i < p.len() implies is_digit(#[trigger] p[i]) by {
                assert(p[i] == d[i]);
            }
        }
        lemma_pow_bound(p);
        let v = digits_value(p);
        let q = pow10(p.len());
        let dig = ((d.last() as u32) - ('0' as u32)) as nat;
        assert(is_digit(d[d.len() - 1]));
        assert(dig <= 9);
        assert(v * 10 + dig < q * 10) by (nonlinear_arith)
            requires
                v < q,
                dig <= 9,
        ;
    }
}

/// Ten to the power `n`.
pub open spec fn pow10(n: nat) -> nat
    decreases n,
{
    if n == 0 {
        1
    } else {
        10 * pow10((n - 1) as nat)
    }
}

/// Index of the first exponent marker at or after `from`.
fn find_epos(s: &[char], from: usize) -> (e: usize)
    requires
        from <= s@.len(),
    ensures
        e as int == epos_from(s@, from as int),
        from <= e <= s@.len(),
{
    let n = s.len();
    let mut e = from;
    while e < n && !(s[e] == 'e' || s[e] == 'E')
        invariant
            from <= e <= n,
            n == s@.len(),
            forall|j: int| from <= j < e ==> !is_e(#[trigger] s@[j]),
        decreases n - e,
    {
        e = e + 1;
    }
    proof {
        lemma_epos_from(s@, from as int, e as int);
    }
    e
}

/// Digits of the mantissa `s[lo..hi]` and the position of its point.
fn mantissa_digits(s: &[char], lo: usize, hi: usize) -> (r: (Option<Vec<char>>, usize))
    requires
        lo <= hi <= s@.len(),
    ensures
        lo <= r.1 <= hi,
        dot(s@.subrange(lo as int, hi as int)) == r.1 - lo,
        r.0 is Some <==> all_digits(mdigits(s@.subrange(lo as int, hi as int))),
        r.0 matches Some(v) ==> v@ == mdigits(s@.subrange(lo as int, hi as int)),
{
    let ghost m = s@.subrange(lo as int, hi as int);
    let mut d = lo;
    while d < hi && s[d] != '.'
        invariant
            lo <= d <= hi <= s@.len(),
            forall|j: int| lo <= j < d ==> #[trigger] s@[j] != '.',
        decreases hi - d,
    {
        d = d + 1;
    }
    proof {
        assert forall|j: int| 0 <= j < d - lo implies #[trigger] m[j] != '.' by {
            assert(m[j] == s@[lo + j]);
        }
        lemma_dot_from(m, 0, (d - lo) as int);
    }
    let ghost md = mdigits(m);
    assert(md =~= if d < hi { s@.subrange(lo as int, d as int) + s@.subrange(d + 1, hi as int) } else { s@.subrange(lo as int, hi as int) });
    let mut v: Vec<char> = Vec::new();
    let mut i = lo;
    while i < d
        invariant
            lo <= i <= d <= hi <= s@.len(),
            m == s@.subrange(lo as int, hi as int),
            dot(m) == d - lo,
            md == mdigits(m),
            md =~= if d < hi { s@.subrange(lo as int, d as int) + s@.subrange(d + 1, hi as int) } else { s@.subrange(lo as int, hi as int) },
            v@ =~= s@.subrange(lo as int, i as int),
            forall|j: int| 0 <= j < v@.len() ==> is_digit(#[trigger] v@[j]),
        decreases d - i,
    {
        if !('0' <= s[i] && s[i] <= '9') {
            proof {
                assert(md[i - lo] == s@[i as int]);
            }
            return (None, d);
        }
        v.push(s[i]);
        i = i + 1;
    }
    if d < hi {
        let mut k = d + 1;
        while k < hi
            invariant
                lo <= d < hi <= s@.len(),
                d + 1 <= k <= hi,
                m == s@.subrange(lo as int, hi as int),
                dot(m) == d - lo,
                md == mdigits(m),
                md =~= s@.subrange(lo as int, d as int) + s@.subrange(d + 1, hi as int),
                v@ =~= s@.subrange(lo as int, d as int) + s@.subrange(d + 1, k as int),
                forall|j: int| 0 <= j < v@.len() ==> is_digit(#[trigger] v@[j]),
            decreases hi - k,
        {
            if !('0' <= s[k] && s[k] <= '9') {
                proof {
                    assert(md[(d - lo) + (k - d - 1)] == s@[k as int]);
                }
                return (None, d);
            }
            v.push(s[k]);
            k = k + 1;
        }
    }
    assert(v@ =~= md);
    (Some(v), d)
}

/// Value of the exponent part `s[e+1..]`, when it is valid.
fn exponent_value(s: &[char], e: usize) -> (r: Option<i128>)
    requires
        e < s@.len(),
    ensures
        r is Some <==> valid_exp(s@.subrange(e + 1, s@.len() as int)),
        r matches Some(v) ==> {
            let x = s@.subrange(e + 1, s@.len() as int);
            let dv = digits_value(x.subrange(sign_len(x), x.len() as int)) as int;
            v as int == (if x[0] == '-' { -dv } else { dv })
        },
        r matches Some(v) ==> -1000000000000000000 < v < 1000000000000000000,
{
    let n = s.len();
    let xs: usize = if e + 1 < n && (s[e + 1] == '+' || s[e + 1] == '-') { e + 2 } else { e + 1 };
    let ghost x = s@.subrange(e + 1, n as int);
    let ghost xd = x.subrange(sign_len(x), x.len() as int);
    assert(xd =~= s@.subrange(xs as int, n as int));
    if n - xs < 1 || n - xs > 18 {
        return None;
    }
    let mut k = xs;
    let mut acc: i128 = 0;
    while k < n
        invariant
            xs <= k <= n,
            n == s@.len(),
            n - xs <= 18,
            x == s@.subrange(e + 1, n as int),
            xd == x.subrange(sign_len(x), x.len() as int),
            xd =~= s@.subrange(xs as int, n as int),
            forall|j: int| xs <= j < k ==> is_digit(#[trigger] s@[j]),
            acc as int == digits_value(xd.take(k - xs)),
            0 <= acc < 1000000000000000000,
        decreases n - k,
    {
        if !('0' <= s[k] && s[k] <= '9') {
            proof {
                assert(!is_digit(xd[k - xs]));
            }
            return None;
        }
        proof {
            assert(xd.take(k + 1 - xs).drop_last() =~= xd.take(k - xs));
            assert(all_digits(xd.take(k + 1 - xs))) by {
                assert forall|j: int| 0 <= j < k + 1 - xs implies is_digit(#[trigger] xd.take(k + 1 - xs)[j]) by {
                    assert(xd.take(k + 1 - xs)[j] == s@[xs + j]);
                }
            }
            lemma_digits_value_bound(xd.take(k + 1 - xs));
        }
        acc = acc * 10 + (s[k] as u32 - '0' as u32) as i128;
        k = k + 1;
    }
    proof {
        assert(xd.take(n - xs) =~= xd);
    }
    if s[e + 1] == '-' {
        Some(-acc)
    } else {
        Some(acc)
    }
}

/// Splits a numeral into the parts that decide its value; `None` when `s`
/// is not a numeral.
pub fn numeral_parts(s: &[char]) -> (r: Option<NumParts>)
    ensures
        r is Some <==> is_numeral(s@),
        r matches Some(p) ==> {
            &&& p.neg == is_neg(s@)
            &&& p.zero == num_is_zero(s@)
            &&& (!p.zero ==> p.sig@ == sig_digits(s@) && p.order as int == order(s@))
        },
{
    let n = s.len();
    let sl: usize = if n > 0 && (s[0] == '+' || s[0] == '-') { 1 } else { 0 };
    let e = find_epos(s, sl);
    let ghost m = mantissa(s@);
    assert(m =~= s@.subrange(sl as int, e as int));
    let (dg, d) = mantissa_digits(s, sl, e);
    let digits = match dg {
        Some(v) => v,
        None => {
            return None;
        },
    };
    if digits.len() == 0 {
        return None;
    }
    let mut ev: i128 = 0;
    if e < n {
        assert(exp_part(s@) =~= s@.subrange(e + 1, n as int));
        match exponent_value(s, e) {
            Some(v) => {
                ev = v;
            },
            None => {
                return None;
            },
        }
    }
    assert(is_numeral(s@));
    assert(ev as int == exp_value(s@));
    assert(-1000000000000000000 < ev < 1000000000000000000);
    let dn = digits.len();
    let mut lz: usize = 0;
    while lz < dn && digits[lz] == '0'
        invariant
            lz <= dn,
            dn == digits@.len(),
            forall|j: int| 0 <= j < lz ==> #[trigger] digits@[j] == '0',
        decreases dn - lz,
    {
        lz = lz + 1;
    }
    proof {
        lemma_lead_zeros(digits@, lz as int);
    }
    let neg = n > 0 && s[0] == '-';
    if lz == dn {
        return Some(NumParts { neg, zero: true, sig: Vec::new(), order: 0 });
    }
    let mut tz: usize = 0;
    while tz < dn && digits[dn - 1 - tz] == '0'
        invariant
            tz <= dn,
            dn == digits@.len(),
            forall|j: int| dn - tz <= j < dn ==> #[trigger] digits@[j] == '0',
        decreases dn - tz,
    {
        tz = tz + 1;
    }
    proof {
        lemma_trail_zeros(digits@, tz as int);
    }
    let mut sig: Vec<char> = Vec::new();
    let mut j = lz;
    while j < dn - tz
        invariant
            lz <= j <= dn - tz,
            tz <= dn,
            dn == digits@.len(),
            sig@ =~= digits@.subrange(lz as int, j as int),
        decreases dn - tz - j,
    {
        sig.push(digits[j]);
        j = j + 1;
    }
    let order: i128 = (d - sl) as i128 - lz as i128 + ev;
    Some(NumParts { neg, zero: false, sig, order })
}

/// Whether a numeral denotes zero.
pub fn is_zero_numeral(s: &str) -> (r: bool)
    requires
        is_numeral(s@),
    ensures
        r == num_is_zero(s@),
{
    let v = crate::text::chars_of(s);
    match numeral_parts(v.as_slice()) {
        Some(p) => p.zero,
        None => false,
    }
}

/// Whether two numerals denote the same value.
pub fn same_numeral_value(a: &str, b: &str) -> (r: bool)
    requires
        is_numeral(a@),
        is_numeral(b@),
    ensures
        r == same_value(a@, b@),
{
    let va = crate::text::chars_of(a);
    let vb = crate::text::chars_of(b);
    let pa = numeral_parts(va.as_slice());
    let pb = numeral_parts(vb.as_slice());
    match (pa, pb) {
        (Some(x), Some(y)) => {
            if x.zero || y.zero {
                x.zero && y.zero
            } else {
                x.neg == y.neg && crate::text::chars_eq(x.sig.as_slice(), y.sig.as_slice()) && x.order
                    == y.order
            }
        },
        _ => false,
    }
}

/// Whether `s` is a numeral.
pub fn check_numeral(s: &str) -> (r: bool)
    ensures
        r == is_numeral(s@),
{
    let v = crate::text::chars_of(s);
    numeral_parts(v.as_slice()).is_some()
}

} // verus!
