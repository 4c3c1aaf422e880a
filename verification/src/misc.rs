//! Miscellaneous helpers: matrices, element lists, contraction strings and
//! basis set names.
use crate::fields::{BseElectronShell, ShellV, shells_view};
use crate::lut::{amchars, sym_spec, z_from_str_spec, element_Z_from_str, am_in_range, amint_to_char, amint_to_char_spec};
use crate::numeral::{is_numeral, num_is_zero};
use crate::text::{lowercase_of, to_lowercase, chars_of, string_of, push_str, is_ws};
use vstd::prelude::*;

verus! {

/// Angular momentum character ordering flag: spdfghikl (skips j).
pub const HIK: bool = false;

/// Angular momentum character ordering flag: spdfghijkl.
pub const HIJ: bool = true;

/// Format flag for non-compact output.
pub const INCOMPACT: bool = false;

/// Format flag for compact output.
pub const COMPACT: bool = true;

/// Scientific notation format flag (uses 'e').
pub const SCIFMT_E: bool = false;

/// Scientific notation format flag (uses 'D' for Fortran compatibility).
pub const SCIFMT_D: bool = true;

/// Every row has at least `ncol` entries.
pub open spec fn rows_cover(mat: Seq<Seq<Seq<char>>>, ncol: int) -> bool {
    forall|j: int| 0 <= j < mat.len() ==> #[trigger] mat[j].len() >= ncol
}

/// The transpose of a matrix whose first row gives the number of columns.
pub open spec fn transpose_spec(mat: Seq<Seq<Seq<char>>>) -> Seq<Seq<Seq<char>>> {
    if mat.len() == 0 {
        Seq::empty()
    } else {
        Seq::new(mat[0].len(), |i: int| Seq::new(mat.len(), |j: int| mat[j][i]))
    }
}

/// Transpose a matrix (list of lists); the first row gives the number of
/// columns, and every row must be at least that long.
pub fn transpose_matrix(mat: &[Vec<String>]) -> (r: Vec<Vec<String>>)
    requires
        mat@.len() > 0 ==> rows_cover(mat.deep_view(), mat@[0].len() as int),
    ensures
        r.deep_view() == transpose_spec(mat.deep_view()),
{
    let ghost m = mat.deep_view();
    let mut r: Vec<Vec<String>> = Vec::new();
    if mat.len() == 0 {
        assert(r.deep_view() =~= transpose_spec(m));
        return r;
    }
    let nrow = mat.len();
    let ncol = mat[0].len();
    let mut i: usize = 0;
    while i < ncol
        invariant
            i <= ncol,
            nrow == mat@.len(),
            ncol == mat@[0].len(),
            m == mat.deep_view(),
            rows_cover(m, ncol as int),
            r.len() == i,
            forall|a: int| 0 <= a < i ==> #[trigger] r@[a].deep_view() == Seq::new(nrow as nat, |j: int| m[j][a]),
        decreases ncol - i,
    {
        let mut col: Vec<String> = Vec::new();
        let mut j: usize = 0;
        while j < nrow
            invariant
                j <= nrow,
                i < ncol,
                nrow == mat@.len(),
                ncol == mat@[0].len(),
                m == mat.deep_view(),
                rows_cover(m, ncol as int),
                col.len() == j,
                forall|b: int| 0 <= b < j ==> #[trigger] col@[b]@ == m[b][i as int],
            decreases nrow - j,
        {
            assert(m[j as int].len() >= ncol);
            assert(m[j as int] == mat@[j as int].deep_view());
            col.push(mat[j][i].clone());
            j = j + 1;
        }
        assert(col.deep_view() =~= Seq::new(nrow as nat, |j: int| m[j][i as int]));
        r.push(col);
        i = i + 1;
    }
    assert(r.deep_view() =~= transpose_spec(m));
    r
}

/// All angular momenta of a list of shells, shell by shell.
pub open spec fn all_ams(shells: Seq<ShellV>) -> Seq<i32>
    decreases shells.len(),
{
    if shells.len() == 0 {
        Seq::empty()
    } else {
        all_ams(shells.drop_last()) + shells.last().am
    }
}

/// Largest value of a sequence, or 0 when it is empty.
pub open spec fn max_or_zero(s: Seq<i32>) -> i32
    decreases s.len(),
{
    if s.len() == 0 {
        0
    } else if s.len() == 1 {
        s[0]
    } else {
        let m = max_or_zero(s.drop_last());
        if s.last() > m {
            s.last()
        } else {
            m
        }
    }
}

/// Determine the maximum angular momentum over a list of electron shells,
/// or 0 if there is none.
pub fn max_am(electron_shells: &[BseElectronShell]) -> (r: i32)
    ensures
        r == max_or_zero(all_ams(shells_view(electron_shells@))),
{
    let ghost sv = shells_view(electron_shells@);
    let mut found = false;
    let mut m: i32 = 0;
    let mut k: usize = 0;
    while k < electron_shells.len()
        invariant
            k <= electron_shells.len(),
            sv == shells_view(electron_shells@),
            found == (all_ams(sv.take(k as int)).len() > 0),
            m == max_or_zero(all_ams(sv.take(k as int))),
        decreases electron_shells.len() - k,
    {
        let am = &electron_shells[k].angular_momentum;
        let ghost before = all_ams(sv.take(k as int));
        assert(sv.take(k + 1).drop_last() =~= sv.take(k as int));
        assert(all_ams(sv.take(k + 1)) == before + am@);
        let mut t: usize = 0;
        while t < am.len()
            invariant
                t <= am.len(),
                found == ((before + am@.take(t as int)).len() > 0),
                m == max_or_zero(before + am@.take(t as int)),
            decreases am.len() - t,
        {
            assert((before + am@.take(t + 1)).drop_last() =~= before + am@.take(t as int));
            if !found || am[t] > m {
                m = am[t];
            }
            found = true;
            t = t + 1;
        }
        assert(am@.take(am.len() as int) =~= am@);
        k = k + 1;
    }
    assert(sv.take(electron_shells.len() as int) =~= sv);
    m
}

/// The number of primitives of angular momentum `a` over a list of shells
/// (a fused shell counts its primitives once per angular momentum).
pub open spec fn prim_total(s: Seq<ShellV>, a: i32) -> nat
    decreases s.len(),
{
    if s.len() == 0 {
        0
    } else {
        prim_total(s.drop_last(), a) + count_of(s.last().am, a) * s.last().exponents.len()
    }
}

/// The number of contractions a shell gives each of its angular momenta:
/// one for a fused shell, its number of contractions otherwise.
pub open spec fn shell_ncont(sh: ShellV) -> nat {
    if sh.am.len() > 1 {
        1
    } else {
        sh.coefficients.len()
    }
}

/// The number of contractions of angular momentum `a` over a list of
/// shells.
pub open spec fn cont_total(s: Seq<ShellV>, a: i32) -> nat
    decreases s.len(),
{
    if s.len() == 0 {
        0
    } else {
        cont_total(s.drop_last(), a) + count_of(s.last().am, a) * shell_ncont(s.last())
    }
}

/// How many entries of `p` are below `x`.
pub open spec fn count_below(p: Seq<i32>, x: i32) -> nat
    decreases p.len(),
{
    if p.len() == 0 {
        0
    } else {
        count_below(p.drop_last(), x) + if p.last() < x {
            1nat
        } else {
            0nat
        }
    }
}

/// The distinct values of `v` in increasing order.
pub open spec fn distinct_sorted(v: Seq<i32>) -> Seq<i32>
    decreases v.len(),
{
    if v.len() == 0 {
        Seq::empty()
    } else {
        let p = distinct_sorted(v.drop_last());
        if p.contains(v.last()) {
            p
        } else {
            let c = count_below(p, v.last()) as int;
            p.take(c).push(v.last()) + p.skip(c)
        }
    }
}

/// One half of a contraction string: for each angular momentum of `keys`,
/// its count and letter, with a comma before every angular momentum but
/// s when not compact.
pub open spec fn cont_half(keys: Seq<i32>, s: Seq<ShellV>, hij: bool, compact: bool, prims: bool) -> Seq<char>
    decreases keys.len(),
{
    if keys.len() == 0 {
        Seq::empty()
    } else {
        let a = keys.last();
        let n = if prims {
            prim_total(s, a)
        } else {
            cont_total(s, a)
        };
        cont_half(keys.drop_last(), s, hij, compact, prims) + (if a != 0 && !compact {
            ","@
        } else {
            Seq::empty()
        }) + crate::text::nat_digits(n) + amint_to_char_spec(seq![a], hij)
    }
}

/// The contraction string of a list of shells: `(4s,1p) -> [2s,1p]`, or
/// `4s1p.2s1p` when compact.
pub open spec fn contraction_spec(s: Seq<ShellV>, hij: bool, compact: bool) -> Seq<char> {
    let keys = distinct_sorted(all_ams(s));
    let p = cont_half(keys, s, hij, compact, true);
    let c = cont_half(keys, s, hij, compact, false);
    if compact {
        p + "."@ + c
    } else {
        "("@ + p + ") -> ["@ + c + "]"@
    }
}

/// What a contraction string needs: angular momenta that have a letter, and
/// counts that fit in a `usize`.
pub open spec fn contraction_ok(s: Seq<ShellV>) -> bool {
    &&& am_in_range(all_ams(s))
    &&& forall|a: i32| #[trigger] prim_total(s, a) <= usize::MAX && cont_total(s, a) <= usize::MAX
}

proof fn lemma_totals_prefix(s: Seq<ShellV>, a: i32, k: int)
    requires
        0 <= k <= s.len(),
    ensures
        prim_total(s.take(k), a) <= prim_total(s, a),
        cont_total(s.take(k), a) <= cont_total(s, a),
    decreases s.len() - k,
{
    if k < s.len() {
        lemma_totals_prefix(s, a, k + 1);
        assert(s.take(k + 1).drop_last() =~= s.take(k));
    } else {
        assert(s.take(k) =~= s);
    }
}

proof fn lemma_count_below(p: Seq<i32>, x: i32)
    ensures
        count_below(p, x) <= p.len(),
    decreases p.len(),
{
    if p.len() > 0 {
        lemma_count_below(p.drop_last(), x);
    }
}

proof fn lemma_all_ams_push(s: Seq<ShellV>, k: int)
    requires
        0 <= k < s.len(),
    ensures
        all_ams(s.take(k + 1)) == all_ams(s.take(k)) + s[k].am,
{
    assert(s.take(k + 1).drop_last() =~= s.take(k));
}

proof fn lemma_all_ams_range(s: Seq<ShellV>, k: int, t: int)
    requires
        am_in_range(all_ams(s)),
        0 <= k < s.len(),
        0 <= t < s[k].am.len(),
    ensures
        0 <= s[k].am[t] < 26,
    decreases s.len(),
{
    if k < s.len() - 1 {
        assert(all_ams(s) == all_ams(s.drop_last()) + s.last().am);
        assert forall|i: int| 0 <= i < all_ams(s.drop_last()).len() implies 0 <= #[trigger] all_ams(
            s.drop_last(),
        )[i] < 26 by {
            assert(all_ams(s)[i] == all_ams(s.drop_last())[i]);
        }
        lemma_all_ams_range(s.drop_last(), k, t);
    } else {
        let p = all_ams(s.drop_last());
        assert(all_ams(s) == p + s.last().am);
        assert(all_ams(s)[p.len() + t] == s[k].am[t]);
    }
}

/// The totals of primitives and contractions of angular momentum `a`.
fn totals_for(shells: &[BseElectronShell], a: i32) -> (r: (usize, usize))
    requires
        contraction_ok(shells_view(shells@)),
    ensures
        r.0 == prim_total(shells_view(shells@), a),
        r.1 == cont_total(shells_view(shells@), a),
{
    let ghost sv = shells_view(shells@);
    let mut np: usize = 0;
    let mut nc: usize = 0;
    let mut k: usize = 0;
    while k < shells.len()
        invariant
            k <= shells@.len(),
            sv == shells_view(shells@),
            contraction_ok(sv),
            np == prim_total(sv.take(k as int), a),
            nc == cont_total(sv.take(k as int), a),
        decreases shells.len() - k,
    {
        let sh = &shells[k];
        assert(sv[k as int] == sh@);
        assert(sv.take(k + 1).drop_last() =~= sv.take(k as int));
        proof {
            lemma_totals_prefix(sv, a, k + 1);
        }
        assert(prim_total(sv, a) <= usize::MAX && cont_total(sv, a) <= usize::MAX);
        let ncont: usize = if sh.angular_momentum.len() > 1 {
            1
        } else {
            sh.coefficients.len()
        };
        let am = &sh.angular_momentum;
        let mut t: usize = 0;
        assert(am@.take(0) =~= Seq::<i32>::empty());
        assert(count_of(am@.take(0), a) == 0);
        assert(0 * sv[k as int].exponents.len() == 0);
        assert(0 * ncont == 0);
        while t < am.len()
            invariant
                t <= am@.len(),
                am@ == sv[k as int].am,
                k < sv.len(),
                ncont == shell_ncont(sv[k as int]),
                sh.exponents@.len() == sv[k as int].exponents.len(),
                np == prim_total(sv.take(k as int), a) + count_of(am@.take(t as int), a) * sv[k as int].exponents.len(),
                nc == cont_total(sv.take(k as int), a) + count_of(am@.take(t as int), a) * ncont,
                prim_total(sv.take(k + 1), a) <= usize::MAX,
                cont_total(sv.take(k + 1), a) <= usize::MAX,
                prim_total(sv.take(k + 1), a) == prim_total(sv.take(k as int), a) + count_of(am@, a) * sv[k as int].exponents.len(),
                cont_total(sv.take(k + 1), a) == cont_total(sv.take(k as int), a) + count_of(am@, a) * ncont,
            decreases am.len() - t,
        {
            assert(am@.take(t + 1).drop_last() =~= am@.take(t as int));
            proof {
                lemma_count_prefix(am@, a, t + 1);
            }
            if am[t] == a {
                assert(count_of(am@.take(t + 1), a) == count_of(am@.take(t as int), a) + 1);
                assert((count_of(am@.take(t as int), a) + 1) * sv[k as int].exponents.len() == count_of(am@.take(t as int), a) * sv[k as int].exponents.len() + sv[k as int].exponents.len()) by (nonlinear_arith);
                assert((count_of(am@.take(t as int), a) + 1) * ncont == count_of(am@.take(t as int), a) * ncont + ncont) by (nonlinear_arith);
                assert(count_of(am@.take(t + 1), a) * sv[k as int].exponents.len() <= count_of(am@, a) * sv[k as int].exponents.len()) by (nonlinear_arith)
                    requires count_of(am@.take(t + 1), a) <= count_of(am@, a);
                assert(count_of(am@.take(t + 1), a) * ncont <= count_of(am@, a) * ncont) by (nonlinear_arith)
                    requires count_of(am@.take(t + 1), a) <= count_of(am@, a);
                np = np + sh.exponents.len();
                nc = nc + ncont;
            }
            t = t + 1;
        }
        assert(am@.take(am@.len() as int) =~= am@);
        k = k + 1;
    }
    assert(sv.take(shells.len() as int) =~= sv);
    (np, nc)
}

proof fn lemma_count_prefix(v: Seq<i32>, a: i32, t: int)
    requires
        0 <= t <= v.len(),
    ensures
        count_of(v.take(t), a) <= count_of(v, a),
    decreases v.len() - t,
{
    if t < v.len() {
        lemma_count_prefix(v, a, t + 1);
        assert(v.take(t + 1).drop_last() =~= v.take(t));
    } else {
        assert(v.take(t) =~= v);
    }
}

/// Insert `x` into the sorted list `p` unless it holds it already.
fn insert_distinct(p: &mut Vec<i32>, x: i32)
    ensures
        final(p)@ == (if old(p)@.contains(x) {
            old(p)@
        } else {
            let c = count_below(old(p)@, x) as int;
            old(p)@.take(c).push(x) + old(p)@.skip(c)
        }),
{
    let ghost q = p@;
    let mut c: usize = 0;
    let mut k: usize = 0;
    while k < p.len()
        invariant
            k <= p@.len(),
            q == p@,
            c == count_below(q.take(k as int), x),
            c <= k,
            forall|t: int| 0 <= t < k ==> q[t] != x,
        decreases p.len() - k,
    {
        assert(q.take(k + 1).drop_last() =~= q.take(k as int));
        if p[k] == x {
            assert(q.contains(x));
            return;
        }
        if p[k] < x {
            c = c + 1;
        }
        k = k + 1;
    }
    assert(q.take(p.len() as int) =~= q);
    assert(!q.contains(x));
    p.insert(c, x);
    assert(p@ =~= q.take(c as int).push(x) + q.skip(c as int));
}

/// Build a string of the contraction of a list of shells, such as
/// `(4s,1p) -> [2s,1p]`, or `4s1p.2s1p` when `compact`.
pub fn contraction_string(electron_shells: &[BseElectronShell], hij: bool, compact: bool) -> (r: String)
    requires
        contraction_ok(shells_view(electron_shells@)),
    ensures
        r@ == contraction_spec(shells_view(electron_shells@), hij, compact),
{
    let ghost sv = shells_view(electron_shells@);
    let mut keys: Vec<i32> = Vec::new();
    let mut k: usize = 0;
    while k < electron_shells.len()
        invariant
            k <= electron_shells@.len(),
            sv == shells_view(electron_shells@),
            keys@ == distinct_sorted(all_ams(sv.take(k as int))),
        decreases electron_shells.len() - k,
    {
        let am = &electron_shells[k].angular_momentum;
        assert(sv[k as int].am == am@);
        proof {
            lemma_all_ams_push(sv, k as int);
        }
        let ghost before = all_ams(sv.take(k as int));
        let mut t: usize = 0;
        while t < am.len()
            invariant
                t <= am@.len(),
                keys@ == distinct_sorted(before + am@.take(t as int)),
            decreases am.len() - t,
        {
            assert((before + am@.take(t + 1)).drop_last() =~= before + am@.take(t as int));
            assert((before + am@.take(t + 1)).last() == am@[t as int]);
            insert_distinct(&mut keys, am[t]);
            t = t + 1;
        }
        assert(am@.take(am@.len() as int) =~= am@);
        k = k + 1;
    }
    assert(sv.take(electron_shells.len() as int) =~= sv);
    let ghost keyv = keys@;
    let mut primstr = String::new();
    let mut contstr = String::new();
    let mut i: usize = 0;
    while i < keys.len()
        invariant
            i <= keys@.len(),
            keyv == keys@,
            keyv == distinct_sorted(all_ams(sv)),
            sv == shells_view(electron_shells@),
            contraction_ok(sv),
            primstr@ == cont_half(keyv.take(i as int), sv, hij, compact, true),
            contstr@ == cont_half(keyv.take(i as int), sv, hij, compact, false),
        decreases keys.len() - i,
    {
        let a = keys[i];
        assert(keyv.take(i + 1).drop_last() =~= keyv.take(i as int));
        proof {
            lemma_distinct_sorted_members(all_ams(sv), i as int);
        }
        let (np, nc) = totals_for(electron_shells, a);
        let ghost p0 = primstr@;
        let ghost c0 = contstr@;
        proof {
            reveal_strlit(",");
        }
        if a != 0 && !compact {
            crate::text::push_char(&mut primstr, ',');
            crate::text::push_char(&mut contstr, ',');
        }
        let one = [a];
        assert(am_in_range(one@));
        let ch = amint_to_char(&one, hij);
        assert(one@ =~= seq![a]);
        let nps = crate::text::usize_text(np);
        let ncs = crate::text::usize_text(nc);
        push_str(&mut primstr, nps.as_str());
        push_str(&mut primstr, ch.as_str());
        push_str(&mut contstr, ncs.as_str());
        push_str(&mut contstr, ch.as_str());
        proof {
            let sep: Seq<char> = if a != 0 && !compact { ","@ } else { Seq::empty() };
            assert(ch@ == amint_to_char_spec(seq![a], hij));
            assert(primstr@ =~= cont_half(keyv.take(i as int), sv, hij, compact, true) + sep + crate::text::nat_digits(prim_total(sv, a) as nat) + amint_to_char_spec(seq![a], hij));
            assert(contstr@ =~= cont_half(keyv.take(i as int), sv, hij, compact, false) + sep + crate::text::nat_digits(cont_total(sv, a) as nat) + amint_to_char_spec(seq![a], hij));
        }
        i = i + 1;
    }
    assert(keyv.take(keys.len() as int) =~= keyv);
    let mut r = String::new();
    if compact {
        push_str(&mut r, primstr.as_str());
        push_str(&mut r, ".");
        push_str(&mut r, contstr.as_str());
    } else {
        push_str(&mut r, "(");
        push_str(&mut r, primstr.as_str());
        push_str(&mut r, ") -> [");
        push_str(&mut r, contstr.as_str());
        push_str(&mut r, "]");
    }
    r
}

proof fn lemma_distinct_sorted_members(v: Seq<i32>, i: int)
    requires
        am_in_range(v),
        0 <= i < distinct_sorted(v).len(),
    ensures
        0 <= distinct_sorted(v)[i] < 26,
    decreases v.len(),
{
    let d = distinct_sorted(v);
    if v.len() > 0 {
        let p = distinct_sorted(v.drop_last());
        assert(am_in_range(v.drop_last())) by {
            assert forall|j: int| 0 <= j < v.drop_last().len() implies 0 <= #[trigger] v.drop_last()[j] < 26 by {
                assert(v.drop_last()[j] == v[j]);
            }
        }
        assert(0 <= v[v.len() - 1] < 26);
        if p.contains(v.last()) {
            lemma_distinct_sorted_members(v.drop_last(), i);
        } else {
            let c = count_below(p, v.last()) as int;
            lemma_count_below(p, v.last());
            if i < c {
                assert(d[i] == p[i]);
                lemma_distinct_sorted_members(v.drop_last(), i);
            } else if i > c {
                assert(d[i] == p[i - 1]);
                lemma_distinct_sorted_members(v.drop_last(), i - 1);
            }
        }
    }
}

/// The characters of `s` with `/` replaced by `_sl_` and `*` by `_st_`.
pub open spec fn escape_name(s: Seq<char>) -> Seq<char>
    decreases s.len(),
{
    if s.len() == 0 {
        Seq::empty()
    } else {
        let r = escape_name(s.drop_last());
        if s.last() == '/' {
            r + "_sl_"@
        } else if s.last() == '*' {
            r + "_st_"@
        } else {
            r.push(s.last())
        }
    }
}

/// Transform a basis set name to its internal representation: lowercase,
/// with `/` written `_sl_` and `*` written `_st_`.
pub fn transform_basis_name(name: &str) -> (r: String)
    ensures
        r@ == escape_name(lowercase_of(name@)),
        crate::text::ascii_text(name@) ==> r@ == escape_name(crate::text::ascii_lower(name@)),
{
    let low = to_lowercase(name);
    let v = chars_of(low.as_str());
    let mut r = String::new();
    let mut i: usize = 0;
    while i < v.len()
        invariant
            i <= v.len(),
            r@ == escape_name(v@.take(i as int)),
        decreases v.len() - i,
    {
        assert(v@.take(i + 1).drop_last() =~= v@.take(i as int));
        if v[i] == '/' {
            push_str(&mut r, "_sl_");
        } else if v[i] == '*' {
            push_str(&mut r, "_st_");
        } else {
            crate::text::push_char(&mut r, v[i]);
        }
        i = i + 1;
    }
    assert(v@.take(v.len() as int) =~= v@);
    r
}

/// All entries of a list of strings are numerals.
pub open spec fn all_numerals(v: Seq<Seq<char>>) -> bool {
    forall|i: int| 0 <= i < v.len() ==> is_numeral(#[trigger] v[i])
}

/// Whether the numeral at position `i` is zero.
pub fn is_zero_at(v: &[String], i: usize) -> (r: bool)
    requires
        i < v@.len(),
        all_numerals(v.deep_view()),
    ensures
        r == num_is_zero(v@[i as int]@),
{
    assert(v.deep_view()[i as int] == v@[i as int]@);
    crate::numeral::is_zero_numeral(v[i].as_str())
}

/// Find the range of nonzero coefficients: the indices of the first and the
/// last nonzero value. At least one value must be nonzero.
pub fn find_range(coeffs: &[String]) -> (r: (usize, usize))
    requires
        all_numerals(coeffs.deep_view()),
        exists|i: int| 0 <= i < coeffs@.len() && !num_is_zero(#[trigger] coeffs@[i]@),
    ensures
        r.0 <= r.1 < coeffs@.len(),
        !num_is_zero(coeffs@[r.0 as int]@),
        !num_is_zero(coeffs@[r.1 as int]@),
        forall|i: int| 0 <= i < r.0 ==> num_is_zero(#[trigger] coeffs@[i]@),
        forall|i: int| r.1 < i < coeffs@.len() ==> num_is_zero(#[trigger] coeffs@[i]@),
{
    let n = coeffs.len();
    let mut first: usize = 0;
    while first < n && is_zero_at(coeffs, first)
        invariant
            first <= n,
            n == coeffs@.len(),
            all_numerals(coeffs.deep_view()),
            forall|i: int| 0 <= i < first ==> num_is_zero(#[trigger] coeffs@[i]@),
        decreases n - first,
    {
        first = first + 1;
    }
    let mut last: usize = n - 1;
    while last > first && is_zero_at(coeffs, last)
        invariant
            first <= last < n,
            n == coeffs@.len(),
            all_numerals(coeffs.deep_view()),
            !num_is_zero(coeffs@[first as int]@),
            forall|i: int| last < i < n ==> num_is_zero(#[trigger] coeffs@[i]@),
        decreases last,
    {
        last = last - 1;
    }
    (first, last)
}


/// Brackets and quotes that element lists may carry.
pub open spec fn is_list_punct(c: char) -> bool {
    c == '[' || c == ']' || c == '"' || c == '\'' || c == '(' || c == ')'
}

/// `s` without brackets and quotes.
pub open spec fn drop_punct(s: Seq<char>) -> Seq<char>
    decreases s.len(),
{
    if s.len() == 0 {
        Seq::empty()
    } else if is_list_punct(s.last()) {
        drop_punct(s.drop_last())
    } else {
        drop_punct(s.drop_last()).push(s.last())
    }
}

/// `s` with every run of `c` replaced by a single `c`.
pub open spec fn collapse(s: Seq<char>, c: char) -> Seq<char>
    decreases s.len(),
{
    if s.len() == 0 {
        Seq::empty()
    } else {
        let r = collapse(s.drop_last(), c);
        if s.last() == c && r.len() > 0 && r.last() == c {
            r
        } else {
            r.push(s.last())
        }
    }
}

/// `s` without whitespace.
pub open spec fn drop_ws(s: Seq<char>) -> Seq<char>
    decreases s.len(),
{
    if s.len() == 0 {
        Seq::empty()
    } else if is_ws(s.last()) {
        drop_ws(s.drop_last())
    } else {
        drop_ws(s.drop_last()).push(s.last())
    }
}

/// Pieces of `s` between commas seen so far: the finished nonempty pieces
/// and the piece in progress.
pub open spec fn split_state(s: Seq<char>) -> (Seq<Seq<char>>, Seq<char>)
    decreases s.len(),
{
    if s.len() == 0 {
        (Seq::empty(), Seq::empty())
    } else {
        let (t, c) = split_state(s.drop_last());
        if s.last() == ',' {
            (if c.len() > 0 { t.push(c) } else { t }, Seq::empty())
        } else {
            (t, c.push(s.last()))
        }
    }
}

/// The nonempty pieces of `s` between commas.
pub open spec fn comma_tokens(s: Seq<char>) -> Seq<Seq<char>> {
    let (t, c) = split_state(s);
    if c.len() > 0 {
        t.push(c)
    } else {
        t
    }
}

/// The element-list text after normalization: brackets and quotes removed,
/// lowercased, runs of commas and dashes collapsed, whitespace removed.
pub open spec fn normalized_list(s: Seq<char>) -> Seq<char> {
    drop_ws(collapse(collapse(lowercase_of(drop_punct(s)), ','), '-'))
}

/// Number of dashes in a token.
pub open spec fn count_dash(t: Seq<char>) -> nat
    decreases t.len(),
{
    if t.len() == 0 {
        0
    } else {
        count_dash(t.drop_last()) + if t.last() == '-' { 1nat } else { 0nat }
    }
}

/// Index of the first dash of a token (its length if none).
pub open spec fn first_dash(t: Seq<char>, i: int) -> int
    decreases t.len() - i,
{
    if i >= t.len() {
        t.len() as int
    } else if t[i] == '-' {
        i
    } else {
        first_dash(t, i + 1)
    }
}

/// The inclusive range of atomic numbers a token of an element list stands
/// for: `z`, `-z` (from 1 to z) or `a-b`; `None` for an invalid token.
pub open spec fn token_range(t: Seq<char>) -> Option<(i32, i32)> {
    let nd = count_dash(t);
    if nd == 0 {
        match z_from_str_spec(t) {
            Some(z) => Some((z, z)),
            None => None,
        }
    } else if nd == 1 {
        if t.last() == '-' {
            None
        } else if t[0] == '-' {
            match z_from_str_spec(t.drop_first()) {
                Some(z) => Some((1i32, z)),
                None => None,
            }
        } else {
            let k = first_dash(t, 0);
            match (z_from_str_spec(t.subrange(0, k)), z_from_str_spec(t.subrange(k + 1, t.len() as int))) {
                (Some(a), Some(b)) => if a <= b {
                    Some((a, b))
                } else {
                    None
                },
                _ => None,
            }
        }
    } else {
        None
    }
}

/// `v` is strictly increasing.
pub open spec fn strictly_increasing(v: Seq<i32>) -> bool {
    forall|i: int, j: int| 0 <= i < j < v.len() ==> v[i] < v[j]
}

/// `x` lies in the inclusive range.
pub open spec fn in_range(rg: (i32, i32), x: i32) -> bool {
    rg.0 <= x <= rg.1
}

/// `x` lies in one of the inclusive ranges.
pub open spec fn covered(ranges: Seq<(i32, i32)>, x: i32) -> bool {
    exists|k: int| 0 <= k < ranges.len() && #[trigger] in_range(ranges[k], x)
}

/// `v` holds exactly the numbers covered by the ranges, each once, in order.
pub open spec fn covers_exactly(v: Seq<i32>, ranges: Seq<(i32, i32)>) -> bool {
    &&& strictly_increasing(v)
    &&& forall|i: int| 0 <= i < v.len() ==> covered(ranges, #[trigger] v[i])
    &&& forall|x: i32| #[trigger] covered(ranges, x) ==> v.contains(x)
}

/// Drops brackets and quotes.
fn drop_punct_exec(s: &[char]) -> (r: Vec<char>)
    ensures
        r@ == drop_punct(s@),
{
    let mut r: Vec<char> = Vec::new();
    let mut i: usize = 0;
    while i < s.len()
        invariant
            i <= s.len(),
            r@ == drop_punct(s@.take(i as int)),
        decreases s.len() - i,
    {
        assert(s@.take(i + 1).drop_last() =~= s@.take(i as int));
        let c = s[i];
        if !(c == '[' || c == ']' || c == '"' || c == '\'' || c == '(' || c == ')') {
            r.push(c);
        }
        i = i + 1;
    }
    assert(s@.take(s.len() as int) =~= s@);
    r
}

/// Collapses runs of `c`.
fn collapse_exec(s: &[char], c: char) -> (r: Vec<char>)
    ensures
        r@ == collapse(s@, c),
{
    let mut r: Vec<char> = Vec::new();
    let mut i: usize = 0;
    while i < s.len()
        invariant
            i <= s.len(),
            r@ == collapse(s@.take(i as int), c),
        decreases s.len() - i,
    {
        assert(s@.take(i + 1).drop_last() =~= s@.take(i as int));
        let ch = s[i];
        if !(ch == c && r.len() > 0 && r[r.len() - 1] == c) {
            r.push(ch);
        }
        i = i + 1;
    }
    assert(s@.take(s.len() as int) =~= s@);
    r
}

/// Drops whitespace.
fn drop_ws_exec(s: &[char]) -> (r: Vec<char>)
    ensures
        r@ == drop_ws(s@),
{
    let mut r: Vec<char> = Vec::new();
    let mut i: usize = 0;
    while i < s.len()
        invariant
            i <= s.len(),
            r@ == drop_ws(s@.take(i as int)),
        decreases s.len() - i,
    {
        assert(s@.take(i + 1).drop_last() =~= s@.take(i as int));
        if !crate::text::is_whitespace(s[i]) {
            r.push(s[i]);
        }
        i = i + 1;
    }
    assert(s@.take(s.len() as int) =~= s@);
    r
}

/// The nonempty pieces between commas.
fn comma_tokens_exec(s: &[char]) -> (r: Vec<Vec<char>>)
    ensures
        r@.len() == comma_tokens(s@).len(),
        forall|i: int| 0 <= i < r@.len() ==> #[trigger] r@[i]@ == comma_tokens(s@)[i],
{
    let mut toks: Vec<Vec<char>> = Vec::new();
    let mut cur: Vec<char> = Vec::new();
    let mut i: usize = 0;
    while i < s.len()
        invariant
            i <= s.len(),
            toks@.len() == split_state(s@.take(i as int)).0.len(),
            forall|k: int| 0 <= k < toks@.len() ==> #[trigger] toks@[k]@ == split_state(s@.take(i as int)).0[k],
            cur@ == split_state(s@.take(i as int)).1,
        decreases s.len() - i,
    {
        assert(s@.take(i + 1).drop_last() =~= s@.take(i as int));
        if s[i] == ',' {
            if cur.len() > 0 {
                toks.push(cur);
            }
            cur = Vec::new();
        } else {
            cur.push(s[i]);
        }
        i = i + 1;
    }
    assert(s@.take(s.len() as int) =~= s@);
    if cur.len() > 0 {
        toks.push(cur);
    }
    toks
}

/// The range a token stands for.
fn token_range_exec(t: &[char]) -> (r: Option<(i32, i32)>)
    requires
        t@.len() > 0,
    ensures
        r == token_range(t@),
{
    let n = t.len();
    let mut nd: usize = 0;
    let mut first: usize = n;
    let mut i: usize = 0;
    while i < n
        invariant
            i <= n,
            n == t@.len(),
            nd as int == count_dash(t@.take(i as int)),
            nd <= i,
            first <= n,
            nd > 0 ==> first < n,
            first == n ==> forall|j: int| 0 <= j < i ==> t@[j] != '-',
            first < n ==> first < i && t@[first as int] == '-' && forall|j: int| 0 <= j < first ==> t@[j] != '-',
        decreases n - i,
    {
        assert(t@.take(i + 1).drop_last() =~= t@.take(i as int));
        if t[i] == '-' {
            if first == n {
                first = i;
            }
            nd = nd + 1;
        }
        i = i + 1;
    }
    assert(t@.take(n as int) =~= t@);
    proof {
        lemma_first_dash(t@, 0, first as int);
    }
    if nd == 0 {
        let ts = string_of(t);
        match element_Z_from_str(ts.as_str()) {
            Some(z) => Some((z, z)),
            None => None,
        }
    } else if nd == 1 {
        if t[n - 1] == '-' {
            None
        } else if t[0] == '-' {
            let rest = slice_string(t, 1, n);
            assert(t@.subrange(1, n as int) =~= t@.drop_first());
            match element_Z_from_str(rest.as_str()) {
                Some(z) => Some((1i32, z)),
                None => None,
            }
        } else {
            let a = slice_string(t, 0, first);
            let b = slice_string(t, first + 1, n);
            match (element_Z_from_str(a.as_str()), element_Z_from_str(b.as_str())) {
                (Some(za), Some(zb)) => if za <= zb {
                    Some((za, zb))
                } else {
                    None
                },
                _ => None,
            }
        }
    } else {
        None
    }
}

proof fn lemma_first_dash(t: Seq<char>, i: int, k: int)
    requires
        0 <= i <= k <= t.len(),
        forall|j: int| i <= j < k ==> t[j] != '-',
        k == t.len() || t[k] == '-',
    ensures
        first_dash(t, i) == k,
    decreases k - i,
{
    if i < k {
        lemma_first_dash(t, i + 1, k);
    }
}

/// The string made of `t[a..b]`.
pub fn slice_string(t: &[char], a: usize, b: usize) -> (r: String)
    requires
        a <= b <= t@.len(),
    ensures
        r@ == t@.subrange(a as int, b as int),
{
    let mut v: Vec<char> = Vec::new();
    let mut i = a;
    while i < b
        invariant
            a <= i <= b <= t@.len(),
            v@ =~= t@.subrange(a as int, i as int),
        decreases b - i,
    {
        v.push(t[i]);
        i = i + 1;
    }
    string_of(v.as_slice())
}

/// Parse an element specification string into a sorted list of atomic
/// numbers, without repeats; `ValueError` on an invalid entry.
///
/// Atomic numbers, symbols and names are accepted, alone or as ranges
/// ("H-Li", "1-3", "-C" for everything up to carbon), separated by commas,
/// case insensitive, with brackets, quotes and whitespace ignored.
pub fn expand_elements_f(compact_el: &str) -> (r: Result<Vec<i32>, crate::error::BseError>)
    ensures
        ({
            let toks = comma_tokens(normalized_list(compact_el@));
            match r {
                Ok(v) => (forall|k: int| 0 <= k < toks.len() ==> #[trigger] token_range(toks[k]) is Some)
                    && covers_exactly(v@, Seq::new(toks.len(), |k: int| token_range(toks[k])->0)),
                Err(e) => (exists|k: int| 0 <= k < toks.len() && #[trigger] token_range(toks[k]) is None)
                    && e is ValueError,
            }
        }),
{
    let s0 = chars_of(compact_el);
    let s1 = drop_punct_exec(s0.as_slice());
    let s1s = string_of(s1.as_slice());
    let low = to_lowercase(s1s.as_str());
    let s2 = chars_of(low.as_str());
    let s3 = collapse_exec(s2.as_slice(), ',');
    let s4 = collapse_exec(s3.as_slice(), '-');
    let s5 = drop_ws_exec(s4.as_slice());
    let toks = comma_tokens_exec(s5.as_slice());
    let ghost gt = comma_tokens(normalized_list(compact_el@));
    assert(s5@ == normalized_list(compact_el@));
    let mut ranges: Vec<(i32, i32)> = Vec::new();
    let mut k: usize = 0;
    while k < toks.len()
        invariant
            k <= toks.len(),
            toks@.len() == gt.len(),
            gt == comma_tokens(s5@),
            gt == comma_tokens(normalized_list(compact_el@)),
            forall|i: int| 0 <= i < toks@.len() ==> #[trigger] toks@[i]@ == gt[i],
            ranges@.len() == k,
            forall|i: int| 0 <= i < k ==> #[trigger] token_range(gt[i]) == Some(ranges@[i]),
        decreases toks.len() - k,
    {
        proof {
            // pieces are nonempty by construction
            lemma_tokens_nonempty(s5@);
            assert(gt[k as int].len() > 0);
        }
        match token_range_exec(toks[k].as_slice()) {
            Some(rg) => ranges.push(rg),
            None => {
                assert(token_range(gt[k as int]) is None);
                let ts = string_of(toks[k].as_slice());
                return Err(crate::error::value_error("Invalid element or element range: ", ts.as_str()));
            },
        }
        k = k + 1;
    }
    let ghost spec_ranges = Seq::new(gt.len(), |i: int| token_range(gt[i])->0);
    assert(ranges@ =~= spec_ranges);
    Ok(union_sorted(&ranges))
}

proof fn lemma_tokens_nonempty(s: Seq<char>)
    ensures
        forall|i: int| 0 <= i < comma_tokens(s).len() ==> #[trigger] comma_tokens(s)[i].len() > 0,
        forall|i: int| 0 <= i < split_state(s).0.len() ==> #[trigger] split_state(s).0[i].len() > 0,
    decreases s.len(),
{
    if s.len() > 0 {
        lemma_tokens_nonempty(s.drop_last());
        let p = split_state(s.drop_last());
        assert forall|i: int| 0 <= i < split_state(s).0.len() implies #[trigger] split_state(s).0[i].len() > 0 by {
            if s.last() == ',' && p.1.len() > 0 && i == p.0.len() {
            } else {
                assert(split_state(s).0[i] == p.0[i]);
            }
        }
    }
    let q = split_state(s);
    assert forall|i: int| 0 <= i < comma_tokens(s).len() implies #[trigger] comma_tokens(s)[i].len() > 0 by {
        if i < q.0.len() {
            assert(comma_tokens(s)[i] == q.0[i]);
        }
    }
}

/// Sorted list, without repeats, of all numbers in the inclusive ranges.
fn union_sorted(ranges: &Vec<(i32, i32)>) -> (r: Vec<i32>)
    ensures
        covers_exactly(r@, ranges@),
{
    let mut r: Vec<i32> = Vec::new();
    let n = ranges.len();
    // bounds of the nonempty ranges
    let mut lo: i64 = i32::MAX as i64;
    let mut hi: i64 = i32::MIN as i64;
    let mut k: usize = 0;
    while k < n
        invariant
            k <= n,
            n == ranges@.len(),
            i32::MIN <= lo <= i32::MAX,
            i32::MIN <= hi <= i32::MAX,
            forall|j: int| 0 <= j < k && ranges@[j].0 <= ranges@[j].1 ==> lo <= ranges@[j].0 && ranges@[j].1 <= hi,
        decreases n - k,
    {
        if ranges[k].0 <= ranges[k].1 {
            if (ranges[k].0 as i64) < lo {
                lo = ranges[k].0 as i64;
            }
            if (ranges[k].1 as i64) > hi {
                hi = ranges[k].1 as i64;
            }
        }
        k = k + 1;
    }
    if lo > hi {
        proof {
            assert forall|y: i32| #[trigger] covered(ranges@, y) implies r@.contains(y) by {
                let m = choose|m: int| 0 <= m < ranges@.len() && #[trigger] in_range(ranges@[m], y);
            }
        }
        return r;
    }
    let mut x: i64 = lo;
    while x <= hi
        invariant
            i32::MIN <= lo <= x,
            x <= hi + 1,
            hi <= i32::MAX,
            n == ranges@.len(),
            forall|j: int| 0 <= j < n && ranges@[j].0 <= ranges@[j].1 ==> lo <= ranges@[j].0 && ranges@[j].1 <= hi,
            strictly_increasing(r@),
            forall|i: int| 0 <= i < r@.len() ==> r@[i] < x,
            forall|i: int| 0 <= i < r@.len() ==> covered(ranges@, #[trigger] r@[i]),
            forall|y: i32| #[trigger] covered(ranges@, y) && y < x ==> r@.contains(y),
        decreases hi + 1 - x,
    {
        let xi = x as i32;
        let mut found = false;
        let mut j: usize = 0;
        while j < n && !found
            invariant
                j <= n,
                n == ranges@.len(),
                xi == x,
                found ==> covered(ranges@, xi),
                !found ==> forall|m: int| 0 <= m < j ==> !in_range(#[trigger] ranges@[m], xi),
            decreases n - j + (if found { 0int } else { 1int }),
        {
            if ranges[j].0 <= xi && xi <= ranges[j].1 {
                assert(in_range(ranges@[j as int], xi));
                found = true;
            } else {
                j = j + 1;
            }
        }
        let ghost old_r = r@;
        if found {
            r.push(xi);
            proof {
                assert forall|i: int| 0 <= i < r@.len() implies covered(ranges@, #[trigger] r@[i]) by {
                    if i < old_r.len() {
                        assert(r@[i] == old_r[i]);
                    }
                }
                assert forall|y: i32| #[trigger] covered(ranges@, y) && y < x + 1 implies r@.contains(y) by {
                    if y < x {
                        assert(old_r.contains(y));
                        let w = choose|w: int| 0 <= w < old_r.len() && old_r[w] == y;
                        assert(r@[w] == y);
                    } else {
                        assert(r@[r@.len() - 1] == y);
                    }
                }
            }
        } else {
            proof {
                assert forall|y: i32| #[trigger] covered(ranges@, y) && y < x + 1 implies r@.contains(y) by {
                    if y == x {
                        let m = choose|m: int| 0 <= m < ranges@.len() && #[trigger] in_range(ranges@[m], y);
                        assert(!in_range(ranges@[m], xi));
                    }
                }
            }
        }
        x = x + 1;
    }
    proof {
        assert forall|y: i32| #[trigger] covered(ranges@, y) implies r@.contains(y) by {
            let m = choose|m: int| 0 <= m < ranges@.len() && #[trigger] in_range(ranges@[m], y);
            assert(y < x);
        }
    }
    r
}

/// Parse an element specification string into atomic numbers; see
/// [`expand_elements_f`]. The specification must be valid.
pub fn expand_elements(compact_el: &str) -> (r: Vec<i32>)
    requires
        forall|k: int| 0 <= k < comma_tokens(normalized_list(compact_el@)).len()
            ==> #[trigger] token_range(comma_tokens(normalized_list(compact_el@))[k]) is Some,
    ensures
        ({
            let toks = comma_tokens(normalized_list(compact_el@));
            covers_exactly(r@, Seq::new(toks.len(), |k: int| token_range(toks[k])->0))
        }),
{
    match expand_elements_f(compact_el) {
        Ok(v) => v,
        Err(_) => Vec::new(),
    }
}


/// Number of entries of `s` equal to `x`.
pub open spec fn count_of(s: Seq<i32>, x: i32) -> nat
    decreases s.len(),
{
    if s.len() == 0 {
        0
    } else {
        count_of(s.drop_last(), x) + if s.last() == x { 1nat } else { 0nat }
    }
}

/// The atomic numbers of `s` from `z` up to 118 in increasing order, each as
/// often as it occurs.
pub open spec fn sorted_from(s: Seq<i32>, z: int) -> Seq<i32>
    decreases 119 - z,
{
    if z > 118 || z < 1 {
        Seq::empty()
    } else {
        Seq::new(count_of(s, z as i32), |i: int| z as i32) + sorted_from(s, z + 1)
    }
}

/// Runs of consecutive numbers in a sorted list, as (first, last) pairs.
pub open spec fn runs_of(v: Seq<i32>) -> Seq<(i32, i32)>
    decreases v.len(),
{
    if v.len() == 0 {
        Seq::empty()
    } else {
        let r = runs_of(v.drop_last());
        if r.len() > 0 && v.last() == r.last().1 + 1 {
            r.update(r.len() - 1, (r.last().0, v.last()))
        } else {
            r.push((v.last(), v.last()))
        }
    }
}

/// How a run is written: one symbol, two symbols with a comma, or a
/// first-last range with a dash.
pub open spec fn run_text(r: (i32, i32)) -> Seq<char> {
    if r.0 == r.1 {
        sym_spec(r.0 as int)
    } else if r.1 == r.0 + 1 {
        sym_spec(r.0 as int) + ","@ + sym_spec(r.1 as int)
    } else {
        sym_spec(r.0 as int) + "-"@ + sym_spec(r.1 as int)
    }
}

/// All entries are atomic numbers of known elements.
pub open spec fn all_known_z(s: Seq<i32>) -> bool {
    forall|i: int| 0 <= i < s.len() ==> 1 <= #[trigger] s[i] <= 118
}

/// The compact text of a list of atomic numbers.
pub open spec fn compact_spec(s: Seq<i32>) -> Seq<char> {
    let runs = runs_of(sorted_from(s, 1));
    crate::text::join_spec(Seq::new(runs.len(), |i: int| run_text(runs[i])), ","@)
}

fn count_in(s: &[i32], x: i32) -> (r: usize)
    ensures
        r == count_of(s@, x),
{
    let mut c: usize = 0;
    let mut i: usize = 0;
    while i < s.len()
        invariant
            i <= s.len(),
            c == count_of(s@.take(i as int), x),
            c <= i,
        decreases s.len() - i,
    {
        assert(s@.take(i + 1).drop_last() =~= s@.take(i as int));
        if s[i] == x {
            c = c + 1;
        }
        i = i + 1;
    }
    assert(s@.take(s.len() as int) =~= s@);
    c
}

proof fn lemma_sorted_from_split(s: Seq<i32>, z: int)
    requires
        1 <= z <= 119,
    ensures
        sorted_from(s, 1) == sorted_from(s, 1).take(sorted_from(s, 1).len() - sorted_from(s, z).len()) + sorted_from(s, z),
        sorted_from(s, 1).len() >= sorted_from(s, z).len(),
    decreases z,
{
    if z > 1 {
        lemma_sorted_from_split(s, z - 1);
        let a = sorted_from(s, 1);
        let b = sorted_from(s, z - 1);
        let c = sorted_from(s, z);
        assert(b == Seq::new(count_of(s, (z - 1) as i32), |i: int| (z - 1) as i32) + c);
        assert(a.take(a.len() - c.len()) =~= a.take(a.len() - b.len()) + Seq::new(count_of(s, (z - 1) as i32), |i: int| (z - 1) as i32));
    }
}

proof fn lemma_sorted_range(s: Seq<i32>, z: int)
    requires
        1 <= z,
    ensures
        forall|k: int| 0 <= k < sorted_from(s, z).len() ==> z <= #[trigger] sorted_from(s, z)[k] <= 118,
    decreases 119 - z,
{
    if z <= 118 {
        lemma_sorted_range(s, z + 1);
        let head = Seq::new(count_of(s, z as i32), |i: int| z as i32);
        assert forall|k: int| 0 <= k < sorted_from(s, z).len() implies z <= #[trigger] sorted_from(s, z)[k] <= 118 by {
            if k >= head.len() {
                assert(sorted_from(s, z)[k] == sorted_from(s, z + 1)[k - head.len()]);
            }
        }
    }
}

/// Sorts atomic numbers of known elements.
fn sort_known(s: &[i32]) -> (r: Vec<i32>)
    ensures
        r@ == sorted_from(s@, 1),
{
    let mut r: Vec<i32> = Vec::new();
    let mut z: i32 = 1;
    while z <= 118
        invariant
            1 <= z <= 119,
            sorted_from(s@, 1) == r@ + sorted_from(s@, z as int),
        decreases 119 - z,
    {
        let c = count_in(s, z);
        let ghost before = r@;
        let mut k: usize = 0;
        while k < c
            invariant
                k <= c,
                r@ =~= before + Seq::new(k as nat, |i: int| z),
            decreases c - k,
        {
            r.push(z);
            k = k + 1;
        }
        proof {
            assert(sorted_from(s@, z as int) == Seq::new(c as nat, |i: int| z) + sorted_from(s@, z + 1));
            assert(before + (Seq::new(c as nat, |i: int| z) + sorted_from(s@, z + 1)) =~= r@ + sorted_from(s@, z + 1));
        }
        z = z + 1;
    }
    assert(r@ + sorted_from(s@, 119) =~= r@);
    r
}

/// A run of known elements.
pub open spec fn run_ok(r: (i32, i32)) -> bool {
    1 <= r.0 <= r.1 <= 118
}

/// All runs are runs of known elements.
pub open spec fn runs_ok(runs: Seq<(i32, i32)>) -> bool {
    forall|k: int| 0 <= k < runs.len() ==> run_ok(#[trigger] runs[k])
}

/// Create a compact string representation of element numbers:
/// `[1, 2, 3, 6, 7, 8, 10]` gives "h-li,c-o,ne".
pub fn compact_elements(elements: &[i32]) -> (r: String)
    requires
        all_known_z(elements@),
    ensures
        r@ == compact_spec(elements@),
{
    let sorted = sort_known(elements);
    let ghost sv = sorted@;
    proof {
        lemma_sorted_range(elements@, 1);
    }
    // runs of consecutive numbers
    let mut runs: Vec<(i32, i32)> = Vec::new();
    let mut i: usize = 0;
    while i < sorted.len()
        invariant
            i <= sorted.len(),
            sv == sorted@,
            runs@ == runs_of(sv.take(i as int)),
            runs_ok(runs@),
            forall|k: int| 0 <= k < sv.len() ==> 1 <= #[trigger] sv[k] <= 118,
        decreases sorted.len() - i,
    {
        assert(sv.take(i + 1).drop_last() =~= sv.take(i as int));
        let x = sorted[i];
        assert(1 <= sv[i as int] <= 118);
        let nr = runs.len();
        if nr > 0 && x == runs[nr - 1].1 + 1 {
            let first = runs[nr - 1].0;
            let ghost old_runs = runs@;
            assert(run_ok(old_runs[nr - 1]));
            runs.set(nr - 1, (first, x));
            assert(runs@[nr - 1] == (first, x));
            assert(x <= 118);
            assert(1 <= first);
            assert(first <= x);
            assert forall|k: int| 0 <= k < runs@.len() implies run_ok(#[trigger] runs@[k]) by {
                if k < nr - 1 {
                    assert(runs@[k] == old_runs[k]);
                    assert(run_ok(old_runs[k]));
                }
            }
        } else {
            let ghost old_runs = runs@;
            runs.push((x, x));
            assert(runs@[nr as int] == (x, x));
            assert forall|k: int| 0 <= k < runs@.len() implies run_ok(#[trigger] runs@[k]) by {
                if k < nr {
                    assert(runs@[k] == old_runs[k]);
                    assert(run_ok(old_runs[k]));
                }
            }
        }
        i = i + 1;
    }
    assert(sv.take(sv.len() as int) =~= sv);
    // write the runs
    let mut parts: Vec<String> = Vec::new();
    let mut k: usize = 0;
    while k < runs.len()
        invariant
            k <= runs.len(),
            runs_ok(runs@),
            parts.len() == k,
            forall|j: int| 0 <= j < k ==> #[trigger] parts@[j]@ == run_text(runs@[j]),
        decreases runs.len() - k,
    {
        let (a, b) = runs[k];
        assert(run_ok(runs@[k as int]));
        let sa = crate::lut::element_sym_from_Z(a);
        let sb = crate::lut::element_sym_from_Z(b);
        let mut t = String::new();
        match (sa, sb) {
            (Some(x), Some(y)) => {
                if a == b {
                    push_str(&mut t, x);
                } else if b == a + 1 {
                    push_str(&mut t, x);
                    push_str(&mut t, ",");
                    push_str(&mut t, y);
                } else {
                    push_str(&mut t, x);
                    push_str(&mut t, "-");
                    push_str(&mut t, y);
                }
            },
            _ => {},
        }
        parts.push(t);
        k = k + 1;
    }
    let r = crate::text::join(&parts, ",");
    proof {
        let runs_s = runs_of(sorted_from(elements@, 1));
        assert(parts.deep_view() =~= Seq::new(runs_s.len(), |i: int| run_text(runs_s[i])));
    }
    r
}

/// Transposing a matrix whose rows all have the same, nonzero length twice
/// gives the matrix back.
pub proof fn lemma_transpose_twice(mat: Seq<Seq<Seq<char>>>)
    requires
        mat.len() > 0,
        mat[0].len() > 0,
        forall|j: int| 0 <= j < mat.len() ==> #[trigger] mat[j].len() == mat[0].len(),
    ensures
        transpose_spec(transpose_spec(mat)) == mat,
{
    let t = transpose_spec(mat);
    assert(t.len() == mat[0].len());
    assert(t[0].len() == mat.len());
    let tt = transpose_spec(t);
    assert(tt.len() == mat.len());
    assert forall|j: int| 0 <= j < mat.len() implies #[trigger] tt[j] == mat[j] by {
        assert(tt[j] =~= mat[j]);
    }
    assert(tt =~= mat);
}

/// The largest angular momentum of a list of shells is at least each of
/// their angular momenta, and is one of them when there is any.
pub proof fn lemma_max_am_bounds(s: Seq<i32>)
    ensures
        forall|i: int| 0 <= i < s.len() ==> #[trigger] s[i] <= max_or_zero(s),
        s.len() > 0 ==> s.contains(max_or_zero(s)),
    decreases s.len(),
{
    if s.len() > 1 {
        lemma_max_am_bounds(s.drop_last());
        assert forall|i: int| 0 <= i < s.len() implies #[trigger] s[i] <= max_or_zero(s) by {
            if i < s.len() - 1 {
                assert(s[i] == s.drop_last()[i]);
            }
        }
        if s.last() <= max_or_zero(s.drop_last()) {
            let k = choose|k: int| 0 <= k < s.drop_last().len() && s.drop_last()[k] == max_or_zero(s.drop_last());
            assert(s[k] == s.drop_last()[k]);
        } else {
            assert(s[s.len() - 1] == s.last());
        }
    } else if s.len() == 1 {
        assert(s[0] == max_or_zero(s));
    }
}

} // verus!
