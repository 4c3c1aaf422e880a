//! Common basis set manipulations: pruning, uncontracting and merging of
//! shells.
//!
//! Exponents and coefficients are decimal numerals; two exponents are equal
//! when they denote the same decimal value, and a coefficient is zero when
//! its value is zero (see [`crate::numeral`]).
use crate::fields::{BseBasis, BseBasisElement, BseElectronShell, ElementV, ShellV, shells_view, elements_view};
use crate::misc::{all_numerals, transpose_matrix, transpose_spec, rows_cover};
use crate::numeral::{is_numeral, num_is_zero, same_value, is_zero_numeral, same_numeral_value};
use vstd::prelude::*;

verus! {

/* #region pruning a shell */

/// Primitive `i` is the first one whose exponent has its value.
pub open spec fn first_occurrence(ex: Seq<Seq<char>>, i: int) -> bool {
    forall|j: int| 0 <= j < i ==> !same_value(#[trigger] ex[j], ex[i])
}

/// Coefficient of contraction `g` for the exponent value of primitive `i`:
/// the first nonzero coefficient of a primitive `j` at or after `start` that
/// has the same exponent value, or else the coefficient of `i` itself.
pub open spec fn pick_from(sh: ShellV, g: int, i: int, start: int) -> Seq<char>
    decreases sh.exponents.len() - start,
{
    if start >= sh.exponents.len() || start < 0 {
        sh.coefficients[g][i]
    } else if same_value(sh.exponents[start], sh.exponents[i]) && !num_is_zero(
        sh.coefficients[g][start],
    ) {
        sh.coefficients[g][start]
    } else {
        pick_from(sh, g, i, start + 1)
    }
}

/// The coefficients, one per contraction, that the primitives sharing the
/// exponent value of primitive `i` merge into.
pub open spec fn merged_row(sh: ShellV, i: int) -> Seq<Seq<char>> {
    Seq::new(sh.coefficients.len(), |g: int| pick_from(sh, g, i, i))
}

/// Every entry of a row of coefficients is zero.
pub open spec fn row_all_zero(r: Seq<Seq<char>>) -> bool {
    forall|k: int| 0 <= k < r.len() ==> num_is_zero(#[trigger] r[k])
}

/// Primitive `i` survives pruning: it is the first with its exponent value,
/// and its merged coefficients are not all zero.
pub open spec fn kept(sh: ShellV, i: int) -> bool {
    first_occurrence(sh.exponents, i) && !row_all_zero(merged_row(sh, i))
}

/// The surviving primitives below `n`, in increasing order.
pub open spec fn kept_upto(sh: ShellV, n: int) -> Seq<int>
    decreases n,
{
    if n <= 0 {
        Seq::empty()
    } else if kept(sh, n - 1) {
        kept_upto(sh, n - 1).push(n - 1)
    } else {
        kept_upto(sh, n - 1)
    }
}

/// The shell after pruning: one primitive per exponent value, in order of
/// first appearance, with the merged coefficients, and without primitives
/// whose coefficients are all zero. The contractions are the rows of the
/// result's coefficient matrix; there are none when no primitive remains.
pub open spec fn prune_spec(sh: ShellV) -> ShellV {
    let ks = kept_upto(sh, sh.exponents.len() as int);
    ShellV {
        exponents: ks.map_values(|i: int| sh.exponents[i]),
        coefficients: if ks.len() == 0 {
            Seq::empty()
        } else {
            Seq::new(sh.coefficients.len(), |g: int| ks.map_values(|i: int| pick_from(sh, g, i, i)))
        },
        ..sh
    }
}

/// What pruning a shell needs: at least one contraction, as many
/// coefficients in every contraction as in the first, at least one per
/// primitive, numerals throughout, and no exponent value carrying two
/// nonzero coefficients in the same contraction.
pub open spec fn prune_ok(sh: ShellV) -> bool {
    let n = sh.exponents.len();
    &&& sh.coefficients.len() > 0
    &&& n <= sh.coefficients[0].len()
    &&& rows_cover(sh.coefficients, sh.coefficients[0].len() as int)
    &&& all_numerals(sh.exponents)
    &&& forall|g: int, i: int|
        0 <= g < sh.coefficients.len() && 0 <= i < n ==> is_numeral(#[trigger] sh.coefficients[g][i])
    &&& forall|g: int, i: int, j: int|
        0 <= g < sh.coefficients.len() && 0 <= i < j < n && same_value(sh.exponents[i], sh.exponents[j])
            ==> num_is_zero(#[trigger] sh.coefficients[g][i]) || num_is_zero(
            #[trigger] sh.coefficients[g][j],
        )
}

/// The merged coefficient of contraction `g` for primitive `i`.
fn pick(shell: &BseElectronShell, g: usize, i: usize) -> (r: String)
    requires
        prune_ok(shell@),
        g < shell@.coefficients.len(),
        i < shell@.exponents.len(),
    ensures
        r@ == pick_from(shell@, g as int, i as int, i as int),
{
    let ghost sh = shell@;
    let n = shell.exponents.len();
    let row = &shell.coefficients[g];
    assert(sh.coefficients[g as int] == row.deep_view());
    assert(sh.coefficients[g as int].len() >= sh.coefficients[0].len());
    let mut j: usize = i;
    while j < n
        invariant
            i <= j <= n,
            n == sh.exponents.len(),
            sh == shell@,
            prune_ok(sh),
            g < sh.coefficients.len(),
            sh.coefficients[g as int] == row.deep_view(),
            row@.len() >= n,
            pick_from(sh, g as int, i as int, i as int) == pick_from(sh, g as int, i as int, j as int),
        decreases n - j,
    {
        assert(sh.exponents[j as int] == shell.exponents@[j as int]@);
        assert(sh.exponents[i as int] == shell.exponents@[i as int]@);
        assert(sh.coefficients[g as int][j as int] == row@[j as int]@);
        assert(is_numeral(sh.exponents[j as int]));
        assert(is_numeral(sh.exponents[i as int]));
        assert(is_numeral(sh.coefficients[g as int][j as int]));
        if same_numeral_value(shell.exponents[j].as_str(), shell.exponents[i].as_str())
            && !is_zero_numeral(row[j].as_str()) {
            return row[j].clone();
        }
        j = j + 1;
    }
    assert(sh.coefficients[g as int][i as int] == row@[i as int]@);
    row[i].clone()
}

/// Whether primitive `i` is the first with its exponent value.
fn is_first(ex: &Vec<String>, i: usize) -> (r: bool)
    requires
        i < ex@.len(),
        all_numerals(ex.deep_view()),
    ensures
        r == first_occurrence(ex.deep_view(), i as int),
{
    let ghost e = ex.deep_view();
    let mut j: usize = 0;
    while j < i
        invariant
            j <= i < ex@.len(),
            e == ex.deep_view(),
            all_numerals(e),
            forall|k: int| 0 <= k < j ==> !same_value(#[trigger] e[k], e[i as int]),
        decreases i - j,
    {
        assert(e[j as int] == ex@[j as int]@);
        assert(e[i as int] == ex@[i as int]@);
        if same_numeral_value(ex[j].as_str(), ex[i].as_str()) {
            return false;
        }
        j = j + 1;
    }
    true
}

/// Whether every entry of a row of numerals is zero.
fn all_zero(row: &Vec<String>) -> (r: bool)
    requires
        all_numerals(row.deep_view()),
    ensures
        r == row_all_zero(row.deep_view()),
{
    let ghost v = row.deep_view();
    let mut k: usize = 0;
    while k < row.len()
        invariant
            k <= row@.len(),
            v == row.deep_view(),
            all_numerals(v),
            forall|t: int| 0 <= t < k ==> num_is_zero(#[trigger] v[t]),
        decreases row.len() - k,
    {
        assert(v[k as int] == row@[k as int]@);
        if !is_zero_numeral(row[k].as_str()) {
            return false;
        }
        k = k + 1;
    }
    true
}

proof fn lemma_pick_numeral(sh: ShellV, g: int, i: int, start: int)
    requires
        prune_ok(sh),
        0 <= g < sh.coefficients.len(),
        0 <= i < sh.exponents.len(),
    ensures
        is_numeral(pick_from(sh, g, i, start)),
    decreases sh.exponents.len() - start,
{
    if start >= sh.exponents.len() || start < 0 {
    } else if same_value(sh.exponents[start], sh.exponents[i]) && !num_is_zero(
        sh.coefficients[g][start],
    ) {
    } else {
        lemma_pick_numeral(sh, g, i, start + 1);
    }
}

/// Removes exact duplicates of primitives, and condenses duplicate exponents
/// into general contractions. Also removes primitives whose coefficients are
/// all zero.
pub fn prune_shell(shell: &BseElectronShell) -> (r: BseElectronShell)
    requires
        prune_ok(shell@),
    ensures
        r@ == prune_spec(shell@),
{
    let ghost sh = shell@;
    let n = shell.exponents.len();
    let ngen = shell.coefficients.len();
    let mut exps: Vec<String> = Vec::new();
    let mut rows: Vec<Vec<String>> = Vec::new();
    let mut i: usize = 0;
    while i < n
        invariant
            i <= n,
            n == sh.exponents.len(),
            ngen == sh.coefficients.len(),
            sh == shell@,
            prune_ok(sh),
            exps.deep_view() == kept_upto(sh, i as int).map_values(|k: int| sh.exponents[k]),
            rows.deep_view() == kept_upto(sh, i as int).map_values(|k: int| merged_row(sh, k)),
        decreases n - i,
    {
        let ghost before = kept_upto(sh, i as int);
        assert(shell.exponents.deep_view() == sh.exponents);
        if is_first(&shell.exponents, i) {
            let mut row: Vec<String> = Vec::new();
            let mut g: usize = 0;
            while g < ngen
                invariant
                    g <= ngen,
                    i < n,
                    n == sh.exponents.len(),
                    ngen == sh.coefficients.len(),
                    sh == shell@,
                    prune_ok(sh),
                    row.deep_view() == merged_row(sh, i as int).take(g as int),
                decreases ngen - g,
            {
                let c = pick(shell, g, i);
                let ghost prev = row.deep_view();
                let ghost cv = c@;
                row.push(c);
                assert(row.deep_view() =~= prev.push(cv));
                assert(merged_row(sh, i as int)[g as int] == cv);
                assert(row.deep_view() =~= merged_row(sh, i as int).take(g + 1));
                g = g + 1;
            }
            assert(row.deep_view() =~= merged_row(sh, i as int));
            assert(all_numerals(row.deep_view())) by {
                assert forall|k: int| 0 <= k < row.deep_view().len() implies is_numeral(
                    #[trigger] row.deep_view()[k],
                ) by {
                    lemma_pick_numeral(sh, k, i as int, i as int);
                }
            }
            if !all_zero(&row) {
                let ghost pe = exps.deep_view();
                let ghost pr = rows.deep_view();
                let ghost rv = row.deep_view();
                let e = shell.exponents[i].clone();
                assert(e@ == sh.exponents[i as int]);
                exps.push(e);
                rows.push(row);
                assert(exps.deep_view() =~= pe.push(sh.exponents[i as int]));
                assert(rows.deep_view() =~= pr.push(rv));
                assert(kept_upto(sh, i + 1) == before.push(i as int));
                assert(exps.deep_view() =~= kept_upto(sh, i + 1).map_values(|k: int| sh.exponents[k]));
                assert(rows.deep_view() =~= kept_upto(sh, i + 1).map_values(|k: int| merged_row(sh, k)));
            } else {
                assert(kept_upto(sh, i + 1) == before);
            }
        } else {
            assert(kept_upto(sh, i + 1) == before);
        }
        i = i + 1;
    }
    let ghost ks = kept_upto(sh, n as int);
    let coefficients = if rows.len() == 0 {
        Vec::new()
    } else {
        assert(rows.deep_view()[0] == merged_row(sh, ks[0]));
        assert(rows_cover(rows.deep_view(), rows@[0].deep_view().len() as int)) by {
            assert forall|j: int| 0 <= j < rows.deep_view().len() implies #[trigger] rows.deep_view()[j].len()
                >= rows@[0].deep_view().len() by {
                assert(rows.deep_view()[j] == merged_row(sh, ks[j]));
            }
        }
        transpose_matrix(rows.as_slice())
    };
    let r = BseElectronShell {
        function_type: shell.function_type.clone(),
        region: shell.region.clone(),
        angular_momentum: crate::fields::copy_ints(&shell.angular_momentum),
        exponents: exps,
        coefficients,
    };
    proof {
        let p = prune_spec(sh);
        if ks.len() > 0 {
            let t = transpose_spec(rows.deep_view());
            assert(rows.deep_view()[0] == merged_row(sh, ks[0]));
            assert forall|g: int| 0 <= g < t.len() implies #[trigger] t[g] =~= p.coefficients[g] by {
                assert forall|k: int| 0 <= k < ks.len() implies t[g][k] == p.coefficients[g][k] by {
                    assert(rows.deep_view()[k] == merged_row(sh, ks[k]));
                }
            }
            assert(t =~= p.coefficients);
        }
        assert(r@.coefficients =~= p.coefficients);
        assert(r@.exponents =~= p.exponents);
    }
    r
}

/* #endregion */

/* #region lists of shells */

/// A list without its repeated entries: each value stays where it first
/// occurs.
pub open spec fn dedup<T>(s: Seq<T>) -> Seq<T>
    decreases s.len(),
{
    if s.len() == 0 {
        Seq::empty()
    } else {
        let d = dedup(s.drop_last());
        if d.contains(s.last()) {
            d
        } else {
            d.push(s.last())
        }
    }
}

/// What removing duplicates keeps: every item of the result is an item of
/// the input, every item of the input is in the result, and no item of the
/// result appears twice.
pub proof fn lemma_dedup_members<T>(s: Seq<T>)
    ensures
        forall|i: int| 0 <= i < dedup(s).len() ==> s.contains(#[trigger] dedup(s)[i]),
        forall|i: int| 0 <= i < s.len() ==> dedup(s).contains(#[trigger] s[i]),
        forall|i: int, j: int| 0 <= i < j < dedup(s).len() ==> dedup(s)[i] != dedup(s)[j],
    decreases s.len(),
{
    if s.len() > 0 {
        let p = s.drop_last();
        lemma_dedup_members(p);
        let d = dedup(p);
        assert forall|i: int| 0 <= i < dedup(s).len() implies s.contains(#[trigger] dedup(s)[i]) by {
            if i < d.len() {
                assert(p.contains(d[i]));
                let k = choose|k: int| 0 <= k < p.len() && p[k] == d[i];
                assert(s[k] == p[k]);
            } else {
                assert(s[s.len() - 1] == s.last());
            }
        }
        assert forall|i: int| 0 <= i < s.len() implies dedup(s).contains(#[trigger] s[i]) by {
            if i < p.len() {
                assert(s[i] == p[i]);
                assert(d.contains(p[i]));
                let k = choose|k: int| 0 <= k < d.len() && d[k] == p[i];
                assert(dedup(s)[k] == d[k]);
            } else {
                if d.contains(s.last()) {
                } else {
                    assert(dedup(s)[d.len() as int] == s.last());
                }
            }
        }
    }
}

proof fn lemma_kept_upto(sh: ShellV, n: int)
    ensures
        forall|a: int| 0 <= a < kept_upto(sh, n).len() ==> 0 <= #[trigger] kept_upto(sh, n)[a] < n && kept(sh, kept_upto(sh, n)[a]),
        forall|a: int, b: int| 0 <= a < b < kept_upto(sh, n).len() ==> #[trigger] kept_upto(sh, n)[a] < #[trigger] kept_upto(sh, n)[b],
    decreases n,
{
    if n > 0 {
        lemma_kept_upto(sh, n - 1);
        let prev = kept_upto(sh, n - 1);
        let ks = kept_upto(sh, n);
        if kept(sh, n - 1) {
            assert(ks == prev.push(n - 1));
            assert forall|a: int| 0 <= a < ks.len() implies 0 <= #[trigger] ks[a] < n && kept(sh, ks[a]) by {
                if a < prev.len() {
                    assert(ks[a] == prev[a]);
                }
            }
            assert forall|a: int, b: int| 0 <= a < b < ks.len() implies #[trigger] ks[a] < #[trigger] ks[b] by {
                assert(ks[a] == prev[a]);
                if b < prev.len() {
                    assert(ks[b] == prev[b]);
                }
            }
        } else {
            assert(ks == prev);
        }
    }
}

proof fn lemma_pick_alone(p: ShellV, g: int, a: int, start: int)
    requires
        0 <= a,
        forall|j: int| start <= j < p.exponents.len() && j != a ==> !same_value(#[trigger] p.exponents[j], p.exponents[a]),
    ensures
        pick_from(p, g, a, start) == p.coefficients[g][a],
    decreases p.exponents.len() - start,
{
    if start >= p.exponents.len() || start < 0 {
    } else if same_value(p.exponents[start], p.exponents[a]) && !num_is_zero(p.coefficients[g][start]) {
    } else {
        lemma_pick_alone(p, g, a, start + 1);
    }
}

proof fn lemma_kept_all(p: ShellV, k: int)
    requires
        0 <= k <= p.exponents.len(),
        forall|a: int| 0 <= a < p.exponents.len() ==> #[trigger] kept(p, a),
    ensures
        kept_upto(p, k) == Seq::new(k as nat, |i: int| i),
    decreases k,
{
    if k > 0 {
        lemma_kept_all(p, k - 1);
        assert(kept(p, k - 1));
        assert(kept_upto(p, k) =~= Seq::new(k as nat, |i: int| i));
    }
}

/// Pruning a pruned shell changes nothing.
pub proof fn law_prune_shell_idempotent(sh: ShellV)
    ensures
        prune_spec(prune_spec(sh)) == prune_spec(sh),
{
    let p = prune_spec(sh);
    let n = sh.exponents.len() as int;
    let ks = kept_upto(sh, n);
    let m = ks.len() as int;
    lemma_kept_upto(sh, n);
    assert(p.exponents.len() == m);
    assert forall|a: int| 0 <= a < m implies #[trigger] kept(p, a) by {
        assert(first_occurrence(sh.exponents, ks[a]));
        assert forall|b: int| 0 <= b < a implies !same_value(#[trigger] p.exponents[b], p.exponents[a]) by {
            assert(ks[b] < ks[a]);
            assert(p.exponents[b] == sh.exponents[ks[b]]);
            assert(p.exponents[a] == sh.exponents[ks[a]]);
        }
        assert(first_occurrence(p.exponents, a));
        assert forall|j: int| a <= j < m && j != a implies !same_value(#[trigger] p.exponents[j], p.exponents[a]) by {
            assert(ks[a] < ks[j]);
            assert(first_occurrence(sh.exponents, ks[j]));
            assert(!same_value(sh.exponents[ks[a]], sh.exponents[ks[j]]));
        }
        assert(merged_row(p, a) =~= merged_row(sh, ks[a])) by {
            assert forall|g: int| 0 <= g < sh.coefficients.len() implies merged_row(p, a)[g] == merged_row(sh, ks[a])[g] by {
                lemma_pick_alone(p, g, a, a);
            }
        }
    }
    lemma_kept_all(p, m);
    let q = prune_spec(p);
    assert(q.exponents =~= p.exponents);
    if m > 0 {
        assert forall|g: int| 0 <= g < p.coefficients.len() implies #[trigger] q.coefficients[g] =~= p.coefficients[g] by {
            assert forall|a: int| 0 <= a < m implies pick_from(p, g, a, a) == p.coefficients[g][a] by {
                assert forall|j: int| a <= j < m && j != a implies !same_value(#[trigger] p.exponents[j], p.exponents[a]) by {
                    assert(ks[a] < ks[j]);
                    assert(first_occurrence(sh.exponents, ks[j]));
                    assert(!same_value(sh.exponents[ks[a]], sh.exponents[ks[j]]));
                }
                lemma_pick_alone(p, g, a, a);
            }
        }
        assert(q.coefficients =~= p.coefficients);
    } else {
        assert(q.coefficients =~= p.coefficients);
    }
}

proof fn lemma_dedup_distinct<T>(t: Seq<T>)
    requires
        forall|i: int, j: int| 0 <= i < j < t.len() ==> t[i] != t[j],
    ensures
        dedup(t) == t,
    decreases t.len(),
{
    if t.len() > 0 {
        let p = t.drop_last();
        lemma_dedup_distinct(p);
        if p.contains(t.last()) {
            let k = choose|k: int| 0 <= k < p.len() && p[k] == t.last();
            assert(t[k] == t[t.len() - 1]);
        }
        assert(p.push(t.last()) =~= t);
    }
}

/// Pruning a pruned list of shells changes nothing: the shells are pruned
/// already and no shell appears twice.
pub proof fn law_prune_list_idempotent(s: Seq<ShellV>)
    ensures
        prune_list_spec(prune_list_spec(s)) == prune_list_spec(s),
{
    let m = s.map_values(|sh: ShellV| prune_spec(sh));
    let t = dedup(m);
    lemma_dedup_members(m);
    assert forall|i: int| 0 <= i < t.len() implies #[trigger] prune_spec(t[i]) == t[i] by {
        assert(m.contains(t[i]));
        let k = choose|k: int| 0 <= k < m.len() && m[k] == t[i];
        law_prune_shell_idempotent(s[k]);
    }
    assert(t.map_values(|sh: ShellV| prune_spec(sh)) =~= t);
    lemma_dedup_distinct(t);
}

/// Every shell of a list can be pruned.
pub open spec fn prune_list_ok(s: Seq<ShellV>) -> bool {
    forall|k: int| 0 <= k < s.len() ==> prune_ok(#[trigger] s[k])
}

/// A list of shells after pruning each shell and dropping repeated shells.
pub open spec fn prune_list_spec(s: Seq<ShellV>) -> Seq<ShellV> {
    dedup(s.map_values(|sh: ShellV| prune_spec(sh)))
}

/// Whether a list of shells holds a shell with the value of `sh`.
fn contains_shell(v: &Vec<BseElectronShell>, sh: &BseElectronShell) -> (r: bool)
    ensures
        r == shells_view(v@).contains(sh@),
{
    let mut k: usize = 0;
    while k < v.len()
        invariant
            k <= v@.len(),
            forall|t: int| 0 <= t < k ==> #[trigger] v@[t]@ != sh@,
        decreases v.len() - k,
    {
        if v[k].same(sh) {
            assert(shells_view(v@)[k as int] == sh@);
            return true;
        }
        k = k + 1;
    }
    assert forall|t: int| 0 <= t < shells_view(v@).len() implies #[trigger] shells_view(v@)[t] != sh@ by {
        assert(shells_view(v@)[t] == v@[t]@);
    }
    false
}

/// Prune every shell of a list and drop repeated shells.
fn prune_list(shells: &Vec<BseElectronShell>) -> (r: Vec<BseElectronShell>)
    requires
        prune_list_ok(shells_view(shells@)),
    ensures
        shells_view(r@) == prune_list_spec(shells_view(shells@)),
{
    let ghost sv = shells_view(shells@);
    let ghost pv = sv.map_values(|sh: ShellV| prune_spec(sh));
    let mut r: Vec<BseElectronShell> = Vec::new();
    let mut k: usize = 0;
    while k < shells.len()
        invariant
            k <= shells@.len(),
            sv == shells_view(shells@),
            pv == sv.map_values(|sh: ShellV| prune_spec(sh)),
            prune_list_ok(sv),
            shells_view(r@) == dedup(pv.take(k as int)),
        decreases shells.len() - k,
    {
        assert(sv[k as int] == shells@[k as int]@);
        assert(prune_ok(sv[k as int]));
        let p = prune_shell(&shells[k]);
        assert(pv.take(k + 1).drop_last() =~= pv.take(k as int));
        assert(pv.take(k + 1).last() == p@);
        if !contains_shell(&r, &p) {
            let ghost before = shells_view(r@);
            r.push(p);
            assert(shells_view(r@) =~= before.push(pv[k as int]));
        }
        k = k + 1;
    }
    assert(pv.take(shells.len() as int) =~= pv);
    r
}

/// The angular momenta of contractions below `n` that are at most `max`.
pub open spec fn low_ams(sh: ShellV, max: i32, n: int) -> Seq<i32>
    decreases n,
{
    if n <= 0 {
        Seq::empty()
    } else if sh.am[n - 1] > max {
        low_ams(sh, max, n - 1)
    } else {
        low_ams(sh, max, n - 1).push(sh.am[n - 1])
    }
}

/// The contractions below `n` whose angular momentum is at most `max`.
pub open spec fn low_coefs(sh: ShellV, max: i32, n: int) -> Seq<Seq<Seq<char>>>
    decreases n,
{
    if n <= 0 {
        Seq::empty()
    } else if sh.am[n - 1] > max {
        low_coefs(sh, max, n - 1)
    } else {
        low_coefs(sh, max, n - 1).push(sh.coefficients[n - 1])
    }
}

/// A shell holding contraction `g` of `sh` alone, with angular momentum `l`.
pub open spec fn single_contraction(sh: ShellV, l: i32, g: int) -> ShellV {
    ShellV { am: seq![l], coefficients: seq![sh.coefficients[g]], ..sh }
}

/// One shell for each contraction below `n` whose angular momentum exceeds
/// `max`.
pub open spec fn high_shells(sh: ShellV, max: i32, n: int) -> Seq<ShellV>
    decreases n,
{
    if n <= 0 {
        Seq::empty()
    } else if sh.am[n - 1] > max {
        high_shells(sh, max, n - 1).push(single_contraction(sh, sh.am[n - 1], n - 1))
    } else {
        high_shells(sh, max, n - 1)
    }
}

/// What is left of a fused shell (sp, spd, ...) once the contractions above
/// `max` are split off.
pub open spec fn low_shell(sh: ShellV, max: i32) -> ShellV {
    let n = sh.coefficients.len() as int;
    ShellV { am: low_ams(sh, max, n), coefficients: low_coefs(sh, max, n), ..sh }
}

/// Splitting fused shells: every fused shell (more than one angular
/// momentum) leaves its contractions above `max` as shells of their own at
/// the end of the list so far, and the rest of it goes to the front of the
/// list.
pub open spec fn spdf_spec(s: Seq<ShellV>, max: i32) -> Seq<ShellV>
    decreases s.len(),
{
    if s.len() == 0 {
        Seq::empty()
    } else {
        let prev = spdf_spec(s.drop_last(), max);
        let sh = s.last();
        if sh.am.len() > 1 {
            seq![low_shell(sh, max)] + prev + high_shells(sh, max, sh.coefficients.len() as int)
        } else {
            prev.push(sh)
        }
    }
}

/// Every fused shell has an angular momentum for each contraction.
pub open spec fn spdf_ok(s: Seq<ShellV>) -> bool {
    forall|k: int| 0 <= k < s.len() && #[trigger] s[k].am.len() > 1 ==> s[k].coefficients.len() <= s[k].am.len()
}

/// A copy of `sh` with other angular momenta and coefficients.
fn reshaped(sh: &BseElectronShell, am: Vec<i32>, coefficients: Vec<Vec<String>>) -> (r: BseElectronShell)
    ensures
        r@ == (ShellV { am: am@, coefficients: coefficients.deep_view(), ..sh@ }),
{
    BseElectronShell {
        function_type: sh.function_type.clone(),
        region: sh.region.clone(),
        angular_momentum: am,
        exponents: crate::fields::copy_strings(&sh.exponents),
        coefficients,
    }
}

/// Split the fused shells of a list.
fn spdf_list(shells: &Vec<BseElectronShell>, max: i32) -> (r: Vec<BseElectronShell>)
    requires
        spdf_ok(shells_view(shells@)),
    ensures
        shells_view(r@) == spdf_spec(shells_view(shells@), max),
{
    let ghost sv = shells_view(shells@);
    let mut r: Vec<BseElectronShell> = Vec::new();
    let mut k: usize = 0;
    while k < shells.len()
        invariant
            k <= shells@.len(),
            sv == shells_view(shells@),
            spdf_ok(sv),
            shells_view(r@) == spdf_spec(sv.take(k as int), max),
        decreases shells.len() - k,
    {
        let sh = &shells[k];
        let ghost s = sh@;
        assert(sv[k as int] == s);
        assert(sv.take(k + 1).drop_last() =~= sv.take(k as int));
        assert(sv.take(k + 1).last() == s);
        let ghost prev = shells_view(r@);
        if sh.angular_momentum.len() > 1 {
            let ngen = sh.coefficients.len();
            let mut am: Vec<i32> = Vec::new();
            let mut co: Vec<Vec<String>> = Vec::new();
            let mut g: usize = 0;
            while g < ngen
                invariant
                    g <= ngen,
                    ngen == s.coefficients.len(),
                    s == sh@,
                    ngen <= s.am.len(),
                    am@ == low_ams(s, max, g as int),
                    co.deep_view() == low_coefs(s, max, g as int),
                    shells_view(r@) == prev + high_shells(s, max, g as int),
                decreases ngen - g,
            {
                let l = sh.angular_momentum[g];
                assert(s.coefficients[g as int] == sh.coefficients@[g as int].deep_view());
                if l > max {
                    let c = crate::fields::copy_strings(&sh.coefficients[g]);
                    let one = reshaped(sh, vec![l], vec![c]);
                    assert(one@.coefficients =~= seq![s.coefficients[g as int]]);
                    assert(one@.am =~= seq![l]);
                    let ghost before = shells_view(r@);
                    r.push(one);
                    assert(shells_view(r@) =~= before.push(single_contraction(s, l, g as int)));
                } else {
                    let ghost pc = co.deep_view();
                    am.push(l);
                    co.push(crate::fields::copy_strings(&sh.coefficients[g]));
                    assert(co.deep_view() =~= pc.push(s.coefficients[g as int]));
                }
                g = g + 1;
            }
            let low = reshaped(sh, am, co);
            let ghost mid = shells_view(r@);
            r.insert(0, low);
            assert(shells_view(r@) =~= seq![low_shell(s, max)] + mid);
        } else {
            r.push(sh.copy());
            assert(shells_view(r@) =~= prev.push(s));
        }
        k = k + 1;
    }
    assert(sv.take(shells.len() as int) =~= sv);
    r
}

/// The number of the first `n` angular momenta that are at most `max`.
pub open spec fn count_at_most(am: Seq<i32>, max: i32, n: int) -> nat
    decreases n,
{
    if n <= 0 {
        0
    } else {
        count_at_most(am, max, n - 1) + if am[n - 1] <= max {
            1nat
        } else {
            0nat
        }
    }
}

/// How many contractions of a fused shell stay and how many are split off
/// when the contractions above `max` are split off.
proof fn lemma_spdf_sizes(sh: ShellV, max: i32, n: int)
    requires
        0 <= n <= sh.coefficients.len(),
        n <= sh.am.len(),
    ensures
        low_ams(sh, max, n).len() == count_at_most(sh.am, max, n),
        low_coefs(sh, max, n).len() == count_at_most(sh.am, max, n),
        high_shells(sh, max, n).len() == n - count_at_most(sh.am, max, n),
        count_at_most(sh.am, max, n) <= n,
        forall|i: int| 0 <= i < low_ams(sh, max, n).len() ==> #[trigger] low_ams(sh, max, n)[i] <= max,
    decreases n,
{
    if n > 0 {
        lemma_spdf_sizes(sh, max, n - 1);
        let la = low_ams(sh, max, n - 1);
        if sh.am[n - 1] <= max {
            assert(low_ams(sh, max, n) == la.push(sh.am[n - 1]));
        }
    }
}

/// Where each contraction that stays goes.
proof fn lemma_spdf_low(sh: ShellV, max: i32, n: int, g: int)
    requires
        0 <= g < n <= sh.coefficients.len(),
        n <= sh.am.len(),
        sh.am[g] <= max,
    ensures
        count_at_most(sh.am, max, g) < count_at_most(sh.am, max, n),
        low_ams(sh, max, n)[count_at_most(sh.am, max, g) as int] == sh.am[g],
        low_coefs(sh, max, n)[count_at_most(sh.am, max, g) as int] == sh.coefficients[g],
    decreases n,
{
    let m = n - 1;
    lemma_spdf_sizes(sh, max, m);
    if g < m {
        lemma_spdf_low(sh, max, m, g);
        if sh.am[m] <= max {
            assert(low_ams(sh, max, n) == low_ams(sh, max, m).push(sh.am[m]));
            assert(low_coefs(sh, max, n) == low_coefs(sh, max, m).push(sh.coefficients[m]));
        }
    } else {
        assert(low_ams(sh, max, n) == low_ams(sh, max, m).push(sh.am[m]));
        assert(low_coefs(sh, max, n) == low_coefs(sh, max, m).push(sh.coefficients[m]));
    }
}

/// Where each contraction that is split off goes.
proof fn lemma_spdf_high(sh: ShellV, max: i32, n: int, g: int)
    requires
        0 <= g < n <= sh.coefficients.len(),
        n <= sh.am.len(),
        sh.am[g] > max,
    ensures
        0 <= g - count_at_most(sh.am, max, g) < n - count_at_most(sh.am, max, n),
        high_shells(sh, max, n)[g - count_at_most(sh.am, max, g)] == single_contraction(sh, sh.am[g], g),
    decreases n,
{
    let m = n - 1;
    lemma_spdf_sizes(sh, max, m);
    lemma_spdf_sizes(sh, max, g);
    if g < m {
        lemma_spdf_high(sh, max, m, g);
        if sh.am[m] > max {
            assert(high_shells(sh, max, n) == high_shells(sh, max, m).push(
                single_contraction(sh, sh.am[m], m),
            ));
        }
    } else {
        assert(high_shells(sh, max, n) == high_shells(sh, max, m).push(single_contraction(sh, sh.am[m], m)));
    }
}

/// Splitting fused shells: the shell left from the last fused shell of a
/// list stands first in the result and has exactly one contraction for each
/// angular momentum it keeps: the contractions whose angular momentum is at
/// most `max`, in their order, each with its angular momentum. Each
/// contraction above `max` ends up, in order, among the last shells of the
/// result, as a shell of its own with its angular momentum alone.
pub proof fn law_uncontract_spdf_split(s: Seq<ShellV>, max: i32)
    requires
        s.len() > 0,
        s.last().am.len() > 1,
        s.last().coefficients.len() <= s.last().am.len(),
    ensures
        ({
            let sh = s.last();
            let n = sh.coefficients.len() as int;
            let r = spdf_spec(s, max);
            let lo = count_at_most(sh.am, max, n);
            &&& r.len() >= 1 + n - lo
            &&& r[0].exponents == sh.exponents
            &&& r[0].function_type == sh.function_type
            &&& r[0].region == sh.region
            &&& r[0].am.len() == lo
            &&& r[0].coefficients.len() == lo
            &&& forall|i: int| 0 <= i < lo ==> #[trigger] r[0].am[i] <= max
            &&& forall|g: int|
                0 <= g < n && #[trigger] sh.am[g] <= max ==> r[0].am[count_at_most(sh.am, max, g) as int]
                    == sh.am[g] && r[0].coefficients[count_at_most(sh.am, max, g) as int] == sh.coefficients[g]
            &&& forall|g: int|
                0 <= g < n && #[trigger] sh.am[g] > max ==> {
                    let x = r[r.len() - (n - lo) + g - count_at_most(sh.am, max, g)];
                    &&& x.am == seq![sh.am[g]]
                    &&& x.coefficients == seq![sh.coefficients[g]]
                    &&& x.exponents == sh.exponents
                }
        }),
{
    let sh = s.last();
    let n = sh.coefficients.len() as int;
    let prev = spdf_spec(s.drop_last(), max);
    let r = spdf_spec(s, max);
    let hs = high_shells(sh, max, n);
    let lo = count_at_most(sh.am, max, n);
    lemma_spdf_sizes(sh, max, n);
    assert(r == seq![low_shell(sh, max)] + prev + hs);
    assert(r[0] == low_shell(sh, max));
    assert forall|g: int| 0 <= g < n && #[trigger] sh.am[g] <= max implies r[0].am[count_at_most(sh.am, max, g) as int]
        == sh.am[g] && r[0].coefficients[count_at_most(sh.am, max, g) as int] == sh.coefficients[g] by {
        lemma_spdf_low(sh, max, n, g);
    }
    assert forall|g: int| 0 <= g < n && #[trigger] sh.am[g] > max implies r[r.len() - (n - lo) + g - count_at_most(
        sh.am,
        max,
        g,
    )] == single_contraction(sh, sh.am[g], g) by {
        lemma_spdf_high(sh, max, n, g);
        let x = g - count_at_most(sh.am, max, g);
        assert(r[1 + prev.len() + x] == hs[x]);
    }
}

/// Removing general contractions: a shell with one angular momentum and
/// several contractions becomes one shell per contraction; a shell with a
/// single contraction, or with several angular momenta, stays; a shell with
/// no angular momentum and other than one contraction is dropped.
pub open spec fn general_piece(sh: ShellV) -> Seq<ShellV> {
    if sh.coefficients.len() == 1 || sh.am.len() > 1 {
        seq![sh]
    } else if sh.am.len() == 1 {
        Seq::new(sh.coefficients.len(), |g: int| ShellV { coefficients: seq![sh.coefficients[g]], ..sh })
    } else {
        Seq::empty()
    }
}

/// The pieces of a list of shells, concatenated in order.
pub open spec fn general_spec(s: Seq<ShellV>) -> Seq<ShellV>
    decreases s.len(),
{
    if s.len() == 0 {
        Seq::empty()
    } else {
        general_spec(s.drop_last()) + general_piece(s.last())
    }
}

/// Remove the general contractions of a list of shells.
fn general_list(shells: &Vec<BseElectronShell>) -> (r: Vec<BseElectronShell>)
    ensures
        shells_view(r@) == general_spec(shells_view(shells@)),
{
    let ghost sv = shells_view(shells@);
    let mut r: Vec<BseElectronShell> = Vec::new();
    let mut k: usize = 0;
    while k < shells.len()
        invariant
            k <= shells@.len(),
            sv == shells_view(shells@),
            shells_view(r@) == general_spec(sv.take(k as int)),
        decreases shells.len() - k,
    {
        let sh = &shells[k];
        let ghost s = sh@;
        assert(sv[k as int] == s);
        assert(sv.take(k + 1).drop_last() =~= sv.take(k as int));
        assert(sv.take(k + 1).last() == s);
        let ghost prev = shells_view(r@);
        if sh.coefficients.len() == 1 || sh.angular_momentum.len() > 1 {
            r.push(sh.copy());
            assert(shells_view(r@) =~= prev + general_piece(s));
        } else if sh.angular_momentum.len() == 1 {
            let ngen = sh.coefficients.len();
            let mut g: usize = 0;
            while g < ngen
                invariant
                    g <= ngen,
                    ngen == s.coefficients.len(),
                    s == sh@,
                    s.am.len() == 1,
                    s.coefficients.len() != 1,
                    shells_view(r@) == prev + general_piece(s).take(g as int),
                decreases ngen - g,
            {
                let c = crate::fields::copy_strings(&sh.coefficients[g]);
                assert(s.coefficients[g as int] == sh.coefficients@[g as int].deep_view());
                let one = reshaped(sh, crate::fields::copy_ints(&sh.angular_momentum), vec![c]);
                assert(one@.coefficients =~= seq![s.coefficients[g as int]]);
                let ghost before = shells_view(r@);
                assert(one@ == (ShellV { coefficients: seq![s.coefficients[g as int]], ..s }));
                assert(one@ == general_piece(s)[g as int]);
                r.push(one);
                assert(shells_view(r@) =~= before.push(general_piece(s)[g as int]));
                assert(shells_view(r@) =~= prev + general_piece(s).take(g + 1));
                g = g + 1;
            }
            assert(general_piece(s).take(ngen as int) =~= general_piece(s));
        } else {
            assert(general_piece(s) =~= Seq::<ShellV>::empty());
            assert(shells_view(r@) =~= prev + general_piece(s));
        }
        k = k + 1;
    }
    assert(sv.take(shells.len() as int) =~= sv);
    r
}

/// The coefficient that an uncontracted primitive gets.
pub open spec fn unit_coef() -> Seq<char> {
    "1.00000000E+00"@
}

/// Removing segmented contractions: each primitive of a shell becomes a
/// shell of its own, with a unit coefficient for each angular momentum.
pub open spec fn segmented_piece(sh: ShellV) -> Seq<ShellV> {
    Seq::new(
        sh.exponents.len(),
        |i: int|
            ShellV {
                exponents: seq![sh.exponents[i]],
                coefficients: Seq::new(sh.am.len(), |a: int| seq![unit_coef()]),
                ..sh
            },
    )
}

/// The pieces of a list of shells, concatenated in order.
pub open spec fn segmented_spec(s: Seq<ShellV>) -> Seq<ShellV>
    decreases s.len(),
{
    if s.len() == 0 {
        Seq::empty()
    } else {
        segmented_spec(s.drop_last()) + segmented_piece(s.last())
    }
}

/// Unit coefficients, one contraction per angular momentum.
fn unit_coefs(nam: usize) -> (r: Vec<Vec<String>>)
    ensures
        r.deep_view() == Seq::new(nam as nat, |a: int| seq![unit_coef()]),
{
    let mut r: Vec<Vec<String>> = Vec::new();
    let mut a: usize = 0;
    while a < nam
        invariant
            a <= nam,
            r.deep_view() == Seq::new(a as nat, |t: int| seq![unit_coef()]),
        decreases nam - a,
    {
        let one = String::from_str("1.00000000E+00");
        proof {
            reveal_strlit("1.00000000E+00");
        }
        let ghost before = r.deep_view();
        let row = vec![one];
        assert(row.deep_view() =~= seq![unit_coef()]);
        r.push(row);
        assert(r.deep_view() =~= before.push(seq![unit_coef()]));
        assert(r.deep_view() =~= Seq::new((a + 1) as nat, |t: int| seq![unit_coef()]));
        a = a + 1;
    }
    r
}

/// Remove the segmented contractions of a list of shells.
fn segmented_list(shells: &Vec<BseElectronShell>) -> (r: Vec<BseElectronShell>)
    ensures
        shells_view(r@) == segmented_spec(shells_view(shells@)),
{
    let ghost sv = shells_view(shells@);
    let mut r: Vec<BseElectronShell> = Vec::new();
    let mut k: usize = 0;
    while k < shells.len()
        invariant
            k <= shells@.len(),
            sv == shells_view(shells@),
            shells_view(r@) == segmented_spec(sv.take(k as int)),
        decreases shells.len() - k,
    {
        let sh = &shells[k];
        let ghost s = sh@;
        assert(sv[k as int] == s);
        assert(sv.take(k + 1).drop_last() =~= sv.take(k as int));
        assert(sv.take(k + 1).last() == s);
        let ghost prev = shells_view(r@);
        let n = sh.exponents.len();
        let mut i: usize = 0;
        while i < n
            invariant
                i <= n,
                n == s.exponents.len(),
                s == sh@,
                shells_view(r@) == prev + segmented_piece(s).take(i as int),
            decreases n - i,
        {
            assert(s.exponents[i as int] == sh.exponents@[i as int]@);
            let one = BseElectronShell {
                function_type: sh.function_type.clone(),
                region: sh.region.clone(),
                angular_momentum: crate::fields::copy_ints(&sh.angular_momentum),
                exponents: vec![sh.exponents[i].clone()],
                coefficients: unit_coefs(sh.angular_momentum.len()),
            };
            assert(one@.exponents =~= seq![s.exponents[i as int]]);
            assert(one@ == segmented_piece(s)[i as int]);
            let ghost before = shells_view(r@);
            r.push(one);
            assert(shells_view(r@) =~= before.push(segmented_piece(s)[i as int]));
            assert(shells_view(r@) =~= prev + segmented_piece(s).take(i + 1));
            i = i + 1;
        }
        assert(segmented_piece(s).take(n as int) =~= segmented_piece(s));
        k = k + 1;
    }
    assert(sv.take(shells.len() as int) =~= sv);
    r
}

/// The number of nonzero entries of a list of numerals.
pub open spec fn nonzero_count(c: Seq<Seq<char>>) -> nat
    decreases c.len(),
{
    if c.len() == 0 {
        0
    } else {
        nonzero_count(c.drop_last()) + if num_is_zero(c.last()) {
            0nat
        } else {
            1nat
        }
    }
}

/// A contraction with exactly one nonzero coefficient: a free primitive.
pub open spec fn is_single(c: Seq<Seq<char>>) -> bool {
    nonzero_count(c) == 1
}

/// Every coefficient of every shell is a numeral.
pub open spec fn coefs_numeral(s: Seq<ShellV>) -> bool {
    forall|k: int, g: int|
        0 <= k < s.len() && 0 <= g < s[k].coefficients.len() ==> all_numerals(
            #[trigger] s[k].coefficients[g],
        )
}

/// The contractions of a shell that are not free primitives, in order.
pub open spec fn contracted(c: Seq<Seq<Seq<char>>>) -> Seq<Seq<Seq<char>>>
    decreases c.len(),
{
    if c.len() == 0 {
        Seq::empty()
    } else if is_single(c.last()) {
        contracted(c.drop_last())
    } else {
        contracted(c.drop_last()).push(c.last())
    }
}

/// Removing free primitives: each shell keeps its contractions that are not
/// free primitives, and a shell with none left is dropped.
pub open spec fn remove_free_spec(s: Seq<ShellV>) -> Seq<ShellV>
    decreases s.len(),
{
    if s.len() == 0 {
        Seq::empty()
    } else {
        let prev = remove_free_spec(s.drop_last());
        let c = contracted(s.last().coefficients);
        if c.len() == 0 {
            prev
        } else {
            prev.push(ShellV { coefficients: c, ..s.last() })
        }
    }
}

/// Whether a contraction has exactly one nonzero coefficient.
fn single_column(c: &Vec<String>) -> (r: bool)
    requires
        all_numerals(c.deep_view()),
    ensures
        r == is_single(c.deep_view()),
{
    let ghost v = c.deep_view();
    let mut count: usize = 0;
    let mut k: usize = 0;
    while k < c.len()
        invariant
            k <= c@.len(),
            v == c.deep_view(),
            all_numerals(v),
            count == nonzero_count(v.take(k as int)),
            count <= k,
        decreases c.len() - k,
    {
        assert(v.take(k + 1).drop_last() =~= v.take(k as int));
        assert(v[k as int] == c@[k as int]@);
        if !is_zero_numeral(c[k].as_str()) {
            count = count + 1;
        }
        k = k + 1;
    }
    assert(v.take(c.len() as int) =~= v);
    count == 1
}

/// Remove the free primitives of a list of shells.
fn remove_free_list(shells: &Vec<BseElectronShell>) -> (r: Vec<BseElectronShell>)
    requires
        coefs_numeral(shells_view(shells@)),
    ensures
        shells_view(r@) == remove_free_spec(shells_view(shells@)),
{
    let ghost sv = shells_view(shells@);
    let mut r: Vec<BseElectronShell> = Vec::new();
    let mut k: usize = 0;
    while k < shells.len()
        invariant
            k <= shells@.len(),
            sv == shells_view(shells@),
            coefs_numeral(sv),
            shells_view(r@) == remove_free_spec(sv.take(k as int)),
        decreases shells.len() - k,
    {
        let sh = &shells[k];
        let ghost s = sh@;
        assert(sv[k as int] == s);
        assert(sv.take(k + 1).drop_last() =~= sv.take(k as int));
        assert(sv.take(k + 1).last() == s);
        let ngen = sh.coefficients.len();
        let mut co: Vec<Vec<String>> = Vec::new();
        let mut g: usize = 0;
        while g < ngen
            invariant
                g <= ngen,
                ngen == s.coefficients.len(),
                s == sh@,
                s == sv[k as int],
                k < sv.len(),
                coefs_numeral(sv),
                co.deep_view() == contracted(s.coefficients.take(g as int)),
            decreases ngen - g,
        {
            assert(s.coefficients.take(g + 1).drop_last() =~= s.coefficients.take(g as int));
            assert(s.coefficients[g as int] == sh.coefficients@[g as int].deep_view());
            assert(all_numerals(sv[k as int].coefficients[g as int]));
            if !single_column(&sh.coefficients[g]) {
                let ghost pc = co.deep_view();
                co.push(crate::fields::copy_strings(&sh.coefficients[g]));
                assert(co.deep_view() =~= pc.push(s.coefficients[g as int]));
            }
            g = g + 1;
        }
        assert(s.coefficients.take(ngen as int) =~= s.coefficients);
        if co.len() > 0 {
            let ghost prev = shells_view(r@);
            let one = reshaped(sh, crate::fields::copy_ints(&sh.angular_momentum), co);
            r.push(one);
            assert(shells_view(r@) =~= prev.push(ShellV { coefficients: contracted(s.coefficients), ..s }));
        }
        k = k + 1;
    }
    assert(sv.take(shells.len() as int) =~= sv);
    r
}

/// The contractions kept from a shell are exactly its contractions that do
/// not have a single nonzero coefficient.
proof fn lemma_contracted_members(c: Seq<Seq<Seq<char>>>)
    ensures
        forall|i: int| 0 <= i < contracted(c).len() ==> nonzero_count(#[trigger] contracted(c)[i]) != 1,
        forall|g: int|
            0 <= g < c.len() && nonzero_count(#[trigger] c[g]) != 1 ==> contracted(c).contains(c[g]),
    decreases c.len(),
{
    if c.len() > 0 {
        let d = c.drop_last();
        lemma_contracted_members(d);
        assert forall|g: int| 0 <= g < c.len() && nonzero_count(#[trigger] c[g]) != 1 implies contracted(
            c,
        ).contains(c[g]) by {
            if g < c.len() - 1 {
                assert(d[g] == c[g]);
                let i = choose|i: int| 0 <= i < contracted(d).len() && contracted(d)[i] == d[g];
                if !is_single(c.last()) {
                    assert(contracted(c)[i] == c[g]);
                }
            } else {
                assert(contracted(c)[contracted(c).len() - 1] == c[g]);
            }
        }
    }
}

/// Removing free primitives keeps no contraction with a single nonzero
/// coefficient and no shell without a contraction, and it keeps every
/// contraction with another number of nonzero coefficients, in a shell with
/// the exponents and angular momenta of the shell it came from.
pub proof fn law_remove_free_primitives(s: Seq<ShellV>)
    ensures
        forall|j: int, g: int|
            0 <= j < remove_free_spec(s).len() && 0 <= g < remove_free_spec(s)[j].coefficients.len()
                ==> nonzero_count(#[trigger] remove_free_spec(s)[j].coefficients[g]) != 1,
        forall|j: int| 0 <= j < remove_free_spec(s).len() ==> (#[trigger] remove_free_spec(s)[j]).coefficients.len() > 0,
        forall|k: int, g: int|
            0 <= k < s.len() && 0 <= g < s[k].coefficients.len() && nonzero_count(#[trigger] s[k].coefficients[g]) != 1
                ==> exists|j: int|
                0 <= j < remove_free_spec(s).len() && (#[trigger] remove_free_spec(s)[j]).exponents == s[k].exponents
                    && remove_free_spec(s)[j].am == s[k].am && remove_free_spec(s)[j].coefficients.contains(
                    s[k].coefficients[g],
                ),
    decreases s.len(),
{
    if s.len() > 0 {
        let t = s.drop_last();
        let prev = remove_free_spec(t);
        let r = remove_free_spec(s);
        let c = contracted(s.last().coefficients);
        law_remove_free_primitives(t);
        lemma_contracted_members(s.last().coefficients);
        assert forall|j: int| 0 <= j < r.len() implies (#[trigger] r[j]).coefficients.len() > 0 && forall|g: int|
            0 <= g < r[j].coefficients.len() ==> nonzero_count(#[trigger] r[j].coefficients[g]) != 1 by {
            if j < prev.len() {
                assert(r[j] == prev[j]);
            } else {
                assert(r[j].coefficients == c);
            }
        }
        assert forall|k: int, g: int|
            0 <= k < s.len() && 0 <= g < s[k].coefficients.len() && nonzero_count(#[trigger] s[k].coefficients[g])
                != 1 implies exists|j: int|
            0 <= j < r.len() && (#[trigger] r[j]).exponents == s[k].exponents && r[j].am == s[k].am
                && r[j].coefficients.contains(s[k].coefficients[g]) by {
            if k < s.len() - 1 {
                assert(t[k] == s[k]);
                assert(nonzero_count(t[k].coefficients[g]) != 1);
                let j = choose|j: int|
                    0 <= j < prev.len() && (#[trigger] prev[j]).exponents == t[k].exponents && prev[j].am == t[k].am
                        && prev[j].coefficients.contains(t[k].coefficients[g]);
                assert(r[j] == prev[j]);
            } else {
                assert(c.contains(s[k].coefficients[g]));
                assert(r[prev.len() as int].coefficients == c);
            }
        }
    }
}

/* #endregion */

/* #region general contractions */

/// Lexicographic order of lists of angular momenta.
pub open spec fn lex_lt(a: Seq<i32>, b: Seq<i32>) -> bool
    decreases a.len(),
{
    if a.len() == 0 {
        b.len() > 0
    } else if b.len() == 0 {
        false
    } else {
        a[0] < b[0] || (a[0] == b[0] && lex_lt(a.drop_first(), b.drop_first()))
    }
}

/// How many entries of `p` come before `x`.
pub open spec fn count_less(p: Seq<Seq<i32>>, x: Seq<i32>) -> nat
    decreases p.len(),
{
    if p.len() == 0 {
        0
    } else {
        count_less(p.drop_last(), x) + if lex_lt(p.last(), x) {
            1nat
        } else {
            0nat
        }
    }
}

/// `x` inserted into the ordered list `p` after everything before it.
pub open spec fn insert_key(p: Seq<Seq<i32>>, x: Seq<i32>) -> Seq<Seq<i32>> {
    let c = count_less(p, x) as int;
    p.take(c).push(x) + p.skip(c)
}

/// The distinct angular momenta of the shells that are not fused, in
/// increasing order.
pub open spec fn keys_spec(s: Seq<ShellV>) -> Seq<Seq<i32>>
    decreases s.len(),
{
    if s.len() == 0 {
        Seq::empty()
    } else {
        let p = keys_spec(s.drop_last());
        let am = s.last().am;
        if am.len() > 1 || p.contains(am) {
            p
        } else {
            insert_key(p, am)
        }
    }
}

/// The fused shells (more than one angular momentum), in order.
pub open spec fn fused_spec(s: Seq<ShellV>) -> Seq<ShellV>
    decreases s.len(),
{
    if s.len() == 0 {
        Seq::empty()
    } else if s.last().am.len() > 1 {
        fused_spec(s.drop_last()).push(s.last())
    } else {
        fused_spec(s.drop_last())
    }
}

/// The exponents of the shells with angular momentum `key`, in order.
pub open spec fn merge_exps(s: Seq<ShellV>, key: Seq<i32>) -> Seq<Seq<char>>
    decreases s.len(),
{
    if s.len() == 0 {
        Seq::empty()
    } else if s.last().am == key {
        merge_exps(s.drop_last(), key) + s.last().exponents
    } else {
        merge_exps(s.drop_last(), key)
    }
}

/// The first nonempty function type of the shells with angular momentum
/// `key`, or the empty string.
pub open spec fn merge_ft(s: Seq<ShellV>, key: Seq<i32>) -> Seq<char>
    decreases s.len(),
{
    if s.len() == 0 {
        Seq::empty()
    } else {
        let p = merge_ft(s.drop_last(), key);
        if s.last().am == key && p.len() == 0 {
            s.last().function_type
        } else {
            p
        }
    }
}

/// The coefficient that pads a merged contraction.
pub open spec fn zero_coef() -> Seq<char> {
    "0.00000000"@
}

/// `n` zero coefficients.
pub open spec fn zeros(n: int) -> Seq<Seq<char>> {
    Seq::new(n as nat, |k: int| zero_coef())
}

/// A contraction placed at primitive `cur` of a merged shell with `total`
/// primitives, padded with zeros on both sides.
pub open spec fn padded(cur: int, c: Seq<Seq<char>>, total: int) -> Seq<Seq<char>> {
    zeros(cur) + c + zeros(total - cur - c.len())
}

/// The contractions of the shells with angular momentum `key`, each padded
/// to the primitives of the merged shell.
pub open spec fn merge_rows(s: Seq<ShellV>, key: Seq<i32>, total: int) -> Seq<Seq<Seq<char>>>
    decreases s.len(),
{
    if s.len() == 0 {
        Seq::empty()
    } else {
        let prev = merge_rows(s.drop_last(), key, total);
        let sh = s.last();
        if sh.am == key {
            let cur = merge_exps(s.drop_last(), key).len() as int;
            prev + Seq::new(sh.coefficients.len(), |g: int| padded(cur, sh.coefficients[g], total))
        } else {
            prev
        }
    }
}

/// The shell that merges all shells with angular momentum `key` into one
/// general contraction.
pub open spec fn merged_shell(s: Seq<ShellV>, key: Seq<i32>) -> ShellV {
    let ex = merge_exps(s, key);
    ShellV {
        function_type: merge_ft(s, key),
        region: Seq::empty(),
        am: key,
        exponents: ex,
        coefficients: merge_rows(s, key, ex.len() as int),
    }
}

/// Merging: the fused shells first, then one general contraction per
/// angular momentum, in increasing order of it.
pub open spec fn merge_spec(s: Seq<ShellV>) -> Seq<ShellV> {
    fused_spec(s) + keys_spec(s).map_values(|k: Seq<i32>| merged_shell(s, k))
}

/// Shell `j` can join the merged shell of its angular momentum: its
/// function type and the one chosen so far contain one another, and each of
/// its contractions fits into the merged primitives.
pub open spec fn joins(s: Seq<ShellV>, j: int) -> bool {
    let key = s[j].am;
    let f = merge_ft(s.take(j + 1), key);
    let cur = merge_exps(s.take(j), key).len();
    &&& (crate::text::contains_spec(f, s[j].function_type) || crate::text::contains_spec(
        s[j].function_type,
        f,
    ))
    &&& forall|g: int|
        0 <= g < s[j].coefficients.len() ==> cur + (#[trigger] s[j].coefficients[g]).len() <= merge_exps(
            s,
            key,
        ).len()
}

/// Every shell that is not fused can join its merged shell.
pub open spec fn merge_ok(s: Seq<ShellV>) -> bool {
    forall|j: int| 0 <= j < s.len() && (#[trigger] s[j]).am.len() <= 1 ==> joins(s, j)
}

proof fn lemma_count_less(p: Seq<Seq<i32>>, x: Seq<i32>)
    ensures
        count_less(p, x) <= p.len(),
    decreases p.len(),
{
    if p.len() > 0 {
        lemma_count_less(p.drop_last(), x);
    }
}

/// Whether `a` comes before `b` in lexicographic order.
pub(crate) fn lex_less(a: &Vec<i32>, b: &Vec<i32>) -> (r: bool)
    ensures
        r == lex_lt(a@, b@),
{
    let mut k: usize = 0;
    assert(a@.skip(0) =~= a@);
    assert(b@.skip(0) =~= b@);
    while k < a.len() && k < b.len() && a[k] == b[k]
        invariant
            k <= a@.len(),
            k <= b@.len(),
            a@.take(k as int) == b@.take(k as int),
            lex_lt(a@, b@) == lex_lt(a@.skip(k as int), b@.skip(k as int)),
        decreases a.len() - k,
    {
        assert(a@.skip(k as int).drop_first() =~= a@.skip(k + 1));
        assert(b@.skip(k as int).drop_first() =~= b@.skip(k + 1));
        assert(a@.take(k + 1) =~= a@.take(k as int).push(a@[k as int]));
        assert(b@.take(k + 1) =~= b@.take(k as int).push(b@[k as int]));
        k = k + 1;
    }
    let ghost sa = a@.skip(k as int);
    let ghost sb = b@.skip(k as int);
    if k == a.len() {
        assert(sa.len() == 0);
        k < b.len()
    } else if k == b.len() {
        assert(sb.len() == 0);
        false
    } else {
        assert(sa[0] == a@[k as int]);
        assert(sb[0] == b@[k as int]);
        a[k] < b[k]
    }
}

/// Whether a list of angular momenta holds `x`.
fn contains_key(p: &Vec<Vec<i32>>, x: &Vec<i32>) -> (r: bool)
    ensures
        r == p.deep_view().contains(x@),
{
    let mut k: usize = 0;
    while k < p.len()
        invariant
            k <= p@.len(),
            forall|t: int| 0 <= t < k ==> #[trigger] p.deep_view()[t] != x@,
        decreases p.len() - k,
    {
        assert(p.deep_view()[k as int] == p@[k as int]@);
        if crate::fields::ints_eq(&p[k], x) {
            return true;
        }
        k = k + 1;
    }
    false
}

/// Insert `x` into the ordered list `p` after everything before it.
fn insert_key_exec(p: &mut Vec<Vec<i32>>, x: Vec<i32>)
    ensures
        final(p).deep_view() == insert_key(old(p).deep_view(), x@),
{
    let ghost q = p.deep_view();
    let mut c: usize = 0;
    let mut k: usize = 0;
    while k < p.len()
        invariant
            k <= p@.len(),
            q == p.deep_view(),
            c == count_less(q.take(k as int), x@),
            c <= k,
        decreases p.len() - k,
    {
        assert(q.take(k + 1).drop_last() =~= q.take(k as int));
        assert(q[k as int] == p@[k as int]@);
        if lex_less(&p[k], &x) {
            c = c + 1;
        }
        k = k + 1;
    }
    assert(q.take(p.len() as int) =~= q);
    proof {
        lemma_count_less(q, x@);
    }
    let ghost old_p = p@;
    let ghost xv = x@;
    p.insert(c, x);
    assert(p.deep_view() =~= insert_key(q, xv)) by {
        let ins = insert_key(q, xv);
        assert(ins.len() == q.len() + 1);
        assert forall|t: int| 0 <= t < ins.len() implies p.deep_view()[t] == ins[t] by {
            if t < c {
                assert(p@[t] == old_p[t]);
            } else if t > c {
                assert(p@[t] == old_p[t - 1]);
            }
        }
    }
}

/// The padding of zero coefficients.
fn zeros_exec(n: usize) -> (r: Vec<String>)
    ensures
        r.deep_view() == zeros(n as int),
{
    let mut r: Vec<String> = Vec::new();
    let mut k: usize = 0;
    while k < n
        invariant
            k <= n,
            r.deep_view() == zeros(k as int),
        decreases n - k,
    {
        let z = String::from_str("0.00000000");
        proof {
            reveal_strlit("0.00000000");
        }
        let ghost before = r.deep_view();
        r.push(z);
        assert(r.deep_view() =~= before.push(zero_coef()));
        assert(r.deep_view() =~= zeros(k + 1));
        k = k + 1;
    }
    r
}

/// Append a list of strings to another.
fn append_strings(r: &mut Vec<String>, v: &Vec<String>)
    ensures
        final(r).deep_view() == old(r).deep_view() + v.deep_view(),
{
    let ghost start = r.deep_view();
    let mut k: usize = 0;
    while k < v.len()
        invariant
            k <= v@.len(),
            r.deep_view() == start + v.deep_view().take(k as int),
        decreases v.len() - k,
    {
        let ghost before = r.deep_view();
        r.push(v[k].clone());
        assert(r.deep_view() =~= before.push(v.deep_view()[k as int]));
        assert(r.deep_view() =~= start + v.deep_view().take(k + 1));
        k = k + 1;
    }
    assert(v.deep_view().take(v.len() as int) =~= v.deep_view());
}

proof fn lemma_merge_exps_prefix(s: Seq<ShellV>, key: Seq<i32>, j: int)
    requires
        0 <= j <= s.len(),
    ensures
        merge_exps(s.take(j), key).len() <= merge_exps(s, key).len(),
    decreases s.len() - j,
{
    if j < s.len() {
        lemma_merge_exps_prefix(s, key, j + 1);
        assert(s.take(j + 1).drop_last() =~= s.take(j));
    } else {
        assert(s.take(j) =~= s);
    }
}

/// Merge the shells of a list with angular momentum `key`.
fn merge_for(shells: &Vec<BseElectronShell>, key: &Vec<i32>) -> (r: BseElectronShell)
    requires
        merge_ok(shells_view(shells@)),
        key@.len() <= 1,
    ensures
        r@ == merged_shell(shells_view(shells@), key@),
{
    let ghost sv = shells_view(shells@);
    let n = shells.len();
    let mut exps: Vec<String> = Vec::new();
    let mut k: usize = 0;
    while k < n
        invariant
            k <= n,
            n == sv.len(),
            sv == shells_view(shells@),
            exps.deep_view() == merge_exps(sv.take(k as int), key@),
        decreases n - k,
    {
        assert(sv.take(k + 1).drop_last() =~= sv.take(k as int));
        assert(sv[k as int] == shells@[k as int]@);
        if crate::fields::ints_eq(&shells[k].angular_momentum, key) {
            append_strings(&mut exps, &shells[k].exponents);
        }
        k = k + 1;
    }
    assert(sv.take(n as int) =~= sv);
    let total = exps.len();
    let mut ft = String::new();
    let mut rows: Vec<Vec<String>> = Vec::new();
    let mut cur: usize = 0;
    k = 0;
    while k < n
        invariant
            k <= n,
            n == sv.len(),
            sv == shells_view(shells@),
            merge_ok(sv),
            key@.len() <= 1,
            total == merge_exps(sv, key@).len(),
            cur == merge_exps(sv.take(k as int), key@).len(),
            cur <= total,
            ft@ == merge_ft(sv.take(k as int), key@),
            rows.deep_view() == merge_rows(sv.take(k as int), key@, total as int),
        decreases n - k,
    {
        let ghost t = sv.take(k + 1);
        assert(t.drop_last() =~= sv.take(k as int));
        assert(sv[k as int] == shells@[k as int]@);
        let sh = &shells[k];
        proof {
            lemma_merge_exps_prefix(sv, key@, k + 1);
        }
        if crate::fields::ints_eq(&sh.angular_momentum, key) {
            if ft.as_str().is_empty() {
                ft = sh.function_type.clone();
            }
            assert(joins(sv, k as int));
            let ngen = sh.coefficients.len();
            let mut g: usize = 0;
            let ghost prev = rows.deep_view();
            while g < ngen
                invariant
                    g <= ngen,
                    ngen == sv[k as int].coefficients.len(),
                    sv[k as int] == sh@,
                    k < sv.len(),
                    sv == shells_view(shells@),
                    joins(sv, k as int),
                    sv[k as int].am == key@,
                    total == merge_exps(sv, key@).len(),
                    cur == merge_exps(sv.take(k as int), key@).len(),
                    rows.deep_view() == prev + Seq::new(
                        g as nat,
                        |a: int| padded(cur as int, sv[k as int].coefficients[a], total as int),
                    ),
                decreases ngen - g,
            {
                let c = &sh.coefficients[g];
                assert(sv[k as int].coefficients[g as int] == c.deep_view());
                assert(cur + c.deep_view().len() <= total);
                let mut row = zeros_exec(cur);
                append_strings(&mut row, c);
                let tail = zeros_exec(total - cur - c.len());
                append_strings(&mut row, &tail);
                let ghost before = rows.deep_view();
                assert(row.deep_view() =~= padded(cur as int, sv[k as int].coefficients[g as int], total as int));
                rows.push(row);
                assert(rows.deep_view() =~= before.push(padded(cur as int, sv[k as int].coefficients[g as int], total as int)));
                assert(rows.deep_view() =~= prev + Seq::new(
                    (g + 1) as nat,
                    |a: int| padded(cur as int, sv[k as int].coefficients[a], total as int),
                ));
                g = g + 1;
            }
            assert(merge_exps(t, key@) == merge_exps(sv.take(k as int), key@) + sv[k as int].exponents);
            cur = cur + sh.exponents.len();
        }
        k = k + 1;
    }
    assert(sv.take(n as int) =~= sv);
    BseElectronShell {
        function_type: ft,
        region: String::new(),
        angular_momentum: crate::fields::copy_ints(key),
        exponents: exps,
        coefficients: rows,
    }
}

/// Merge a list of shells: fused shells first, then one general
/// contraction per angular momentum.
fn merge_list(shells: &Vec<BseElectronShell>) -> (r: Vec<BseElectronShell>)
    requires
        merge_ok(shells_view(shells@)),
    ensures
        shells_view(r@) == merge_spec(shells_view(shells@)),
{
    let ghost sv = shells_view(shells@);
    let n = shells.len();
    let mut fused: Vec<BseElectronShell> = Vec::new();
    let mut keys: Vec<Vec<i32>> = Vec::new();
    let mut k: usize = 0;
    while k < n
        invariant
            k <= n,
            n == sv.len(),
            sv == shells_view(shells@),
            shells_view(fused@) == fused_spec(sv.take(k as int)),
            keys.deep_view() == keys_spec(sv.take(k as int)),
            forall|t: int| 0 <= t < keys.deep_view().len() ==> (#[trigger] keys.deep_view()[t]).len() <= 1,
        decreases n - k,
    {
        assert(sv.take(k + 1).drop_last() =~= sv.take(k as int));
        assert(sv[k as int] == shells@[k as int]@);
        let sh = &shells[k];
        if sh.angular_momentum.len() > 1 {
            let ghost before = shells_view(fused@);
            fused.push(sh.copy());
            assert(shells_view(fused@) =~= before.push(sv[k as int]));
        } else if !contains_key(&keys, &sh.angular_momentum) {
            let ghost q = keys.deep_view();
            insert_key_exec(&mut keys, crate::fields::copy_ints(&sh.angular_momentum));
            proof {
                lemma_count_less(q, sv[k as int].am);
            }
            assert forall|t: int| 0 <= t < keys.deep_view().len() implies (#[trigger] keys.deep_view()[t]).len() <= 1 by {
                let c = count_less(q, sv[k as int].am) as int;
                assert(keys.deep_view() == q.take(c).push(sv[k as int].am) + q.skip(c));
                if t < c {
                    assert(keys.deep_view()[t] == q[t]);
                } else if t > c {
                    assert(keys.deep_view()[t] == q[t - 1]);
                }
            }
        }
        k = k + 1;
    }
    assert(sv.take(n as int) =~= sv);
    let mut r = fused;
    let nk = keys.len();
    let mut i: usize = 0;
    while i < nk
        invariant
            i <= nk,
            nk == keys.deep_view().len(),
            sv == shells_view(shells@),
            merge_ok(sv),
            keys.deep_view() == keys_spec(sv),
            forall|t: int| 0 <= t < keys.deep_view().len() ==> (#[trigger] keys.deep_view()[t]).len() <= 1,
            shells_view(r@) == fused_spec(sv) + keys_spec(sv).take(i as int).map_values(
                |key: Seq<i32>| merged_shell(sv, key),
            ),
        decreases nk - i,
    {
        assert(keys.deep_view()[i as int] == keys@[i as int]@);
        let m = merge_for(shells, &keys[i]);
        let ghost before = shells_view(r@);
        r.push(m);
        assert(shells_view(r@) =~= before.push(m@));
        assert(keys_spec(sv).take(i + 1).map_values(|key: Seq<i32>| merged_shell(sv, key)) =~= keys_spec(sv).take(
            i as int,
        ).map_values(|key: Seq<i32>| merged_shell(sv, key)).push(merged_shell(sv, keys_spec(sv)[i as int])));
        i = i + 1;
    }
    assert(keys_spec(sv).take(nk as int) =~= keys_spec(sv));
    r
}

/// The number of contractions of the shells with angular momentum `key`.
pub open spec fn key_rows(s: Seq<ShellV>, key: Seq<i32>) -> nat
    decreases s.len(),
{
    if s.len() == 0 {
        0
    } else if s.last().am == key {
        key_rows(s.drop_last(), key) + s.last().coefficients.len()
    } else {
        key_rows(s.drop_last(), key)
    }
}

/// The exponents of shell `j` stand in the merged exponents right after
/// those of the shells before it.
proof fn lemma_merge_exps_at(t: Seq<ShellV>, key: Seq<i32>, j: int, i: int)
    requires
        0 <= j < t.len(),
        t[j].am == key,
        0 <= i < t[j].exponents.len(),
    ensures
        merge_exps(t.take(j), key).len() + i < merge_exps(t, key).len(),
        merge_exps(t, key)[merge_exps(t.take(j), key).len() + i] == t[j].exponents[i],
    decreases t.len(),
{
    let d = t.drop_last();
    if j < t.len() - 1 {
        lemma_merge_exps_at(d, key, j, i);
        assert(d.take(j) =~= t.take(j));
        assert(d[j] == t[j]);
    } else {
        assert(t.take(j) =~= d);
    }
}

/// Contraction `g` of shell `j` is the row of the merged contractions that
/// follows the contractions of the shells before it, padded where that
/// shell's exponents stand.
proof fn lemma_merge_rows_at(t: Seq<ShellV>, key: Seq<i32>, total: int, j: int, g: int)
    requires
        0 <= j < t.len(),
        t[j].am == key,
        0 <= g < t[j].coefficients.len(),
    ensures
        merge_rows(t, key, total).len() == key_rows(t, key),
        key_rows(t.take(j), key) + g < key_rows(t, key),
        merge_rows(t, key, total)[key_rows(t.take(j), key) + g] == padded(
            merge_exps(t.take(j), key).len() as int,
            t[j].coefficients[g],
            total,
        ),
    decreases t.len(),
{
    let d = t.drop_last();
    if j < t.len() - 1 {
        lemma_merge_rows_at(d, key, total, j, g);
        assert(d.take(j) =~= t.take(j));
        assert(d[j] == t[j]);
    } else {
        assert(t.take(j) =~= d);
        lemma_merge_rows_len(d, key, total);
    }
}

proof fn lemma_merge_rows_len(t: Seq<ShellV>, key: Seq<i32>, total: int)
    ensures
        merge_rows(t, key, total).len() == key_rows(t, key),
    decreases t.len(),
{
    if t.len() > 0 {
        lemma_merge_rows_len(t.drop_last(), key, total);
    }
}

/// Making general contractions puts each contraction of each shell into the
/// merged shell of its angular momentum at the primitives of that shell's
/// exponents: contraction `g` of the `j`-th shell is a row of the merged
/// shell whose coefficients at the primitives of that shell are its own, in
/// order, and zero (`0.00000000`) at every other primitive.
pub proof fn law_make_general_placement(s: Seq<ShellV>, key: Seq<i32>, j: int, g: int)
    requires
        0 <= j < s.len(),
        s[j].am == key,
        0 <= g < s[j].coefficients.len(),
        merge_exps(s.take(j), key).len() + s[j].coefficients[g].len() <= merge_exps(s, key).len(),
    ensures
        ({
            let m = merged_shell(s, key);
            let cur = merge_exps(s.take(j), key).len() as int;
            let row = key_rows(s.take(j), key) + g;
            let c = s[j].coefficients[g];
            &&& m.am == key
            &&& row < m.coefficients.len()
            &&& m.coefficients[row].len() == m.exponents.len()
            &&& forall|i: int| 0 <= i < s[j].exponents.len() ==> m.exponents[cur + i] == #[trigger] s[j].exponents[i]
            &&& forall|i: int| 0 <= i < c.len() ==> m.coefficients[row][cur + i] == #[trigger] c[i]
            &&& forall|p: int|
                0 <= p < m.exponents.len() && !(cur <= p < cur + c.len()) ==> #[trigger] m.coefficients[row][p]
                    == "0.00000000"@
        }),
{
    let m = merged_shell(s, key);
    let total = merge_exps(s, key).len() as int;
    let cur = merge_exps(s.take(j), key).len() as int;
    let row = key_rows(s.take(j), key) + g;
    let c = s[j].coefficients[g];
    lemma_merge_rows_at(s, key, total, j, g);
    assert(m.coefficients[row] == padded(cur, c, total));
    assert forall|i: int| 0 <= i < s[j].exponents.len() implies m.exponents[cur + i] == #[trigger] s[j].exponents[i] by {
        lemma_merge_exps_at(s, key, j, i);
    }
    assert forall|i: int| 0 <= i < c.len() implies m.coefficients[row][cur + i] == #[trigger] c[i] by {
        assert((zeros(cur) + c)[cur + i] == c[i]);
    }
}

/* #endregion */

/* #region optimizing general contractions */

/// Contraction `o` is the first free primitive (one nonzero coefficient)
/// whose nonzero coefficient is at primitive `r`.
pub open spec fn is_owner(c: Seq<Seq<Seq<char>>>, o: int, r: int) -> bool {
    &&& 0 <= o < c.len()
    &&& is_single(c[o])
    &&& 0 <= r < c[o].len()
    &&& !num_is_zero(c[o][r])
    &&& forall|k: int|
        0 <= k < o ==> !(is_single(#[trigger] c[k]) && r < c[k].len() && !num_is_zero(c[k][r]))
}

/// The coefficient of contraction `idx` at primitive `r` is cleared: it is
/// nonzero, and another contraction owns primitive `r` as a free primitive.
pub open spec fn zeroed(c: Seq<Seq<Seq<char>>>, idx: int, r: int) -> bool {
    !num_is_zero(c[idx][r]) && exists|o: int| is_owner(c, o, r) && o != idx
}

/// The coefficient that clears a primitive from a contraction.
pub open spec fn cleared_coef() -> Seq<char> {
    "0.0000000E+00"@
}

/// The contractions once every primitive owned by a free primitive is
/// cleared from the other contractions.
pub open spec fn opt_coefs(c: Seq<Seq<Seq<char>>>) -> Seq<Seq<Seq<char>>> {
    Seq::new(
        c.len(),
        |idx: int|
            Seq::new(
                c[idx].len(),
                |r: int|
                    if zeroed(c, idx, r) {
                        cleared_coef()
                    } else {
                        c[idx][r]
                    },
            ),
    )
}

/// A shell after the optimization of its general contraction; fused shells
/// and shells with fewer than two contractions stay as they are.
pub open spec fn opt_shell(sh: ShellV) -> ShellV {
    if sh.am.len() > 1 || sh.coefficients.len() < 2 {
        sh
    } else {
        ShellV { coefficients: opt_coefs(sh.coefficients), ..sh }
    }
}

/// What optimizing a shell needs: numerals throughout, and every
/// contraction long enough to hold each primitive owned by a free
/// primitive.
pub open spec fn opt_ok(sh: ShellV) -> bool {
    let c = sh.coefficients;
    sh.am.len() > 1 || c.len() < 2 || {
        &&& forall|g: int| 0 <= g < c.len() ==> all_numerals(#[trigger] c[g])
        &&& forall|o: int, r: int, idx: int|
            #[trigger] is_owner(c, o, r) && 0 <= idx < c.len() ==> r < (#[trigger] c[idx]).len()
    }
}

proof fn lemma_owner_unique(c: Seq<Seq<Seq<char>>>, o1: int, o2: int, r: int)
    requires
        is_owner(c, o1, r),
        is_owner(c, o2, r),
    ensures
        o1 == o2,
{
    if o1 < o2 {
        assert(is_single(c[o1]) && r < c[o1].len() && !num_is_zero(c[o1][r]));
    } else if o2 < o1 {
        assert(is_single(c[o2]) && r < c[o2].len() && !num_is_zero(c[o2][r]));
    }
}

/// The owner of primitive `r`, if a free primitive owns it.
fn owner_of(c: &Vec<Vec<String>>, singles: &Vec<bool>, r: usize) -> (res: Option<usize>)
    requires
        singles@.len() == c@.len(),
        forall|g: int| 0 <= g < c@.len() ==> all_numerals(#[trigger] c.deep_view()[g]),
        forall|g: int| 0 <= g < c@.len() ==> singles@[g] == is_single(#[trigger] c.deep_view()[g]),
    ensures
        match res {
            Some(o) => is_owner(c.deep_view(), o as int, r as int),
            None => forall|o: int| !is_owner(c.deep_view(), o, r as int),
        },
{
    let ghost cv = c.deep_view();
    let mut o: usize = 0;
    while o < c.len()
        invariant
            o <= c@.len(),
            cv == c.deep_view(),
            singles@.len() == c@.len(),
            forall|g: int| 0 <= g < c@.len() ==> all_numerals(#[trigger] cv[g]),
            forall|g: int| 0 <= g < c@.len() ==> singles@[g] == is_single(#[trigger] cv[g]),
            forall|k: int|
                0 <= k < o ==> !(is_single(#[trigger] cv[k]) && r < cv[k].len() && !num_is_zero(cv[k][r as int])),
        decreases c.len() - o,
    {
        assert(cv[o as int] == c@[o as int].deep_view());
        if singles[o] && r < c[o].len() {
            assert(cv[o as int][r as int] == c@[o as int]@[r as int]@);
            assert(all_numerals(cv[o as int]));
            if !is_zero_numeral(c[o][r].as_str()) {
                return Some(o);
            }
        }
        o = o + 1;
    }
    None
}

/// Clear the primitives owned by free primitives from the other
/// contractions.
fn opt_coefs_exec(c: &Vec<Vec<String>>) -> (r: Vec<Vec<String>>)
    requires
        forall|g: int| 0 <= g < c@.len() ==> all_numerals(#[trigger] c.deep_view()[g]),
    ensures
        r.deep_view() == opt_coefs(c.deep_view()),
{
    let ghost cv = c.deep_view();
    let ngen = c.len();
    let mut singles: Vec<bool> = Vec::new();
    let mut g: usize = 0;
    while g < ngen
        invariant
            g <= ngen,
            ngen == c@.len(),
            cv == c.deep_view(),
            forall|t: int| 0 <= t < c@.len() ==> all_numerals(#[trigger] cv[t]),
            singles@.len() == g,
            forall|t: int| 0 <= t < g ==> singles@[t] == is_single(#[trigger] cv[t]),
        decreases ngen - g,
    {
        assert(cv[g as int] == c@[g as int].deep_view());
        let b = single_column(&c[g]);
        singles.push(b);
        g = g + 1;
    }
    let ghost target = opt_coefs(cv);
    let mut out: Vec<Vec<String>> = Vec::new();
    let mut idx: usize = 0;
    while idx < ngen
        invariant
            idx <= ngen,
            ngen == c@.len(),
            cv == c.deep_view(),
            target == opt_coefs(cv),
            forall|t: int| 0 <= t < c@.len() ==> all_numerals(#[trigger] cv[t]),
            singles@.len() == ngen,
            forall|t: int| 0 <= t < ngen ==> singles@[t] == is_single(#[trigger] cv[t]),
            out.deep_view() == target.take(idx as int),
        decreases ngen - idx,
    {
        let col = &c[idx];
        assert(cv[idx as int] == col.deep_view());
        let mut newcol: Vec<String> = Vec::new();
        let mut r: usize = 0;
        while r < col.len()
            invariant
                r <= col@.len(),
                idx < ngen,
                ngen == c@.len(),
                cv == c.deep_view(),
                cv[idx as int] == col.deep_view(),
                target == opt_coefs(cv),
                forall|t: int| 0 <= t < c@.len() ==> all_numerals(#[trigger] cv[t]),
                singles@.len() == ngen,
                forall|t: int| 0 <= t < ngen ==> singles@[t] == is_single(#[trigger] cv[t]),
                newcol.deep_view() == target[idx as int].take(r as int),
            decreases col.len() - r,
        {
            assert(cv[idx as int][r as int] == col@[r as int]@);
            assert(all_numerals(cv[idx as int]));
            let mut clear = false;
            if !is_zero_numeral(col[r].as_str()) {
                match owner_of(c, &singles, r) {
                    Some(o) => {
                        if o != idx {
                            clear = true;
                        } else {
                            assert forall|o2: int| is_owner(cv, o2, r as int) implies o2 == idx by {
                                lemma_owner_unique(cv, o2, o as int, r as int);
                            }
                        }
                    },
                    None => {},
                }
            }
            assert(clear == zeroed(cv, idx as int, r as int));
            let v = if clear {
                let z = String::from_str("0.0000000E+00");
                proof {
                    reveal_strlit("0.0000000E+00");
                }
                z
            } else {
                col[r].clone()
            };
            let ghost before = newcol.deep_view();
            newcol.push(v);
            assert(newcol.deep_view() =~= before.push(target[idx as int][r as int]));
            assert(newcol.deep_view() =~= target[idx as int].take(r + 1));
            r = r + 1;
        }
        assert(newcol.deep_view() =~= target[idx as int]);
        let ghost before = out.deep_view();
        out.push(newcol);
        assert(out.deep_view() =~= before.push(target[idx as int]));
        assert(out.deep_view() =~= target.take(idx + 1));
        idx = idx + 1;
    }
    assert(target.take(ngen as int) =~= target);
    out
}

/// Optimize the general contraction of each shell of a list.
fn opt_list(shells: &Vec<BseElectronShell>) -> (r: Vec<BseElectronShell>)
    requires
        forall|k: int| 0 <= k < shells@.len() ==> opt_ok(#[trigger] shells_view(shells@)[k]),
    ensures
        shells_view(r@) == shells_view(shells@).map_values(|sh: ShellV| opt_shell(sh)),
{
    let ghost sv = shells_view(shells@);
    let mut r: Vec<BseElectronShell> = Vec::new();
    let mut k: usize = 0;
    while k < shells.len()
        invariant
            k <= shells@.len(),
            sv == shells_view(shells@),
            forall|t: int| 0 <= t < shells@.len() ==> opt_ok(#[trigger] sv[t]),
            shells_view(r@) == sv.take(k as int).map_values(|sh: ShellV| opt_shell(sh)),
        decreases shells.len() - k,
    {
        let sh = &shells[k];
        assert(sv[k as int] == sh@);
        assert(opt_ok(sv[k as int]));
        let one = if sh.angular_momentum.len() > 1 || sh.coefficients.len() < 2 {
            sh.copy()
        } else {
            assert forall|g: int| 0 <= g < sh.coefficients@.len() implies all_numerals(
                #[trigger] sh.coefficients.deep_view()[g],
            ) by {
                assert(sv[k as int].coefficients[g] == sh.coefficients.deep_view()[g]);
            }
            let co = opt_coefs_exec(&sh.coefficients);
            reshaped(sh, crate::fields::copy_ints(&sh.angular_momentum), co)
        };
        let ghost before = shells_view(r@);
        r.push(one);
        assert(shells_view(r@) =~= before.push(opt_shell(sv[k as int])));
        assert(shells_view(r@) =~= sv.take(k + 1).map_values(|sh: ShellV| opt_shell(sh)));
        k = k + 1;
    }
    assert(sv.take(shells.len() as int) =~= sv);
    r
}

/// Optimizing a shell with one angular momentum and two or more
/// contractions: a free primitive is a contraction with a single nonzero
/// coefficient, and the first free primitive that is nonzero at a primitive
/// owns it. Every other contraction that is nonzero at an owned primitive
/// gets `0.0000000E+00` there; the owner keeps its coefficient, and so does
/// every contraction at a primitive where no other contraction is a free
/// primitive nonzero there. Everything else of the shell stays as it was.
pub proof fn law_optimize_clears_owned_primitives(sh: ShellV)
    requires
        sh.am.len() <= 1,
        sh.coefficients.len() >= 2,
    ensures
        opt_shell(sh).am == sh.am,
        opt_shell(sh).exponents == sh.exponents,
        opt_shell(sh).function_type == sh.function_type,
        opt_shell(sh).region == sh.region,
        opt_shell(sh).coefficients.len() == sh.coefficients.len(),
        forall|idx: int|
            0 <= idx < sh.coefficients.len() ==> (#[trigger] opt_shell(sh).coefficients[idx]).len()
                == sh.coefficients[idx].len(),
        forall|o: int, r: int, idx: int|
            #![trigger nonzero_count(sh.coefficients[o]), opt_shell(sh).coefficients[idx][r]]
            0 <= o < sh.coefficients.len() && nonzero_count(sh.coefficients[o]) == 1 && 0 <= r
                < sh.coefficients[o].len() && !num_is_zero(sh.coefficients[o][r]) && (forall|k: int|
                0 <= k < o ==> !(nonzero_count(#[trigger] sh.coefficients[k]) == 1 && r < sh.coefficients[k].len()
                    && !num_is_zero(sh.coefficients[k][r]))) && 0 <= idx < sh.coefficients.len() && r
                < sh.coefficients[idx].len() ==> if idx == o || num_is_zero(sh.coefficients[idx][r]) {
                opt_shell(sh).coefficients[idx][r] == sh.coefficients[idx][r]
            } else {
                opt_shell(sh).coefficients[idx][r] == "0.0000000E+00"@
            },
        forall|idx: int, r: int|
            0 <= idx < sh.coefficients.len() && 0 <= r < sh.coefficients[idx].len() && (forall|o: int|
                0 <= o < sh.coefficients.len() && o != idx && r < sh.coefficients[o].len() && nonzero_count(
                    #[trigger] sh.coefficients[o],
                ) == 1 ==> num_is_zero(sh.coefficients[o][r])) ==> (#[trigger] opt_shell(
                sh,
            ).coefficients[idx][r]) == sh.coefficients[idx][r],
{
    let c = sh.coefficients;
    let res = opt_shell(sh).coefficients;
    assert(res == opt_coefs(c));
    assert forall|o: int, r: int, idx: int|
        #![trigger nonzero_count(c[o]), res[idx][r]]
        0 <= o < c.len() && nonzero_count(c[o]) == 1 && 0 <= r < c[o].len() && !num_is_zero(c[o][r]) && (forall|k: int|
            0 <= k < o ==> !(nonzero_count(#[trigger] c[k]) == 1 && r < c[k].len() && !num_is_zero(c[k][r]))) && 0
            <= idx < c.len() && r < c[idx].len() implies if idx == o || num_is_zero(c[idx][r]) {
        res[idx][r] == c[idx][r]
    } else {
        res[idx][r] == cleared_coef()
    } by {
        assert(is_owner(c, o, r));
        if idx == o {
            if zeroed(c, idx, r) {
                let o2 = choose|o2: int| is_owner(c, o2, r) && o2 != idx;
                lemma_owner_unique(c, o, o2, r);
            }
        } else if !num_is_zero(c[idx][r]) {
            assert(zeroed(c, idx, r));
        }
    }
    assert forall|idx: int, r: int|
        0 <= idx < c.len() && 0 <= r < c[idx].len() && (forall|o: int|
            0 <= o < c.len() && o != idx && r < c[o].len() && nonzero_count(#[trigger] c[o]) == 1 ==> num_is_zero(
                c[o][r],
            )) implies #[trigger] res[idx][r] == c[idx][r] by {
        if zeroed(c, idx, r) {
            let o2 = choose|o2: int| is_owner(c, o2, r) && o2 != idx;
            assert(nonzero_count(c[o2]) == 1);
        }
    }
}

/* #endregion */

/* #region whole basis sets */

/// Element data whose shells, where it has any, are replaced by `f` of them.
pub open spec fn map_shells_of(e: ElementV, f: spec_fn(Seq<ShellV>) -> Seq<ShellV>) -> ElementV {
    ElementV {
        shells: match e.shells {
            Some(s) => Some(f(s)),
            None => None,
        },
        ..e
    }
}

/// An element map whose shell lists are replaced by `f` of them, each
/// element keeping its atomic number, references and potentials.
pub open spec fn map_elements(v: Seq<(i32, ElementV)>, f: spec_fn(Seq<ShellV>) -> Seq<ShellV>) -> Seq<(i32, ElementV)> {
    Seq::new(v.len(), |i: int| (v[i].0, map_shells_of(v[i].1, f)))
}

/// Every shell list of an element map satisfies `p`.
pub open spec fn all_shell_lists(v: Seq<(i32, ElementV)>, p: spec_fn(Seq<ShellV>) -> bool) -> bool {
    forall|i: int| 0 <= i < v.len() ==> match (#[trigger] v[i]).1.shells {
        Some(s) => p(s),
        None => true,
    }
}

/// Two basis sets agree in everything but their element data.
pub open spec fn same_but_elements(a: BseBasis, b: BseBasis) -> bool {
    &&& a.molssi_bse_schema == b.molssi_bse_schema
    &&& a.revision_description == b.revision_description
    &&& a.revision_date == b.revision_date
    &&& a.version == b.version
    &&& a.function_types == b.function_types
    &&& a.names == b.names
    &&& a.tags == b.tags
    &&& a.family == b.family
    &&& a.description == b.description
    &&& a.role == b.role
    &&& a.auxiliaries == b.auxiliaries
    &&& a.name == b.name
}

/// Making general contractions, after splitting fused shells unless
/// `skip_spdf`, and pruning the result.
pub open spec fn make_general_spec(s: Seq<ShellV>, skip_spdf: bool) -> Seq<ShellV> {
    let t = if skip_spdf {
        s
    } else {
        spdf_spec(s, 0)
    };
    prune_list_spec(merge_spec(t))
}

/// What making general contractions needs.
pub open spec fn make_general_ok(s: Seq<ShellV>, skip_spdf: bool) -> bool {
    let t = if skip_spdf {
        s
    } else {
        spdf_spec(s, 0)
    };
    &&& (skip_spdf || spdf_ok(s))
    &&& merge_ok(t)
    &&& prune_list_ok(merge_spec(t))
}

/// Optimizing the general contractions of a list of shells.
pub open spec fn optimize_spec(s: Seq<ShellV>) -> Seq<ShellV> {
    make_general_spec(s, true).map_values(|sh: ShellV| opt_shell(sh))
}

/// What optimizing the general contractions needs.
pub open spec fn optimize_ok(s: Seq<ShellV>) -> bool {
    &&& make_general_ok(s, true)
    &&& forall|k: int| 0 <= k < make_general_spec(s, true).len() ==> opt_ok(#[trigger] make_general_spec(s, true)[k])
}

/// The operations on the shell list of an element.
#[derive(Clone, Copy)]
enum ShellOp {
    Prune,
    Spdf(i32),
    General,
    Segmented,
    RemoveFree,
    MakeGeneral(bool),
    Optimize,
}

spec fn op_spec(op: ShellOp, s: Seq<ShellV>) -> Seq<ShellV> {
    match op {
        ShellOp::Prune => prune_list_spec(s),
        ShellOp::Spdf(max) => spdf_spec(s, max),
        ShellOp::General => general_spec(s),
        ShellOp::Segmented => segmented_spec(s),
        ShellOp::RemoveFree => remove_free_spec(s),
        ShellOp::MakeGeneral(skip) => make_general_spec(s, skip),
        ShellOp::Optimize => optimize_spec(s),
    }
}

spec fn op_ok(op: ShellOp, s: Seq<ShellV>) -> bool {
    match op {
        ShellOp::Prune => prune_list_ok(s),
        ShellOp::Spdf(_) => spdf_ok(s),
        ShellOp::General => true,
        ShellOp::Segmented => true,
        ShellOp::RemoveFree => coefs_numeral(s),
        ShellOp::MakeGeneral(skip) => make_general_ok(s, skip),
        ShellOp::Optimize => optimize_ok(s),
    }
}

/// Make the general contractions of a list of shells.
fn make_general_list(shells: &Vec<BseElectronShell>, skip_spdf: bool) -> (r: Vec<BseElectronShell>)
    requires
        make_general_ok(shells_view(shells@), skip_spdf),
    ensures
        shells_view(r@) == make_general_spec(shells_view(shells@), skip_spdf),
{
    let merged = if skip_spdf {
        merge_list(shells)
    } else {
        let split = spdf_list(shells, 0);
        merge_list(&split)
    };
    prune_list(&merged)
}

fn apply_op(op: ShellOp, shells: &Vec<BseElectronShell>) -> (r: Vec<BseElectronShell>)
    requires
        op_ok(op, shells_view(shells@)),
    ensures
        shells_view(r@) == op_spec(op, shells_view(shells@)),
{
    match op {
        ShellOp::Prune => prune_list(shells),
        ShellOp::Spdf(max) => spdf_list(shells, max),
        ShellOp::General => general_list(shells),
        ShellOp::Segmented => segmented_list(shells),
        ShellOp::RemoveFree => remove_free_list(shells),
        ShellOp::MakeGeneral(skip) => make_general_list(shells, skip),
        ShellOp::Optimize => {
            let g = make_general_list(shells, true);
            opt_list(&g)
        },
    }
}

/// Apply an operation to the shell list of every element.
fn map_basis(basis: &mut BseBasis, op: ShellOp)
    requires
        all_shell_lists(elements_view(old(basis).elements@), |s: Seq<ShellV>| op_ok(op, s)),
    ensures
        same_but_elements(*old(basis), *final(basis)),
        elements_view(final(basis).elements@) == map_elements(
            elements_view(old(basis).elements@),
            |s: Seq<ShellV>| op_spec(op, s),
        ),
{
    let ghost ev = elements_view(basis.elements@);
    let ghost target = map_elements(ev, |s: Seq<ShellV>| op_spec(op, s));
    let mut out: Vec<(i32, BseBasisElement)> = Vec::new();
    let n = basis.elements.len();
    let mut i: usize = 0;
    while i < n
        invariant
            i <= n,
            n == basis.elements@.len(),
            ev == elements_view(basis.elements@),
            target == map_elements(ev, |s: Seq<ShellV>| op_spec(op, s)),
            all_shell_lists(ev, |s: Seq<ShellV>| op_ok(op, s)),
            elements_view(out@) == target.take(i as int),
        decreases n - i,
    {
        let z = basis.elements[i].0;
        let el = &basis.elements[i].1;
        assert(ev[i as int] == (z, el@));
        let shells = match &el.electron_shells {
            Some(s) => {
                assert(el@.shells == Some(shells_view(s@)));
                Some(apply_op(op, s))
            },
            None => None,
        };
        let pots = match &el.ecp_potentials {
            Some(p) => Some(crate::fields::copy_potentials(p)),
            None => None,
        };
        let ne = BseBasisElement {
            references: crate::fields::copy_references(&el.references),
            electron_shells: shells,
            ecp_potentials: pots,
            ecp_electrons: el.ecp_electrons,
        };
        assert(ne@ == target[i as int].1);
        let ghost before = elements_view(out@);
        out.push((z, ne));
        assert(elements_view(out@) =~= before.push(target[i as int]));
        assert(elements_view(out@) =~= target.take(i + 1));
        i = i + 1;
    }
    assert(target.take(n as int) =~= target);
    basis.elements = out;
}

/// Removes primitives that have a zero coefficient, and removes duplicate
/// primitives and shells. This only finds exact duplicates, and is meant to
/// be used after other manipulations.
pub fn prune_basis(basis: &mut BseBasis)
    requires
        all_shell_lists(elements_view(old(basis).elements@), |s: Seq<ShellV>| prune_list_ok(s)),
    ensures
        same_but_elements(*old(basis), *final(basis)),
        elements_view(final(basis).elements@) == map_elements(
            elements_view(old(basis).elements@),
            |s: Seq<ShellV>| prune_list_spec(s),
        ),
{
    let ghost ev = elements_view(basis.elements@);
    assert(map_elements(ev, |s: Seq<ShellV>| op_spec(ShellOp::Prune, s)) =~= map_elements(
        ev,
        |s: Seq<ShellV>| prune_list_spec(s),
    ));
    map_basis(basis, ShellOp::Prune);
}

/// Removes sp, spd, spdf, etc, contractions from a basis set. Contractions
/// up to `max_am` are left in place: with `max_am` 1, spd is split into sp
/// and d. The result may have functions with zero coefficients and
/// duplicate shells.
pub fn uncontract_spdf(basis: &mut BseBasis, max_am: i32)
    requires
        all_shell_lists(elements_view(old(basis).elements@), |s: Seq<ShellV>| spdf_ok(s)),
    ensures
        same_but_elements(*old(basis), *final(basis)),
        elements_view(final(basis).elements@) == map_elements(
            elements_view(old(basis).elements@),
            |s: Seq<ShellV>| spdf_spec(s, max_am),
        ),
{
    let ghost ev = elements_view(basis.elements@);
    assert(map_elements(ev, |s: Seq<ShellV>| op_spec(ShellOp::Spdf(max_am), s)) =~= map_elements(
        ev,
        |s: Seq<ShellV>| spdf_spec(s, max_am),
    ));
    map_basis(basis, ShellOp::Spdf(max_am));
}

/// Removes the general contractions from a basis set. The result may have
/// functions with zero coefficients and duplicate shells.
pub fn uncontract_general(basis: &mut BseBasis)
    ensures
        same_but_elements(*old(basis), *final(basis)),
        elements_view(final(basis).elements@) == map_elements(
            elements_view(old(basis).elements@),
            |s: Seq<ShellV>| general_spec(s),
        ),
{
    let ghost ev = elements_view(basis.elements@);
    assert(map_elements(ev, |s: Seq<ShellV>| op_spec(ShellOp::General, s)) =~= map_elements(
        ev,
        |s: Seq<ShellV>| general_spec(s),
    ));
    map_basis(basis, ShellOp::General);
}

/// Removes the segmented contractions from a basis set; this removes
/// general contractions as well, and leaves sp, spd, ... shells fused. The
/// result may have functions with zero coefficients and duplicate shells.
pub fn uncontract_segmented(basis: &mut BseBasis)
    ensures
        same_but_elements(*old(basis), *final(basis)),
        elements_view(final(basis).elements@) == map_elements(
            elements_view(old(basis).elements@),
            |s: Seq<ShellV>| segmented_spec(s),
        ),
{
    let ghost ev = elements_view(basis.elements@);
    assert(map_elements(ev, |s: Seq<ShellV>| op_spec(ShellOp::Segmented, s)) =~= map_elements(
        ev,
        |s: Seq<ShellV>| segmented_spec(s),
    ));
    map_basis(basis, ShellOp::Segmented);
}

/// Makes one large general contraction for each angular momentum, after
/// splitting fused shells unless `skip_spdf`, and prunes the result.
pub fn make_general(basis: &mut BseBasis, skip_spdf: bool)
    requires
        all_shell_lists(elements_view(old(basis).elements@), |s: Seq<ShellV>| make_general_ok(s, skip_spdf)),
    ensures
        same_but_elements(*old(basis), *final(basis)),
        elements_view(final(basis).elements@) == map_elements(
            elements_view(old(basis).elements@),
            |s: Seq<ShellV>| make_general_spec(s, skip_spdf),
        ),
{
    let ghost ev = elements_view(basis.elements@);
    assert(map_elements(ev, |s: Seq<ShellV>| op_spec(ShellOp::MakeGeneral(skip_spdf), s)) =~= map_elements(
        ev,
        |s: Seq<ShellV>| make_general_spec(s, skip_spdf),
    ));
    map_basis(basis, ShellOp::MakeGeneral(skip_spdf));
}

/// Removes any free primitives from a basis set as a way to generate a
/// minimal basis. The result may have functions with zero coefficients and
/// duplicate shells.
pub fn remove_free_primitives(basis: &mut BseBasis)
    requires
        all_shell_lists(elements_view(old(basis).elements@), |s: Seq<ShellV>| coefs_numeral(s)),
    ensures
        same_but_elements(*old(basis), *final(basis)),
        elements_view(final(basis).elements@) == map_elements(
            elements_view(old(basis).elements@),
            |s: Seq<ShellV>| remove_free_spec(s),
        ),
{
    let ghost ev = elements_view(basis.elements@);
    assert(map_elements(ev, |s: Seq<ShellV>| op_spec(ShellOp::RemoveFree, s)) =~= map_elements(
        ev,
        |s: Seq<ShellV>| remove_free_spec(s),
    ));
    map_basis(basis, ShellOp::RemoveFree);
}

/// Optimizes the general contraction using the method of Hashimoto et al:
/// the basis is made as generally contracted as possible, and each
/// primitive that a free primitive carries is cleared from the other
/// contractions.
pub fn optimize_general(basis: &mut BseBasis)
    requires
        all_shell_lists(elements_view(old(basis).elements@), |s: Seq<ShellV>| optimize_ok(s)),
    ensures
        same_but_elements(*old(basis), *final(basis)),
        elements_view(final(basis).elements@) == map_elements(
            elements_view(old(basis).elements@),
            |s: Seq<ShellV>| optimize_spec(s),
        ),
{
    let ghost ev = elements_view(basis.elements@);
    assert(map_elements(ev, |s: Seq<ShellV>| op_spec(ShellOp::Optimize, s)) =~= map_elements(
        ev,
        |s: Seq<ShellV>| optimize_spec(s),
    ));
    map_basis(basis, ShellOp::Optimize);
}

/* #endregion */

/* #region laws */

/// A shell that removing general contractions leaves as it is: one
/// contraction, or several angular momenta.
pub open spec fn not_general(sh: ShellV) -> bool {
    sh.coefficients.len() == 1 || sh.am.len() > 1
}

proof fn lemma_general_result_shape(s: Seq<ShellV>)
    ensures
        forall|k: int| 0 <= k < general_spec(s).len() ==> not_general(#[trigger] general_spec(s)[k]),
    decreases s.len(),
{
    if s.len() > 0 {
        lemma_general_result_shape(s.drop_last());
        let p = general_spec(s.drop_last());
        let q = general_piece(s.last());
        assert forall|k: int| 0 <= k < general_spec(s).len() implies not_general(#[trigger] general_spec(s)[k]) by {
            if k < p.len() {
                assert(general_spec(s)[k] == p[k]);
            } else {
                assert(general_spec(s)[k] == q[k - p.len()]);
            }
        }
    }
}

proof fn lemma_general_keeps(t: Seq<ShellV>)
    requires
        forall|k: int| 0 <= k < t.len() ==> not_general(#[trigger] t[k]),
    ensures
        general_spec(t) == t,
    decreases t.len(),
{
    if t.len() > 0 {
        assert forall|k: int| 0 <= k < t.drop_last().len() implies not_general(#[trigger] t.drop_last()[k]) by {
            assert(t.drop_last()[k] == t[k]);
        }
        lemma_general_keeps(t.drop_last());
        assert(not_general(t[t.len() - 1]));
        assert(general_piece(t.last()) == seq![t.last()]);
        assert(t.drop_last().push(t.last()) =~= t);
    }
}

/// Removing general contractions leaves no shell of one angular momentum
/// with several contractions, and doing it twice changes nothing more.
pub proof fn lemma_uncontract_general_laws(s: Seq<ShellV>)
    ensures
        forall|k: int|
            0 <= k < general_spec(s).len() && (#[trigger] general_spec(s)[k]).am.len() == 1
                ==> general_spec(s)[k].coefficients.len() == 1,
        general_spec(general_spec(s)) == general_spec(s),
{
    lemma_general_result_shape(s);
    lemma_general_keeps(general_spec(s));
}

/// Removing segmented contractions leaves shells of a single primitive,
/// each with one unit coefficient per angular momentum, one shell for each
/// primitive of the input, in order.
pub proof fn lemma_uncontract_segmented_shape(s: Seq<ShellV>)
    ensures
        forall|k: int|
            0 <= k < segmented_spec(s).len() ==> {
                let sh = #[trigger] segmented_spec(s)[k];
                &&& sh.exponents.len() == 1
                &&& sh.coefficients.len() == sh.am.len()
                &&& forall|a: int| 0 <= a < sh.coefficients.len() ==> #[trigger] sh.coefficients[a] == seq![unit_coef()]
            },
    decreases s.len(),
{
    if s.len() > 0 {
        lemma_uncontract_segmented_shape(s.drop_last());
        let p = segmented_spec(s.drop_last());
        let q = segmented_piece(s.last());
        assert forall|k: int| 0 <= k < segmented_spec(s).len() implies {
            let sh = #[trigger] segmented_spec(s)[k];
            &&& sh.exponents.len() == 1
            &&& sh.coefficients.len() == sh.am.len()
            &&& forall|a: int| 0 <= a < sh.coefficients.len() ==> #[trigger] sh.coefficients[a] == seq![unit_coef()]
        } by {
            if k < p.len() {
                assert(segmented_spec(s)[k] == p[k]);
            } else {
                assert(segmented_spec(s)[k] == q[k - p.len()]);
            }
        }
    }
}

/* #endregion */

} // verus!
