//! Sorting of ECP potentials into a canonical order.
//!
//! Shells are ordered by their spatial extent, which is computed in floating
//! point; that ordering is done outside this library.
use crate::fields::{BseEcpPotential, PotentialV, pots_view};
use vstd::prelude::*;

verus! {

/// The sort key of a potential: its first angular momentum, or 0.
pub open spec fn pot_key(p: PotentialV) -> i32 {
    if p.am.len() > 0 {
        p.am[0]
    } else {
        0
    }
}

/// How many potentials of `s` have a key at most `k`.
pub open spec fn count_key_le(s: Seq<PotentialV>, k: i32) -> nat
    decreases s.len(),
{
    if s.len() == 0 {
        0
    } else {
        count_key_le(s.drop_last(), k) + if pot_key(s.last()) <= k {
            1nat
        } else {
            0nat
        }
    }
}

/// A stable sort by key: each potential goes after every earlier one whose
/// key is not above its own.
pub open spec fn stable_sort(s: Seq<PotentialV>) -> Seq<PotentialV>
    decreases s.len(),
{
    if s.len() == 0 {
        Seq::empty()
    } else {
        let p = stable_sort(s.drop_last());
        let c = count_key_le(p, pot_key(s.last())) as int;
        p.take(c).push(s.last()) + p.skip(c)
    }
}

/// The canonical order of potentials: by increasing angular momentum, with
/// the last one (the largest angular momentum) moved to the front.
pub open spec fn sort_potentials_spec(s: Seq<PotentialV>) -> Seq<PotentialV> {
    let t = stable_sort(s);
    if t.len() == 0 {
        t
    } else {
        seq![t.last()] + t.drop_last()
    }
}

proof fn lemma_count_key_le(s: Seq<PotentialV>, k: i32)
    ensures
        count_key_le(s, k) <= s.len(),
    decreases s.len(),
{
    if s.len() > 0 {
        lemma_count_key_le(s.drop_last(), k);
    }
}

proof fn lemma_stable_sort_len(s: Seq<PotentialV>)
    ensures
        stable_sort(s).len() == s.len(),
    decreases s.len(),
{
    if s.len() > 0 {
        lemma_stable_sort_len(s.drop_last());
        lemma_count_key_le(stable_sort(s.drop_last()), pot_key(s.last()));
    }
}

fn key_of(p: &BseEcpPotential) -> (k: i32)
    ensures
        k == pot_key(p@),
{
    if p.angular_momentum.len() > 0 {
        p.angular_momentum[0]
    } else {
        0
    }
}

/// Sort a list of ECP potentials into a standard order: by increasing
/// angular momentum (the first of each potential), keeping the order of
/// equal ones, and then the last one (the largest angular momentum) moved
/// to the front. The order within a potential is not modified.
pub fn sort_potentials(potentials: &mut Vec<BseEcpPotential>)
    ensures
        pots_view(final(potentials)@) == sort_potentials_spec(pots_view(old(potentials)@)),
{
    let ghost pv = pots_view(potentials@);
    let mut sorted: Vec<BseEcpPotential> = Vec::new();
    let mut i: usize = 0;
    while i < potentials.len()
        invariant
            i <= potentials@.len(),
            pv == pots_view(potentials@),
            pots_view(sorted@) == stable_sort(pv.take(i as int)),
        decreases potentials.len() - i,
    {
        let x = &potentials[i];
        assert(pv[i as int] == x@);
        assert(pv.take(i + 1).drop_last() =~= pv.take(i as int));
        let kx = key_of(x);
        let ghost q = pots_view(sorted@);
        let mut c: usize = 0;
        let mut j: usize = 0;
        while j < sorted.len()
            invariant
                j <= sorted@.len(),
                q == pots_view(sorted@),
                kx == pot_key(x@),
                c == count_key_le(q.take(j as int), kx),
                c <= j,
            decreases sorted.len() - j,
        {
            assert(q.take(j + 1).drop_last() =~= q.take(j as int));
            assert(q[j as int] == sorted@[j as int]@);
            if key_of(&sorted[j]) <= kx {
                c = c + 1;
            }
            j = j + 1;
        }
        assert(q.take(sorted.len() as int) =~= q);
        let ghost old_s = sorted@;
        sorted.insert(c, x.copy());
        assert(pots_view(sorted@) =~= q.take(c as int).push(pv[i as int]) + q.skip(c as int)) by {
            assert forall|t: int| 0 <= t < sorted@.len() implies pots_view(sorted@)[t] == (q.take(c as int).push(
                pv[i as int],
            ) + q.skip(c as int))[t] by {
                if t < c {
                    assert(sorted@[t] == old_s[t]);
                } else if t > c {
                    assert(sorted@[t] == old_s[t - 1]);
                }
            }
        }
        i = i + 1;
    }
    assert(pv.take(potentials.len() as int) =~= pv);
    if sorted.len() > 0 {
        let ghost before = pots_view(sorted@);
        let last = sorted.pop().unwrap();
        let ghost mid = sorted@;
        sorted.insert(0, last);
        assert(pots_view(sorted@) =~= seq![before.last()] + before.drop_last()) by {
            assert forall|t: int| 0 <= t < sorted@.len() implies pots_view(sorted@)[t] == (seq![before.last()]
                + before.drop_last())[t] by {
                if t > 0 {
                    assert(sorted@[t] == mid[t - 1]);
                }
            }
        }
    }
    *potentials = sorted;
}


/// How many potentials of `s` have angular momenta not after `am` in
/// lexicographic order.
pub open spec fn count_am_not_after(s: Seq<PotentialV>, am: Seq<i32>) -> nat
    decreases s.len(),
{
    if s.len() == 0 {
        0
    } else {
        count_am_not_after(s.drop_last(), am) + if !crate::manip::lex_lt(am, s.last().am) {
            1nat
        } else {
            0nat
        }
    }
}

/// A stable sort by the lexicographic order of the angular momenta.
pub open spec fn stable_sort_am(s: Seq<PotentialV>) -> Seq<PotentialV>
    decreases s.len(),
{
    if s.len() == 0 {
        Seq::empty()
    } else {
        let p = stable_sort_am(s.drop_last());
        let c = count_am_not_after(p, s.last().am) as int;
        p.take(c).push(s.last()) + p.skip(c)
    }
}

/// Potentials by increasing angular momenta, with the last (the largest)
/// moved to the front.
pub open spec fn ecp_order(s: Seq<PotentialV>) -> Seq<PotentialV> {
    let t = stable_sort_am(s);
    if t.len() == 0 {
        t
    } else {
        seq![t.last()] + t.drop_last()
    }
}

proof fn lemma_count_am(s: Seq<PotentialV>, am: Seq<i32>)
    ensures
        count_am_not_after(s, am) <= s.len(),
    decreases s.len(),
{
    if s.len() > 0 {
        lemma_count_am(s.drop_last(), am);
    }
}

/// Copies of the potentials by increasing angular momenta, with the last
/// moved to the front.
pub fn order_by_am(potentials: &Vec<BseEcpPotential>) -> (r: Vec<BseEcpPotential>)
    ensures
        pots_view(r@) == ecp_order(pots_view(potentials@)),
{
    let ghost pv = pots_view(potentials@);
    let mut sorted: Vec<BseEcpPotential> = Vec::new();
    let mut i: usize = 0;
    while i < potentials.len()
        invariant
            i <= potentials@.len(),
            pv == pots_view(potentials@),
            pots_view(sorted@) == stable_sort_am(pv.take(i as int)),
        decreases potentials.len() - i,
    {
        let x = &potentials[i];
        assert(pv[i as int] == x@);
        assert(pv.take(i + 1).drop_last() =~= pv.take(i as int));
        let ghost q = pots_view(sorted@);
        let mut c: usize = 0;
        let mut j: usize = 0;
        while j < sorted.len()
            invariant
                j <= sorted@.len(),
                q == pots_view(sorted@),
                c == count_am_not_after(q.take(j as int), x@.am),
                c <= j,
            decreases sorted.len() - j,
        {
            assert(q.take(j + 1).drop_last() =~= q.take(j as int));
            assert(q[j as int] == sorted@[j as int]@);
            if !crate::manip::lex_less(&x.angular_momentum, &sorted[j].angular_momentum) {
                c = c + 1;
            }
            j = j + 1;
        }
        assert(q.take(sorted.len() as int) =~= q);
        let ghost old_s = sorted@;
        sorted.insert(c, x.copy());
        assert(pots_view(sorted@) =~= q.take(c as int).push(pv[i as int]) + q.skip(c as int)) by {
            assert forall|t: int| 0 <= t < sorted@.len() implies pots_view(sorted@)[t] == (q.take(c as int).push(
                pv[i as int],
            ) + q.skip(c as int))[t] by {
                if t < c {
                    assert(sorted@[t] == old_s[t]);
                } else if t > c {
                    assert(sorted@[t] == old_s[t - 1]);
                }
            }
        }
        i = i + 1;
    }
    assert(pv.take(potentials.len() as int) =~= pv);
    if sorted.len() > 0 {
        let ghost before = pots_view(sorted@);
        let last = sorted.pop().unwrap();
        let ghost mid = sorted@;
        sorted.insert(0, last);
        assert(pots_view(sorted@) =~= seq![before.last()] + before.drop_last()) by {
            assert forall|t: int| 0 <= t < sorted@.len() implies pots_view(sorted@)[t] == (seq![before.last()]
                + before.drop_last())[t] by {
                if t > 0 {
                    assert(sorted@[t] == mid[t - 1]);
                }
            }
        }
    }
    sorted
}

/// Inserting an item anywhere adds it to the multiset of a sequence.
proof fn lemma_insert_at(p: Seq<PotentialV>, c: int, x: PotentialV)
    requires
        0 <= c <= p.len(),
    ensures
        (p.take(c).push(x) + p.skip(c)).to_multiset() == p.to_multiset().insert(x),
{
    assert(p.take(c).push(x) + p.skip(c) =~= p.insert(c, x));
    vstd::seq_lib::to_multiset_insert(p, c, x);
}

/// Moving the last item to the front keeps the multiset of a sequence.
proof fn lemma_rotate(t: Seq<PotentialV>)
    requires
        t.len() > 0,
    ensures
        (seq![t.last()] + t.drop_last()).to_multiset() == t.to_multiset(),
{
    vstd::seq_lib::lemma_seq_union_to_multiset_commutative(seq![t.last()], t.drop_last());
    assert(t.drop_last() + seq![t.last()] =~= t);
}

/// A sequence equals its last item pushed after the rest.
proof fn lemma_last_pushed(s: Seq<PotentialV>)
    requires
        s.len() > 0,
    ensures
        s.to_multiset() == s.drop_last().to_multiset().insert(s.last()),
{
    assert(s.drop_last().push(s.last()) =~= s);
    vstd::seq_lib::to_multiset_build(s.drop_last(), s.last());
}

proof fn lemma_stable_sort_permutes(s: Seq<PotentialV>)
    ensures
        stable_sort(s).to_multiset() == s.to_multiset(),
    decreases s.len(),
{
    if s.len() == 0 {
        assert(s =~= Seq::<PotentialV>::empty());
    } else {
        lemma_stable_sort_permutes(s.drop_last());
        let p = stable_sort(s.drop_last());
        lemma_count_key_le(p, pot_key(s.last()));
        lemma_insert_at(p, count_key_le(p, pot_key(s.last())) as int, s.last());
        lemma_last_pushed(s);
    }
}

proof fn lemma_stable_sort_am_permutes(s: Seq<PotentialV>)
    ensures
        stable_sort_am(s).to_multiset() == s.to_multiset(),
    decreases s.len(),
{
    if s.len() == 0 {
        assert(s =~= Seq::<PotentialV>::empty());
    } else {
        lemma_stable_sort_am_permutes(s.drop_last());
        let p = stable_sort_am(s.drop_last());
        lemma_count_am(p, s.last().am);
        lemma_insert_at(p, count_am_not_after(p, s.last().am) as int, s.last());
        lemma_last_pushed(s);
    }
}

/// The keys of a sequence of potentials do not decrease.
pub open spec fn keys_sorted(t: Seq<PotentialV>) -> bool {
    forall|i: int, j: int| 0 <= i <= j < t.len() ==> pot_key(#[trigger] t[i]) <= pot_key(#[trigger] t[j])
}

/// In a sorted sequence, the items counted as not above `k` are exactly
/// the ones before the count.
proof fn lemma_count_split(p: Seq<PotentialV>, k: i32)
    requires
        keys_sorted(p),
    ensures
        count_key_le(p, k) <= p.len(),
        forall|i: int| 0 <= i < count_key_le(p, k) ==> pot_key(#[trigger] p[i]) <= k,
        forall|i: int| count_key_le(p, k) <= i < p.len() ==> pot_key(#[trigger] p[i]) > k,
    decreases p.len(),
{
    if p.len() > 0 {
        let q = p.drop_last();
        assert(keys_sorted(q)) by {
            assert forall|i: int, j: int| 0 <= i <= j < q.len() implies pot_key(#[trigger] q[i]) <= pot_key(
                #[trigger] q[j],
            ) by {
                assert(q[i] == p[i] && q[j] == p[j]);
            }
        }
        lemma_count_split(q, k);
        let c = count_key_le(q, k);
        if pot_key(p.last()) <= k {
            if c < q.len() {
                assert(pot_key(p[c as int]) <= pot_key(p[p.len() - 1]));
                assert(q[c as int] == p[c as int]);
            }
            assert forall|i: int| 0 <= i < count_key_le(p, k) implies pot_key(#[trigger] p[i]) <= k by {
                if i < q.len() {
                    assert(q[i] == p[i]);
                }
            }
        } else {
            assert forall|i: int| 0 <= i < count_key_le(p, k) implies pot_key(#[trigger] p[i]) <= k by {
                assert(q[i] == p[i]);
            }
            assert forall|i: int| count_key_le(p, k) <= i < p.len() implies pot_key(#[trigger] p[i]) > k by {
                if i < q.len() {
                    assert(q[i] == p[i]);
                }
            }
        }
    }
}

proof fn lemma_stable_sort_sorted(s: Seq<PotentialV>)
    ensures
        keys_sorted(stable_sort(s)),
        stable_sort(s).len() == s.len(),
    decreases s.len(),
{
    lemma_stable_sort_len(s);
    if s.len() > 0 {
        lemma_stable_sort_sorted(s.drop_last());
        let p = stable_sort(s.drop_last());
        let x = s.last();
        let k = pot_key(x);
        lemma_count_split(p, k);
        let c = count_key_le(p, k) as int;
        let r = p.take(c).push(x) + p.skip(c);
        assert(r == stable_sort(s));
        assert forall|i: int| 0 <= i < r.len() implies #[trigger] r[i] == (if i < c {
            p[i]
        } else if i == c {
            x
        } else {
            p[i - 1]
        }) by {}
        assert forall|i: int, j: int| 0 <= i <= j < r.len() implies pot_key(#[trigger] r[i]) <= pot_key(
            #[trigger] r[j],
        ) by {
            if i < c && j < c {
                assert(pot_key(p[i]) <= pot_key(p[j]));
            } else if i > c && j > c {
                assert(pot_key(p[i - 1]) <= pot_key(p[j - 1]));
            } else if i < c && j > c {
                assert(pot_key(p[i]) <= pot_key(p[j - 1]));
            }
        }
    }
}

/// Sorting potentials keeps every one of them (the result is a permutation),
/// puts one of largest key first, and leaves the rest in increasing order of
/// key.
pub proof fn lemma_sort_potentials_order(s: Seq<PotentialV>)
    ensures
        sort_potentials_spec(s).to_multiset() == s.to_multiset(),
        forall|i: int, j: int|
            1 <= i <= j < s.len() ==> pot_key(#[trigger] sort_potentials_spec(s)[i]) <= pot_key(
                #[trigger] sort_potentials_spec(s)[j],
            ),
        forall|i: int|
            0 <= i < s.len() ==> pot_key(#[trigger] sort_potentials_spec(s)[i]) <= pot_key(
                sort_potentials_spec(s)[0],
            ),
{
    lemma_stable_sort_permutes(s);
    lemma_stable_sort_sorted(s);
    let t = stable_sort(s);
    if t.len() > 0 {
        lemma_rotate(t);
        let r = sort_potentials_spec(s);
        assert forall|i: int| 0 <= i < r.len() implies #[trigger] r[i] == (if i == 0 {
            t[t.len() - 1]
        } else {
            t[i - 1]
        }) by {}
        assert forall|i: int| 0 <= i < s.len() implies pot_key(#[trigger] r[i]) <= pot_key(r[0]) by {
            if i > 0 {
                assert(pot_key(t[i - 1]) <= pot_key(t[t.len() - 1]));
            }
        }
        assert forall|i: int, j: int| 1 <= i <= j < s.len() implies pot_key(#[trigger] r[i]) <= pot_key(
            #[trigger] r[j],
        ) by {
            assert(pot_key(t[i - 1]) <= pot_key(t[j - 1]));
        }
    }
}

/// Ordering potentials for output keeps every one of them.
pub proof fn lemma_ecp_order_permutes(s: Seq<PotentialV>)
    ensures
        ecp_order(s).to_multiset() == s.to_multiset(),
        ecp_order(s).len() == s.len(),
{
    lemma_stable_sort_am_permutes(s);
    let t = stable_sort_am(s);
    if t.len() > 0 {
        lemma_rotate(t);
    }
    vstd::seq_lib::to_multiset_len(ecp_order(s));
    vstd::seq_lib::to_multiset_len(s);
}

} // verus!
