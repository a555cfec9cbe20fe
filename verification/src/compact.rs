//! Order-preserving deletion by position: what it means, and how a list of
//! positions is put into the form that a compaction pass walks.

use vstd::prelude::*;

verus! {

/// Each entry is below every later one.
pub open spec fn strictly_ascending(s: Seq<usize>) -> bool {
    forall|i: int, j: int| 0 <= i < j < s.len() ==> s[i] < s[j]
}

/// No entry is above a later one.
pub open spec fn ascending(s: Seq<usize>) -> bool {
    forall|i: int, j: int| 0 <= i <= j < s.len() ==> s[i] <= s[j]
}

/// The positions that a list names.
pub open spec fn index_set(s: Seq<usize>) -> Set<int> {
    Set::new(|i: int| exists|k: int| 0 <= k < s.len() && s[k] == i)
}

/// What is left of `s`, in order, once the elements at the positions in
/// `gone` are taken out. Positions that `s` does not have play no part.
pub open spec fn survivors<T>(s: Seq<T>, gone: Set<int>) -> Seq<T>
    decreases s.len(),
{
    if s.len() == 0 {
        Seq::empty()
    } else {
        let rest = survivors(s.drop_last(), gone);
        if gone.contains(s.len() - 1) {
            rest
        } else {
            rest.push(s.last())
        }
    }
}

/// The elements of `s` at the positions that `at` lists, in the order of the
/// list; a position that `s` does not have is passed over.
pub open spec fn gather<T>(s: Seq<T>, at: Seq<usize>) -> Seq<T>
    decreases at.len(),
{
    if at.len() == 0 {
        Seq::empty()
    } else {
        let rest = gather(s, at.drop_last());
        if at.last() < s.len() {
            rest.push(s[at.last() as int])
        } else {
            rest
        }
    }
}

pub proof fn lemma_survivors_len<T>(s: Seq<T>, gone: Set<int>)
    ensures
        survivors(s, gone).len() <= s.len(),
    decreases s.len(),
{
    if s.len() > 0 {
        lemma_survivors_len(s.drop_last(), gone);
    }
}

/// One more element read, and its position is to go: nothing is added.
pub proof fn lemma_survivors_skip<T>(s: Seq<T>, gone: Set<int>, k: int)
    requires
        0 <= k < s.len(),
        gone.contains(k),
    ensures
        survivors(s.take(k + 1), gone) == survivors(s.take(k), gone),
{
    assert(s.take(k + 1).drop_last() =~= s.take(k));
}

/// One more element read, and its position stays: it comes last.
pub proof fn lemma_survivors_keep<T>(s: Seq<T>, gone: Set<int>, k: int)
    requires
        0 <= k < s.len(),
        !gone.contains(k),
    ensures
        survivors(s.take(k + 1), gone) == survivors(s.take(k), gone).push(s[k]),
{
    assert(s.take(k + 1).drop_last() =~= s.take(k));
}

/// Where no position below `k` is to go, the first `k` elements all stay.
pub proof fn lemma_survivors_untouched<T>(s: Seq<T>, gone: Set<int>, k: int)
    requires
        0 <= k <= s.len(),
        forall|i: int| 0 <= i < k ==> !gone.contains(i),
    ensures
        survivors(s.take(k), gone) == s.take(k),
    decreases k,
{
    if k > 0 {
        lemma_survivors_untouched(s, gone, k - 1);
        lemma_survivors_keep(s, gone, k - 1);
        assert(s.take(k - 1).push(s[k - 1]) =~= s.take(k));
    } else {
        assert(s.take(0) =~= Seq::<T>::empty());
    }
}

/// Only the positions that `s` has matter.
pub proof fn lemma_survivors_agree<T>(s: Seq<T>, g1: Set<int>, g2: Set<int>)
    requires
        forall|i: int| 0 <= i < s.len() ==> (g1.contains(i) <==> g2.contains(i)),
    ensures
        survivors(s, g1) == survivors(s, g2),
    decreases s.len(),
{
    if s.len() > 0 {
        lemma_survivors_agree(s.drop_last(), g1, g2);
    }
}

/// Deleting from two sequences laid end to end is deleting from each, the
/// second with its positions counted from its own start.
pub proof fn lemma_survivors_concat<T>(a: Seq<T>, b: Seq<T>, gone: Set<int>, gone_b: Set<int>)
    requires
        forall|i: int| 0 <= i < b.len() ==> (gone_b.contains(i) <==> gone.contains(a.len() + i)),
    ensures
        survivors(a + b, gone) == survivors(a, gone) + survivors(b, gone_b),
    decreases b.len(),
{
    if b.len() == 0 {
        assert(a + b =~= a);
        assert(survivors(a, gone) + survivors(b, gone_b) =~= survivors(a, gone));
    } else {
        lemma_survivors_concat(a, b.drop_last(), gone, gone_b);
        assert((a + b).drop_last() =~= a + b.drop_last());
        assert((a + b).last() == b.last());
        if gone.contains((a + b).len() - 1) {
        } else {
            assert(survivors(a, gone) + survivors(b.drop_last(), gone_b).push(b.last()) =~= (
            survivors(a, gone) + survivors(b.drop_last(), gone_b)).push(b.last()));
        }
    }
}

/// `<[usize]>::sort_unstable` on the vector's elements: afterwards they stand
/// in ascending order, and they are the same elements, each as often as before.
#[verifier::external_body]
fn sort_ascending(v: &mut Vec<usize>)
    ensures
        ascending(final(v)@),
        final(v)@.to_multiset() == old(v)@.to_multiset(),
{
    v.sort_unstable()
}

/// Sorts a list of positions.
pub fn sorted_indices(indices: Vec<usize>) -> (r: Vec<usize>)
    ensures
        ascending(r@),
        r@.to_multiset() == indices@.to_multiset(),
        r@.len() == indices@.len(),
        forall|x: usize| r@.contains(x) <==> indices@.contains(x),
{
    let mut v = indices;
    sort_ascending(&mut v);
    proof {
        v@.to_multiset_ensures();
        indices@.to_multiset_ensures();
        assert forall|x: usize| v@.contains(x) <==> indices@.contains(x) by {
            assert(v@.to_multiset().count(x) == indices@.to_multiset().count(x));
        }
    }
    v
}

/// Puts a list of positions into the form a compaction pass needs: sorted,
/// each position once, none at or above `bound`.
pub fn normalized_indices(indices: Vec<usize>, bound: usize) -> (r: Vec<usize>)
    ensures
        strictly_ascending(r@),
        forall|k: int| 0 <= k < r@.len() ==> r@[k] < bound,
        forall|x: usize| r@.contains(x) <==> (indices@.contains(x) && x < bound),
{
    let sorted = sorted_indices(indices);
    let mut out: Vec<usize> = Vec::new();
    let mut i: usize = 0;
    while i < sorted.len()
        invariant
            i <= sorted@.len(),
            ascending(sorted@),
            strictly_ascending(out@),
            forall|k: int|
                0 <= k < out@.len() ==> out@[k] < bound && sorted@.take(i as int).contains(
                    #[trigger] out@[k],
                ),
            forall|j: int| 0 <= j < i && sorted@[j] < bound ==> out@.contains(#[trigger] sorted@[j]),
        decreases sorted@.len() - i,
    {
        let x = sorted[i];
        let ghost prev = out@;
        assert(sorted@.take(i as int + 1).drop_last() =~= sorted@.take(i as int));
        assert(sorted@.take(i as int + 1)[i as int] == x);
        assert forall|k: int| 0 <= k < prev.len() implies prev[k] <= x by {
            let w = choose|w: int| 0 <= w < i && sorted@.take(i as int)[w] == prev[k];
            assert(sorted@[w] <= sorted@[i as int]);
        }
        assert forall|k: int| 0 <= k < prev.len() implies sorted@.take(i as int + 1).contains(
            #[trigger] prev[k],
        ) by {
            let w = choose|w: int| 0 <= w < i && sorted@.take(i as int)[w] == prev[k];
            assert(sorted@.take(i as int + 1)[w] == prev[k]);
        }
        if x < bound && (out.len() == 0 || out[out.len() - 1] != x) {
            out.push(x);
            assert(out@[prev.len() as int] == x);
            assert forall|j: int| 0 <= j < i + 1 && sorted@[j] < bound implies out@.contains(
                #[trigger] sorted@[j],
            ) by {
                if j < i {
                    let w = choose|w: int| 0 <= w < prev.len() && prev[w] == sorted@[j];
                    assert(out@[w] == sorted@[j]);
                } else {
                    assert(out@[prev.len() as int] == sorted@[j]);
                }
            }
        } else {
            if x < bound {
                assert(prev[prev.len() - 1] == x);
            }
        }
        i += 1;
    }
    proof {
        assert(sorted@.take(i as int) =~= sorted@);
        assert forall|x: usize| out@.contains(x) <==> (indices@.contains(x) && x < bound) by {
            if out@.contains(x) {
                let k = choose|k: int| 0 <= k < out@.len() && out@[k] == x;
                assert(sorted@.contains(out@[k]));
            }
            if indices@.contains(x) && x < bound {
                assert(sorted@.contains(x));
                let j = choose|j: int| 0 <= j < sorted@.len() && sorted@[j] == x;
                assert(out@.contains(sorted@[j]));
            }
        }
    }
    out
}

/// One more position read: what was gathered before, and the element there
/// if there is one.
pub proof fn lemma_gather_step<T>(s: Seq<T>, at: Seq<usize>, k: int)
    requires
        0 <= k < at.len(),
    ensures
        gather(s, at.take(k + 1)) == if at[k] < s.len() {
            gather(s, at.take(k)).push(s[at[k] as int])
        } else {
            gather(s, at.take(k))
        },
{
    assert(at.take(k + 1).drop_last() =~= at.take(k));
}

/// The positions below `bound` that a strictly ascending list leaves out, in
/// ascending order.
pub fn complement_indices(kept: &Vec<usize>, bound: usize) -> (r: Vec<usize>)
    requires
        strictly_ascending(kept@),
    ensures
        forall|k: int| 0 <= k < r@.len() ==> r@[k] < bound,
        forall|i: int|
            0 <= i < bound ==> (index_set(r@).contains(i) <==> !index_set(kept@).contains(i)),
{
    let mut out: Vec<usize> = Vec::new();
    let mut p: usize = 0;
    let mut i: usize = 0;
    while i < bound
        invariant
            i <= bound,
            p <= kept@.len(),
            strictly_ascending(kept@),
            forall|k: int| 0 <= k < p ==> kept@[k] < i,
            forall|k: int| p <= k < kept@.len() ==> kept@[k] >= i,
            forall|k: int| 0 <= k < out@.len() ==> out@[k] < i,
            forall|j: int|
                0 <= j < i ==> (index_set(out@).contains(j) <==> !index_set(kept@).contains(j)),
        decreases bound - i,
    {
        let ghost prev = out@;
        if p < kept.len() && kept[p] == i {
            proof {
                assert(index_set(kept@).contains(i as int));
                assert(!index_set(out@).contains(i as int));
            }
            p += 1;
        } else {
            proof {
                if index_set(kept@).contains(i as int) {
                    let k = choose|k: int| 0 <= k < kept@.len() && kept@[k] == i as int;
                    if k > p {
                        assert(kept@[p as int] < kept@[k]);
                    }
                    assert(false);
                }
            }
            out.push(i);
            proof {
                assert(out@[prev.len() as int] == i);
                assert(index_set(out@).contains(i as int));
                assert forall|j: int| 0 <= j < i implies (index_set(out@).contains(j)
                    <==> index_set(prev).contains(j)) by {
                    if index_set(prev).contains(j) {
                        let k = choose|k: int| 0 <= k < prev.len() && prev[k] == j;
                        assert(out@[k] == j);
                    }
                    if index_set(out@).contains(j) {
                        let k = choose|k: int| 0 <= k < out@.len() && out@[k] == j;
                        assert(prev[k] == j);
                    }
                }
            }
        }
        i += 1;
    }
    out
}

/// How many of the positions below `k` stay.
pub open spec fn kept_below(gone: Set<int>, k: nat) -> nat
    decreases k,
{
    if k == 0 {
        0
    } else {
        kept_below(gone, (k - 1) as nat) + if gone.contains(k - 1) {
            0nat
        } else {
            1nat
        }
    }
}

/// The count of staying positions does not fall, and it rises past a
/// position that stays.
pub proof fn lemma_kept_below_monotone(gone: Set<int>, a: nat, b: nat)
    requires
        a <= b,
    ensures
        kept_below(gone, a) <= kept_below(gone, b),
        a < b && !gone.contains(a as int) ==> kept_below(gone, a) < kept_below(gone, b),
    decreases b,
{
    if a < b {
        lemma_kept_below_monotone(gone, a, (b - 1) as nat);
    }
}

/// Deletion keeps the order. An element that stays is found at the number of
/// staying elements before it, so of two that stay the earlier stays the
/// earlier; and nothing else is left.
pub proof fn lemma_survivors_keep_order<T>(s: Seq<T>, gone: Set<int>)
    ensures
        survivors(s, gone).len() == kept_below(gone, s.len()),
        forall|k: int|
            0 <= k < s.len() && !gone.contains(k) ==> kept_below(gone, k as nat) < survivors(
                s,
                gone,
            ).len() && survivors(s, gone)[#[trigger] kept_below(gone, k as nat) as int] == s[k],
        forall|a: int, b: int|
            0 <= a < b < s.len() && !gone.contains(a) ==> #[trigger] kept_below(gone, a as nat)
                < #[trigger] kept_below(gone, b as nat),
    decreases s.len(),
{
    assert forall|a: int, b: int| 0 <= a < b < s.len() && !gone.contains(a) implies #[trigger] kept_below(
        gone,
        a as nat,
    ) < #[trigger] kept_below(gone, b as nat) by {
        lemma_kept_below_monotone(gone, a as nat, b as nat);
    }
    if s.len() > 0 {
        let t = s.drop_last();
        let rest = survivors(t, gone);
        lemma_survivors_keep_order(t, gone);
        assert forall|k: int| 0 <= k < s.len() && !gone.contains(k) implies kept_below(
            gone,
            k as nat,
        ) < survivors(s, gone).len() && survivors(s, gone)[#[trigger] kept_below(gone, k as nat) as int]
            == s[k] by {
            if k < s.len() - 1 {
                assert(rest[kept_below(gone, k as nat) as int] == t[k]);
            }
        }
    }
}

/// Where every position from `m` on is to go, only the first `m` elements
/// count.
pub proof fn lemma_survivors_tail_gone<T>(s: Seq<T>, gone: Set<int>, m: int)
    requires
        0 <= m <= s.len(),
        forall|i: int| m <= i < s.len() ==> gone.contains(i),
    ensures
        survivors(s, gone) == survivors(s.take(m), gone),
    decreases s.len() - m,
{
    if m == s.len() {
        assert(s.take(m) =~= s);
    } else {
        lemma_survivors_tail_gone(s.drop_last(), gone, m);
        assert(s.drop_last().take(m) =~= s.take(m));
    }
}

/// Keeping is deleting the rest: the elements at a strictly ascending list
/// of positions are what is left once all other positions are taken out.
pub proof fn lemma_gather_is_survivors<T>(s: Seq<T>, order: Seq<usize>)
    requires
        strictly_ascending(order),
    ensures
        gather(s, order) == survivors(s, Set::new(|i: int| !index_set(order).contains(i))),
    decreases order.len(),
{
    let comp = Set::new(|i: int| !index_set(order).contains(i));
    if order.len() == 0 {
        lemma_survivors_tail_gone(s, comp, 0);
        assert(s.take(0) =~= Seq::<T>::empty());
    } else {
        let rest = order.drop_last();
        let m = order.last() as int;
        let comp_r = Set::new(|i: int| !index_set(rest).contains(i));
        lemma_gather_is_survivors(s, rest);
        assert forall|i: int| index_set(rest).contains(i) implies i < m && index_set(
            order,
        ).contains(i) by {
            let k = choose|k: int| 0 <= k < rest.len() && rest[k] == i;
            assert(order[k] == i);
        }
        assert forall|i: int| index_set(order).contains(i) implies i == m || index_set(
            rest,
        ).contains(i) by {
            let k = choose|k: int| 0 <= k < order.len() && order[k] == i;
            if k < order.len() - 1 {
                assert(rest[k] == i);
            }
        }
        assert(index_set(order).contains(m)) by {
            assert(order[order.len() - 1] == m);
        }
        if m < s.len() {
            lemma_survivors_tail_gone(s, comp_r, m);
            lemma_survivors_tail_gone(s, comp, m + 1);
            lemma_survivors_keep(s, comp, m);
            lemma_survivors_agree(s.take(m), comp, comp_r);
        } else {
            lemma_survivors_agree(s, comp, comp_r);
        }
    }
}

/// Keeping the positions of a list without repetitions and deleting all
/// other positions give the same sequence: whether the kept elements are
/// read out in ascending order of their positions, or the positions that the
/// list leaves out are deleted, or a list of exactly those is.
pub proof fn lemma_keep_delete_duality<T>(
    s: Seq<T>,
    keep: Seq<usize>,
    order: Seq<usize>,
    others: Seq<usize>,
)
    requires
        keep.no_duplicates(),
        ascending(order),
        order.to_multiset() == keep.to_multiset(),
        forall|i: int|
            0 <= i < s.len() ==> (index_set(others).contains(i) <==> !index_set(keep).contains(i)),
    ensures
        gather(s, order) == survivors(s, index_set(others)),
        survivors(s, Set::new(|i: int| !index_set(keep).contains(i))) == survivors(
            s,
            index_set(others),
        ),
{
    keep.lemma_multiset_has_no_duplicates();
    order.lemma_multiset_has_no_duplicates_conv();
    order.to_multiset_ensures();
    keep.to_multiset_ensures();
    assert(strictly_ascending(order));
    let comp_o = Set::new(|i: int| !index_set(order).contains(i));
    let comp_k = Set::new(|i: int| !index_set(keep).contains(i));
    assert forall|i: int| 0 <= i < s.len() implies (index_set(order).contains(i) <==> index_set(
        keep,
    ).contains(i)) by {
        if index_set(order).contains(i) {
            let k = choose|k: int| 0 <= k < order.len() && order[k] == i;
            assert(order.contains(order[k]));
            assert(keep.to_multiset().count(order[k]) > 0);
            assert(keep.contains(order[k]));
            let w = choose|w: int| 0 <= w < keep.len() && keep[w] == order[k];
            assert(keep[w] == i);
        }
        if index_set(keep).contains(i) {
            let w = choose|w: int| 0 <= w < keep.len() && keep[w] == i;
            assert(keep.contains(keep[w]));
            assert(order.to_multiset().count(keep[w]) > 0);
            assert(order.contains(keep[w]));
            let k = choose|k: int| 0 <= k < order.len() && order[k] == keep[w];
            assert(order[k] == i);
        }
    }
    lemma_gather_is_survivors(s, order);
    lemma_survivors_agree(s, comp_o, index_set(others));
    lemma_survivors_agree(s, comp_k, index_set(others));
}

} // verus!
