//! Descending order by an integer key, as the read queries present their
//! rows: an insertion-sort spec, its executable step, and the lemmas that
//! say the result is sorted and keeps exactly the input's elements.

use vstd::prelude::*;
use vstd::multiset::Multiset;

verus! {

/// `x` slotted into a run ordered by `key` descending: after every element
/// whose key is no smaller, before the first whose key is smaller.
pub open spec fn slotted_desc<A>(s: Seq<A>, x: A, key: spec_fn(A) -> u64) -> Seq<A>
    decreases s.len(),
{
    if s.len() == 0 {
        seq![x]
    } else if key(s[0]) >= key(x) {
        seq![s[0]] + slotted_desc(s.drop_first(), x, key)
    } else {
        seq![x] + s
    }
}

/// A run reordered by `key` descending: each element slotted in turn, so
/// elements with equal keys keep the order they arrived in.
pub open spec fn ordered_desc<A>(s: Seq<A>, key: spec_fn(A) -> u64) -> Seq<A>
    decreases s.len(),
{
    if s.len() == 0 {
        Seq::empty()
    } else {
        slotted_desc(ordered_desc(s.drop_last(), key), s.last(), key)
    }
}

/// The keys never increase along the run.
pub open spec fn sorted_desc<A>(s: Seq<A>, key: spec_fn(A) -> u64) -> bool {
    forall|i: int, j: int| 0 <= i <= j < s.len() ==> key(#[trigger] s[i]) >= key(#[trigger] s[j])
}

/// Slotting at the scanned position `k` — every element before it keyed no
/// smaller than `x`, the one at it (if any) keyed smaller — is a sequence
/// insertion at `k`.
pub proof fn lemma_slotted_at<A>(s: Seq<A>, x: A, key: spec_fn(A) -> u64, k: int)
    requires
        0 <= k <= s.len(),
        forall|j: int| 0 <= j < k ==> key(#[trigger] s[j]) >= key(x),
        k < s.len() ==> key(s[k]) < key(x),
    ensures
        slotted_desc(s, x, key) == s.insert(k, x),
    decreases k,
{
    if k == 0 {
        if s.len() == 0 {
            assert(slotted_desc(s, x, key) =~= s.insert(0, x));
        } else {
            assert(seq![x] + s =~= s.insert(0, x));
        }
    } else {
        lemma_slotted_at(s.drop_first(), x, key, k - 1);
        assert(seq![s[0]] + s.drop_first().insert(k - 1, x) =~= s.insert(k, x));
    }
}

/// Inserting one element grows the multiset by exactly that element.
pub proof fn lemma_seq_insert_multiset<A>(s: Seq<A>, k: int, x: A)
    requires
        0 <= k <= s.len(),
    ensures
        s.insert(k, x).to_multiset() == s.to_multiset().insert(x),
{
    broadcast use vstd::seq_lib::group_to_multiset_ensures;
    broadcast use vstd::multiset::group_multiset_axioms;

    let s2 = s.insert(k, x);
    assert(s2.remove(k) =~= s);
    assert(s2[k] == x);
    assert(s2.remove(k).to_multiset() =~= s2.to_multiset().remove(x));
    assert(s2.contains(x));
    assert(s2.to_multiset().count(x) > 0);
    assert forall|y: A| s2.to_multiset().count(y) == s.to_multiset().insert(x).count(
        y,
    ) by {
        assert(s.to_multiset().count(y) == s2.to_multiset().remove(x).count(y));
    }
    assert(s2.to_multiset() =~= s.to_multiset().insert(x));
}

/// Slotting keeps exactly the old elements plus `x`.
pub proof fn lemma_slotted_multiset<A>(s: Seq<A>, x: A, key: spec_fn(A) -> u64)
    ensures
        slotted_desc(s, x, key).to_multiset() == s.to_multiset().insert(x),
        slotted_desc(s, x, key).len() == s.len() + 1,
    decreases s.len(),
{
    broadcast use vstd::seq_lib::group_to_multiset_ensures;
    broadcast use vstd::multiset::group_multiset_axioms;

    if s.len() == 0 {
        assert(slotted_desc(s, x, key) =~= Seq::<A>::empty().push(x));
    } else if key(s[0]) >= key(x) {
        let rest = s.drop_first();
        lemma_slotted_multiset(rest, x, key);
        let t = slotted_desc(rest, x, key);
        assert(seq![s[0]] + t =~= t.insert(0, s[0]));
        lemma_seq_insert_multiset(t, 0, s[0]);
        assert(s =~= rest.insert(0, s[0]));
        lemma_seq_insert_multiset(rest, 0, s[0]);
        assert forall|y: A| slotted_desc(s, x, key).to_multiset().count(y) == s.to_multiset()
            .insert(x).count(y) by {
            assert(slotted_desc(s, x, key).to_multiset().count(y) == rest.to_multiset().insert(
                x,
            ).insert(s[0]).count(y));
            assert(s.to_multiset().insert(x).count(y) == rest.to_multiset().insert(s[0]).insert(
                x,
            ).count(y));
        }
        assert(slotted_desc(s, x, key).to_multiset() =~= s.to_multiset().insert(x));
    } else {
        assert(seq![x] + s =~= s.insert(0, x));
        lemma_seq_insert_multiset(s, 0, x);
    }
}

/// Slotting into a sorted run keeps it sorted.
pub proof fn lemma_slotted_sorted<A>(s: Seq<A>, x: A, key: spec_fn(A) -> u64)
    requires
        sorted_desc(s, key),
    ensures
        sorted_desc(slotted_desc(s, x, key), key),
    decreases s.len(),
{
    broadcast use vstd::seq_lib::group_to_multiset_ensures;
    broadcast use vstd::multiset::group_multiset_axioms;

    let r = slotted_desc(s, x, key);
    if s.len() == 0 {
    } else if key(s[0]) >= key(x) {
        let rest = s.drop_first();
        assert(sorted_desc(rest, key)) by {
            assert forall|i: int, j: int| 0 <= i <= j < rest.len() implies key(
                #[trigger] rest[i],
            ) >= key(#[trigger] rest[j]) by {
                assert(rest[i] == s[i + 1] && rest[j] == s[j + 1]);
            }
        }
        lemma_slotted_sorted(rest, x, key);
        lemma_slotted_multiset(rest, x, key);
        let t = slotted_desc(rest, x, key);
        // The head's key dominates everything slotted behind it.
        assert forall|j: int| 0 <= j < t.len() implies key(s[0]) >= key(#[trigger] t[j]) by {
            assert(t.contains(t[j]));
            assert(t.to_multiset().count(t[j]) > 0);
            if t[j] != x {
                assert(rest.to_multiset().count(t[j]) > 0);
                assert(rest.contains(t[j]));
                let w = choose|w: int| 0 <= w < rest.len() && rest[w] == t[j];
                assert(s[w + 1] == t[j]);
            }
        }
        assert forall|i: int, j: int| 0 <= i <= j < r.len() implies key(#[trigger] r[i]) >= key(
            #[trigger] r[j],
        ) by {
            if i == 0 {
                if j > 0 {
                    assert(r[j] == t[j - 1]);
                }
            } else {
                assert(r[i] == t[i - 1] && r[j] == t[j - 1]);
            }
        }
    } else {
        assert forall|i: int, j: int| 0 <= i <= j < r.len() implies key(#[trigger] r[i]) >= key(
            #[trigger] r[j],
        ) by {
            if i == 0 {
                if j > 0 {
                    assert(r[j] == s[j - 1]);
                    assert(key(s[0]) >= key(s[j - 1]));
                }
            } else {
                assert(r[i] == s[i - 1] && r[j] == s[j - 1]);
            }
        }
    }
}

/// What the reordering promises: the result is sorted by `key` descending
/// and holds exactly the input's elements — same multiset, same length,
/// same members.
pub proof fn lemma_ordered_desc_ensures<A>(s: Seq<A>, key: spec_fn(A) -> u64)
    ensures
        sorted_desc(ordered_desc(s, key), key),
        ordered_desc(s, key).to_multiset() == s.to_multiset(),
        ordered_desc(s, key).len() == s.len(),
        forall|y: A| ordered_desc(s, key).contains(y) <==> s.contains(y),
    decreases s.len(),
{
    broadcast use vstd::seq_lib::group_to_multiset_ensures;
    broadcast use vstd::multiset::group_multiset_axioms;

    if s.len() == 0 {
    } else {
        let rest = s.drop_last();
        lemma_ordered_desc_ensures(rest, key);
        lemma_slotted_sorted(ordered_desc(rest, key), s.last(), key);
        lemma_slotted_multiset(ordered_desc(rest, key), s.last(), key);
        assert(rest.push(s.last()) =~= s);
        assert(ordered_desc(s, key).to_multiset() =~= s.to_multiset());
    }
    assert forall|y: A| ordered_desc(s, key).contains(y) <==> s.contains(y) by {
        assert(ordered_desc(s, key).contains(y) <==> ordered_desc(s, key).to_multiset().count(y)
            > 0);
        assert(s.contains(y) <==> s.to_multiset().count(y) > 0);
    }
}

} // verus!
