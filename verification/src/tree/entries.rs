//! Sequences of key-value pairs and the maps that they stand for.

use vstd::prelude::*;

verus! {

/// The map that a sequence of key-value pairs stands for.
pub open spec fn entries_map(e: Seq<(u64, Seq<char>)>) -> Map<u64, Seq<char>> {
    Map::new(
        |k: u64| exists|i: int| 0 <= i < e.len() && (#[trigger] e[i]).0 == k,
        |k: u64| e[choose|i: int| 0 <= i < e.len() && (#[trigger] e[i]).0 == k].1,
    )
}

/// No key stands twice in a sequence of key-value pairs.
pub open spec fn keys_distinct(e: Seq<(u64, Seq<char>)>) -> bool {
    forall|i: int, j: int|
        #![trigger e[i], e[j]]
        0 <= i < j < e.len() ==> e[i].0 != e[j].0
}

/// Appending a pair with a new key adds that key to the map.
pub proof fn lemma_entries_push(e: Seq<(u64, Seq<char>)>, k: u64, v: Seq<char>)
    requires
        keys_distinct(e),
        forall|i: int| 0 <= i < e.len() ==> (#[trigger] e[i]).0 != k,
    ensures
        keys_distinct(e.push((k, v))),
        entries_map(e.push((k, v))) == entries_map(e).insert(k, v),
{
    let e2 = e.push((k, v));
    assert forall|i: int, j: int| 0 <= i < j < e2.len() implies (#[trigger] e2[i]).0 != (
    #[trigger] e2[j]).0 by {
        assert(e2[i] == e[i]);
        if j < e.len() {
            assert(e2[j] == e[j]);
        }
    }
    assert forall|q: u64| #[trigger]
        entries_map(e2).dom().contains(q) == entries_map(e).insert(k, v).dom().contains(q) by {
        if entries_map(e2).dom().contains(q) {
            let i = choose|i: int| 0 <= i < e2.len() && (#[trigger] e2[i]).0 == q;
            if i < e.len() {
                assert(e[i].0 == q);
            }
        }
        if entries_map(e).dom().contains(q) {
            let i = choose|i: int| 0 <= i < e.len() && (#[trigger] e[i]).0 == q;
            assert(e2[i].0 == q);
        }
        if q == k {
            assert(e2[e.len() as int].0 == q);
        }
    }
    assert forall|q: u64| entries_map(e2).dom().contains(q) implies #[trigger] entries_map(e2)[q]
        == entries_map(e).insert(k, v)[q] by {
        let i = choose|i: int| 0 <= i < e2.len() && (#[trigger] e2[i]).0 == q;
        if q != k {
            assert(e2[i] == e[i]);
            let i0 = choose|i: int| 0 <= i < e.len() && (#[trigger] e[i]).0 == q;
            assert(e[i].0 == q);
            assert(e[i0].0 == q);
            assert(i0 == i) by {
                if i0 < i {
                    assert(e[i0].0 != e[i].0);
                }
                if i < i0 {
                    assert(e[i].0 != e[i0].0);
                }
            }
        } else {
            if i < e.len() {
                assert(e[i].0 != k);
            }
        }
    }
    assert(entries_map(e2) =~= entries_map(e).insert(k, v));
}

/// Replacing the value beside a key replaces it in the map.
pub proof fn lemma_entries_update(e: Seq<(u64, Seq<char>)>, at: int, v: Seq<char>)
    requires
        keys_distinct(e),
        0 <= at < e.len(),
    ensures
        keys_distinct(e.update(at, (e[at].0, v))),
        entries_map(e.update(at, (e[at].0, v))) == entries_map(e).insert(e[at].0, v),
{
    let k = e[at].0;
    let e2 = e.update(at, (k, v));
    assert forall|i: int, j: int| 0 <= i < j < e2.len() implies (#[trigger] e2[i]).0 != (
    #[trigger] e2[j]).0 by {
        assert(e2[i].0 == e[i].0);
        assert(e2[j].0 == e[j].0);
    }
    assert forall|q: u64| #[trigger]
        entries_map(e2).dom().contains(q) == entries_map(e).insert(k, v).dom().contains(q) by {
        if entries_map(e2).dom().contains(q) {
            let i = choose|i: int| 0 <= i < e2.len() && (#[trigger] e2[i]).0 == q;
            assert(e[i].0 == q);
        }
        if entries_map(e).dom().contains(q) {
            let i = choose|i: int| 0 <= i < e.len() && (#[trigger] e[i]).0 == q;
            assert(e2[i].0 == q);
        }
        if q == k {
            assert(e2[at].0 == q);
        }
    }
    assert forall|q: u64| entries_map(e2).dom().contains(q) implies #[trigger] entries_map(e2)[q]
        == entries_map(e).insert(k, v)[q] by {
        let i = choose|i: int| 0 <= i < e2.len() && (#[trigger] e2[i]).0 == q;
        assert(e[i].0 == q);
        if i != at {
            assert(e[i].0 != e[at].0) by {
                if i < at {
                    assert(e[i].0 != e[at].0);
                } else {
                    assert(e[at].0 != e[i].0);
                }
            }
        }
        if q != k {
            assert(e2[i] == e[i]);
            let i0 = choose|i: int| 0 <= i < e.len() && (#[trigger] e[i]).0 == q;
            assert(e[i0].0 == q);
            assert(i0 == i) by {
                if i0 < i {
                    assert(e[i0].0 != e[i].0);
                }
                if i < i0 {
                    assert(e[i].0 != e[i0].0);
                }
            }
        }
    }
    assert(entries_map(e2) =~= entries_map(e).insert(k, v));
}

/// A sequence of pairs with distinct keys stands for a map of as many keys.
pub proof fn lemma_entries_count(e: Seq<(u64, Seq<char>)>)
    requires
        keys_distinct(e),
    ensures
        entries_map(e).dom().finite(),
        entries_map(e).dom().len() == e.len(),
    decreases e.len(),
{
    if e.len() == 0 {
        assert(entries_map(e).dom() =~= Set::<u64>::empty());
    } else {
        let front = e.drop_last();
        let (k, v) = e.last();
        assert(e =~= front.push((k, v)));
        assert(keys_distinct(front)) by {
            assert forall|i: int, j: int| 0 <= i < j < front.len() implies (#[trigger] front[i]).0
                != (#[trigger] front[j]).0 by {
                assert(e[i].0 != e[j].0);
            }
        }
        assert forall|i: int| 0 <= i < front.len() implies (#[trigger] front[i]).0 != k by {
            assert(e[i].0 != e[e.len() - 1].0);
        }
        lemma_entries_count(front);
        lemma_entries_push(front, k, v);
        assert(!entries_map(front).dom().contains(k)) by {
            if entries_map(front).dom().contains(k) {
                let i = choose|i: int| 0 <= i < front.len() && (#[trigger] front[i]).0 == k;
                assert(front[i].0 != k);
            }
        }
        assert(entries_map(e).dom() =~= entries_map(front).dom().insert(k));
    }
}

} // verus!
