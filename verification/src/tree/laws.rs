use crate::tree::node::Color;
use crate::tree::entries::lemma_entries_count;
use crate::tree::rb_tree::RbTree;
use vstd::prelude::*;

verus! {

/// One for a black node, nothing for a red one.
pub open spec fn black_weight(c: Color) -> nat {
    if c == Color::Black {
        1
    } else {
        0
    }
}

/// The number of black nodes on the way from the root down to node `i`, both
/// ends included.
pub open spec fn blacks_above(t: &RbTree, i: usize) -> nat
    decreases t.slack(i),
    when t.shape() && i < t.nodes@.len()
{
    black_weight(t.nd(i).color) + match t.nd(i).parent {
        None => 0nat,
        Some(p) => {
            proof {
                assert(t.shape_at(i));
                assert(t.shape_at(p));
            }
            blacks_above(t, p)
        },
    }
}

/// Search-tree order: every key in the left subtree of a node is smaller
/// than the node's key, and every key in its right subtree is larger.
pub proof fn lemma_search_order(t: &RbTree, n: usize, m: usize)
    requires
        t.wf(),
        n < t.nodes@.len(),
        m < t.nodes@.len(),
    ensures
        t.nd(n).left_child is Some && t.under(m, t.nd(n).left_child.unwrap()) ==> t.nd(m).key
            < t.nd(n).key,
        t.nd(n).right_child is Some && t.under(m, t.nd(n).right_child.unwrap()) ==> t.nd(n).key
            < t.nd(m).key,
{
    assert(t.shape_at(n));
    assert(t.shape_at(m));
    if t.nd(n).left_child is Some && t.under(m, t.nd(n).left_child.unwrap()) {
        t.lemma_under_bounds(m, t.nd(n).left_child.unwrap());
    }
    if t.nd(n).right_child is Some && t.under(m, t.nd(n).right_child.unwrap()) {
        t.lemma_under_bounds(m, t.nd(n).right_child.unwrap());
    }
}

/// No red node has a red child.
pub proof fn lemma_red_has_black_children(t: &RbTree, n: usize)
    requires
        t.wf(),
        n < t.nodes@.len(),
        t.nd(n).color == Color::Red,
    ensures
        t.slot_black(t.nd(n).left_child),
        t.slot_black(t.nd(n).right_child),
{
    assert(t.shape_at(n));
    if t.nd(n).left_child is Some {
        assert(t.rr_at(t.nd(n).left_child.unwrap()));
    }
    if t.nd(n).right_child is Some {
        assert(t.rr_at(t.nd(n).right_child.unwrap()));
    }
}

/// The black nodes from the root down to node `i`, and from there on down to
/// any empty slot, are as many as the root's black height.
pub proof fn lemma_blacks_through(t: &RbTree, i: usize)
    requires
        t.wf(),
        i < t.nodes@.len(),
    ensures
        t.root is Some,
        blacks_above(t, i) + t.slot_bh(t.nd(i).left_child) == t.bh@[t.root.unwrap() as int],
        blacks_above(t, i) + t.slot_bh(t.nd(i).right_child) == t.bh@[t.root.unwrap() as int],
    decreases t.slack(i),
{
    assert(t.shape_at(i));
    assert(t.bh_at(i));
    match t.nd(i).parent {
        None => {},
        Some(p) => {
            assert(t.shape_at(p));
            assert(t.bh_at(p));
            lemma_blacks_through(t, p);
        },
    }
}

/// One black height: the way from the root to any empty slot passes the same
/// number of black nodes, whichever two nodes the slots hang under.
pub proof fn lemma_black_height_uniform(t: &RbTree, i: usize, j: usize)
    requires
        t.wf(),
        i < t.nodes@.len(),
        j < t.nodes@.len(),
        t.nd(i).left_child is None || t.nd(i).right_child is None,
        t.nd(j).left_child is None || t.nd(j).right_child is None,
    ensures
        blacks_above(t, i) == blacks_above(t, j),
{
    lemma_blacks_through(t, i);
    lemma_blacks_through(t, j);
}

/// The root of a tree that holds anything is black.
pub proof fn lemma_root_is_black(t: &RbTree)
    requires
        t.wf(),
        t.nodes@.len() > 0,
    ensures
        t.root is Some,
        t.nd(t.root.unwrap()).color == Color::Black,
{
}

/// Every node can be reached from the root, and no other node carries its
/// key: none is lost and none stands twice.
pub proof fn lemma_nodes_reachable_once(t: &RbTree, i: usize, j: usize)
    requires
        t.wf(),
        i < t.nodes@.len(),
        j < t.nodes@.len(),
    ensures
        t.root is Some,
        t.under(i, t.root.unwrap()),
        t@.contains_key(t.nd(i).key),
        t@[t.nd(i).key] == t.nd(i).value@,
        t.nd(i).key == t.nd(j).key ==> i == j,
{
    t.lemma_under_root(i);
    let e = t.entries();
    assert(e[i as int].0 == t.nd(i).key);
    assert(e[j as int].0 == t.nd(j).key);
    let k = t.nd(i).key;
    let c = choose|c: int| 0 <= c < e.len() && (#[trigger] e[c]).0 == k;
    if c < i {
        assert(e[c].0 != e[i as int].0);
    }
    if i < c {
        assert(e[i as int].0 != e[c].0);
    }
    if i < j {
        assert(e[i as int].0 != e[j as int].0);
    }
    if j < i {
        assert(e[j as int].0 != e[i as int].0);
    }
}

/// The tree has as many nodes as it holds keys: a tree that took `n`
/// distinct keys has `n` nodes.
pub proof fn lemma_one_node_per_key(t: &RbTree)
    requires
        t.wf(),
    ensures
        t@.dom().finite(),
        t@.dom().len() == t.nodes@.len(),
{
    lemma_entries_count(t.entries());
}

/// Putting a value under the same key twice leaves what putting the second
/// value alone leaves: the second value under that key, all else as before.
pub proof fn lemma_second_insert_overwrites(
    m: Map<u64, Seq<char>>,
    k: u64,
    first: Seq<char>,
    second: Seq<char>,
)
    ensures
        m.insert(k, first).insert(k, second) == m.insert(k, second),
        m.insert(k, first).contains_key(k),
{
    assert(m.insert(k, first).insert(k, second) =~= m.insert(k, second));
}

} // verus!
