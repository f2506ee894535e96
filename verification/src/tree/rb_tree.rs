use crate::tree::entries::{entries_map, keys_distinct, lemma_entries_push, lemma_entries_update};
use crate::tree::node::{Color, Direction, Node};
use crate::tree::steps::{repaired, rotated, rotated_in, rotated_top};
use vstd::prelude::*;

verus! {

/// A red-black tree from `u64` keys to text. The nodes live in `nodes`, in
/// the order in which they were inserted, and name one another by position.
///
/// The three ghost sequences justify the shape without walking it. For the
/// node at position `i`, every key below it lies strictly between `lo[i]` and
/// `hi[i]`, and `bh[i]` is the number of black nodes on each way from it down
/// to an empty slot, itself included.
pub struct RbTree {
    pub nodes: Vec<Node>,
    pub root: Option<usize>,
    pub lo: Ghost<Seq<int>>,
    pub hi: Ghost<Seq<int>>,
    pub bh: Ghost<Seq<nat>>,
}

/// One more than the largest key.
pub open spec fn key_limit() -> int {
    0x1_0000_0000_0000_0000
}

impl View for RbTree {
    type V = Map<u64, Seq<char>>;

    /// The tree as the map from each key it holds to that key's value.
    open spec fn view(&self) -> Map<u64, Seq<char>> {
        entries_map(self.entries())
    }
}

impl Default for RbTree {
    /// The empty tree.
    fn default() -> (t: RbTree)
        ensures
            t.wf(),
            t@ == Map::<u64, Seq<char>>::empty(),
            t.nodes@.len() == 0,
            t.root is None,
    {
        RbTree::new()
    }
}

impl RbTree {
    /// The node at position `i`.
    pub open spec fn nd(&self, i: usize) -> Node {
        self.nodes@[i as int]
    }

    /// The key and value of each node, by position.
    pub open spec fn entries(&self) -> Seq<(u64, Seq<char>)> {
        Seq::new(self.nodes@.len(), |i: int| (self.nodes@[i].key, self.nodes@[i].value@))
    }

    /// No two nodes carry the same key.
    pub open spec fn distinct_keys(&self) -> bool {
        keys_distinct(self.entries())
    }

    /// The links of node `i` agree with those of its neighbours, and its key
    /// and the bounds of its neighbours are in search-tree order.
    pub open spec fn shape_at(&self, i: usize) -> bool {
        let n = self.nd(i);
        let len = self.nodes@.len();
        &&& -1 <= self.lo@[i as int] < n.key < self.hi@[i as int] <= key_limit()
        &&& match n.parent {
            None => self.root == Some(i),
            Some(p) => p < len && {
                ||| (self.nd(p).left_child == Some(i) && self.lo@[i as int] == self.lo@[p as int]
                    && self.hi@[i as int] == self.nd(p).key)
                ||| (self.nd(p).right_child == Some(i) && self.lo@[i as int] == self.nd(p).key
                    && self.hi@[i as int] == self.hi@[p as int])
            },
        }
        &&& match n.left_child {
            None => true,
            Some(c) => c < len && self.nd(c).parent == Some(i) && self.lo@[c as int]
                == self.lo@[i as int] && self.hi@[c as int] == n.key,
        }
        &&& match n.right_child {
            None => true,
            Some(c) => c < len && self.nd(c).parent == Some(i) && self.lo@[c as int] == n.key
                && self.hi@[c as int] == self.hi@[i as int],
        }
    }

    /// The nodes form one search tree under `root`: every node but the root
    /// hangs in a slot of its parent, and keys are ordered across each node.
    pub open spec fn shape(&self) -> bool {
        let len = self.nodes@.len();
        &&& len <= usize::MAX
        &&& self.lo@.len() == len
        &&& self.hi@.len() == len
        &&& self.bh@.len() == len
        &&& match self.root {
            None => len == 0,
            Some(r) => r < len && self.nd(r).parent is None && self.lo@[r as int] == -1
                && self.hi@[r as int] == key_limit(),
        }
        &&& forall|i: usize| i < len ==> #[trigger] self.shape_at(i)
    }

    /// The black height below a slot: that of the node in it, or zero.
    pub open spec fn slot_bh(&self, c: Option<usize>) -> nat {
        match c {
            None => 0,
            Some(j) => self.bh@[j as int],
        }
    }

    /// Both sides of node `i` have the same black height, and `bh[i]` counts
    /// the node itself on top of it.
    pub open spec fn bh_at(&self, i: usize) -> bool {
        let n = self.nd(i);
        &&& self.slot_bh(n.left_child) == self.slot_bh(n.right_child)
        &&& self.bh@[i as int] == self.slot_bh(n.left_child) + if n.color == Color::Black {
            1nat
        } else {
            0nat
        }
    }

    /// Node `i` is not a red child of a red parent.
    pub open spec fn rr_at(&self, i: usize) -> bool {
        let n = self.nd(i);
        n.color == Color::Red ==> match n.parent {
            None => true,
            Some(p) => self.nd(p).color == Color::Black,
        }
    }

    /// Every node is balanced in black height.
    pub open spec fn black_balanced(&self) -> bool {
        forall|i: usize| i < self.nodes@.len() ==> #[trigger] self.bh_at(i)
    }

    /// The root, if there is one, is black.
    pub open spec fn root_black(&self) -> bool {
        match self.root {
            None => true,
            Some(r) => self.nd(r).color == Color::Black,
        }
    }

    /// An empty slot counts as black.
    pub open spec fn slot_black(&self, c: Option<usize>) -> bool {
        match c {
            None => true,
            Some(u) => self.nd(u).color == Color::Black,
        }
    }

    /// The colours are those of a red-black tree over a search tree: a black
    /// root, no red node under a red node, and one black height.
    pub open spec fn colored(&self) -> bool {
        &&& self.shape()
        &&& self.black_balanced()
        &&& self.root_black()
        &&& forall|i: usize| i < self.nodes@.len() ==> #[trigger] self.rr_at(i)
    }

    /// The tree is a red-black tree with distinct keys.
    pub open spec fn wf(&self) -> bool {
        &&& self.colored()
        &&& self.distinct_keys()
    }

    /// How far the bounds of node `i` are from spanning every key: the
    /// measure that grows smaller on each step towards the root.
    pub open spec fn slack(&self, i: usize) -> int {
        key_limit() + 1 - (self.hi@[i as int] - self.lo@[i as int])
    }

    /// Node `j` lies in the subtree whose top is node `i`.
    pub open spec fn under(&self, j: usize, i: usize) -> bool
        decreases self.slack(j),
        when self.shape() && j < self.nodes@.len()
    {
        j == i || match self.nd(j).parent {
            None => false,
            Some(p) => {
                proof {
                    assert(self.shape_at(j));
                    assert(self.shape_at(p));
                }
                self.under(p, i)
            },
        }
    }

    /// The side of node `i` on which key `k` belongs.
    pub open spec fn side_of(&self, i: usize, k: u64) -> Direction {
        if k < self.nd(i).key {
            Direction::Left
        } else {
            Direction::Right
        }
    }

    /// Where the search for `k` from node `start` ends: at the node that
    /// carries `k`, or at the node whose slot on the side of `k` is empty.
    pub open spec fn search(&self, start: usize, k: u64) -> usize
        decreases self.hi@[start as int] - self.lo@[start as int],
        when self.shape() && start < self.nodes@.len()
    {
        if k == self.nd(start).key {
            start
        } else {
            match self.nd(start).spec_child(self.side_of(start, k)) {
                None => start,
                Some(c) => {
                    proof {
                        assert(self.shape_at(start));
                        assert(self.shape_at(c));
                    }
                    self.search(c, k)
                },
            }
        }
    }

    /// Node `i` as a rotation of the subtree under `x` towards `d` leaves it.
    /// With `s` the child of `x` opposite to `d`: `x` takes over the child of
    /// `s` on side `d` and becomes that child itself, and `s` moves into the
    /// slot of `x`. A node that is none of these stays as it is.
    pub open spec fn rotated_node(&self, x: usize, d: Direction, i: usize) -> Node {
        rotated_in(self.nodes@, x, d, i)
    }

    /// The root after that rotation: `s` where `x` was the root.
    pub open spec fn rotated_root(&self, x: usize, d: Direction) -> Option<usize> {
        rotated_top(self.nodes@, self.root, x, d)
    }

    /// The nodes once a red node for the new key `key` hangs in the empty
    /// slot at which the search for `key` from the root ends.
    pub open spec fn attached(&self, key: u64, value: String) -> Seq<Node> {
        let at = self.search(self.root.unwrap(), key);
        self.nodes@.push(
            Node {
                color: Color::Red,
                left_child: None,
                right_child: None,
                parent: Some(at),
                key,
                value,
            },
        ).update(
            at as int,
            self.nd(at).with_child(Some(self.nodes@.len() as usize), self.side_of(at, key)),
        )
    }

    /// The empty tree.
    pub fn new() -> (t: RbTree)
        ensures
            t.wf(),
            t@ == Map::<u64, Seq<char>>::empty(),
            t.nodes@.len() == 0,
            t.root is None,
    {
        let t = RbTree {
            nodes: Vec::new(),
            root: None,
            lo: Ghost(Seq::empty()),
            hi: Ghost(Seq::empty()),
            bh: Ghost(Seq::empty()),
        };
        assert(t@ =~= Map::<u64, Seq<char>>::empty());
        t
    }

    /// Finds where `new_node_key` belongs below `start_node`: the node that
    /// already carries the key, or else the node under which it is to hang.
    pub fn find_new_node_parent(&self, start_node: usize, new_node_key: u64) -> (found: usize)
        requires
            self.shape(),
            start_node < self.nodes@.len(),
        ensures
            found == self.search(start_node, new_node_key),
            found < self.nodes@.len(),
            self.lo@[start_node as int] < new_node_key < self.hi@[start_node as int] ==> {
                &&& self.under(found, start_node)
                &&& self.nd(found).key != new_node_key ==> {
                    &&& self.nd(found).spec_child(self.side_of(found, new_node_key)) is None
                    &&& forall|j: usize|
                        j < self.nodes@.len() && #[trigger] self.under(j, start_node) ==> self.nd(
                            j,
                        ).key != new_node_key
                }
            },
        decreases self.hi@[start_node as int] - self.lo@[start_node as int],
    {
        proof {
            assert(self.shape_at(start_node));
            if self.lo@[start_node as int] < new_node_key < self.hi@[start_node as int] {
                self.lemma_search(start_node, new_node_key);
            }
        }
        let here: u64 = self.nodes[start_node].key;
        if new_node_key == here {
            start_node
        } else if new_node_key < here {
            match self.nodes[start_node].child(Direction::Left) {
                Some(left_child) => {
                    proof {
                        assert(self.shape_at(left_child));
                    }
                    self.find_new_node_parent(left_child, new_node_key)
                },
                None => start_node,
            }
        } else {
            match self.nodes[start_node].child(Direction::Right) {
                Some(right_child) => {
                    proof {
                        assert(self.shape_at(right_child));
                    }
                    self.find_new_node_parent(right_child, new_node_key)
                },
                None => start_node,
            }
        }
    }

    /// Hangs node `new_node` under node `parent_node`, on the side that its
    /// key asks for. The two keys must differ and that slot must be empty.
    /// Only the one link of the parent changes.
    pub fn add_child_to_node(&mut self, parent_node: usize, new_node: usize)
        requires
            parent_node < old(self).nodes@.len(),
            new_node < old(self).nodes@.len(),
            old(self).nd(new_node).key != old(self).nd(parent_node).key,
            old(self).nd(parent_node).spec_child(
                old(self).side_of(parent_node, old(self).nd(new_node).key),
            ) is None,
        ensures
            final(self).nodes@ == old(self).nodes@.update(
                parent_node as int,
                old(self).nd(parent_node).with_child(
                    Some(new_node),
                    old(self).side_of(parent_node, old(self).nd(new_node).key),
                ),
            ),
            final(self).root == old(self).root,
            final(self).lo == old(self).lo,
            final(self).hi == old(self).hi,
            final(self).bh == old(self).bh,
    {
        if self.nodes[new_node].key < self.nodes[parent_node].key {
            self.nodes[parent_node].set_child(Some(new_node), Direction::Left);
        } else {
            self.nodes[parent_node].set_child(Some(new_node), Direction::Right);
        }
    }

    /// Rotates the subtree under `subtree_root` towards `direction`. The
    /// child on the other side must exist: it becomes the subtree's new top.
    /// Keys, values and colours stay, and so does the search-tree order.
    pub fn rotate_dir_root(&mut self, subtree_root: usize, direction: Direction)
        requires
            old(self).shape(),
            subtree_root < old(self).nodes@.len(),
            old(self).nd(subtree_root).spec_child(direction.spec_inverse()) is Some,
        ensures
            final(self).shape(),
            final(self).nodes@.len() == old(self).nodes@.len(),
            forall|i: usize|
                i < old(self).nodes@.len() ==> #[trigger] final(self).nd(i) == old(
                    self,
                ).rotated_node(subtree_root, direction, i),
            final(self).nodes@ == rotated(old(self).nodes@, subtree_root, direction),
            final(self).root == old(self).rotated_root(subtree_root, direction),
            final(self).bh == old(self).bh,
            final(self).entries() == old(self).entries(),
    {
        let ghost pre = *self;
        let grand_parent = self.nodes[subtree_root].parent();
        let s: usize = self.nodes[subtree_root].child(direction.inverse()).unwrap();
        proof {
            assert(pre.shape_at(subtree_root));
            assert(pre.shape_at(s));
        }
        let c = self.nodes[s].child(direction);
        self.nodes[subtree_root].set_child(c, direction.inverse());
        if let Some(c) = c {
            assert(pre.shape_at(c));
            self.nodes[c].set_parent(Some(subtree_root));
        }
        self.nodes[s].set_child(Some(subtree_root), direction);
        self.nodes[subtree_root].set_parent(Some(s));
        self.nodes[s].set_parent(grand_parent);

        if let Some(grand_parent) = grand_parent {
            assert(pre.shape_at(grand_parent));
            let right = self.nodes[grand_parent].child(Direction::Right);
            let dir = if right.is_some() && self.nodes[subtree_root].key
                == self.nodes[right.unwrap()].key {
                Direction::Right
            } else {
                Direction::Left
            };
            proof {
                if right is Some {
                    assert(pre.shape_at(right.unwrap()));
                }
            }
            self.nodes[grand_parent].set_child(Some(s), dir);
        } else {
            self.root = Some(s);
        }
        proof {
            assert forall|i: usize| i < pre.nodes@.len() implies #[trigger] self.nd(i)
                == pre.rotated_node(subtree_root, direction, i) by {
                assert(pre.shape_at(i));
            }
        }
        self.lo = Ghost(pre.rotated_lo(subtree_root, direction));
        self.hi = Ghost(pre.rotated_hi(subtree_root, direction));
        proof {
            pre.lemma_rotation_keeps_shape(*self, subtree_root, direction);
            assert(self.nodes@ =~= rotated(pre.nodes@, subtree_root, direction)) by {
                assert forall|i: int| 0 <= i < pre.nodes@.len() implies self.nodes@[i] == rotated(
                    pre.nodes@,
                    subtree_root,
                    direction,
                )[i] by {
                    assert(self.nd(i as usize) == pre.rotated_node(
                        subtree_root,
                        direction,
                        i as usize,
                    ));
                }
            }
        }
    }

    /// Puts `value` under `key`. A key that the tree already holds keeps its
    /// node and takes the new value; a new key gets a node of its own, after
    /// which the colours are repaired.
    pub fn insert(&mut self, key: u64, value: String)
        requires
            old(self).wf(),
        ensures
            final(self).wf(),
            final(self)@ == old(self)@.insert(key, value@),
            final(self).root is Some,
            final(self).nd(final(self).root.unwrap()).color == Color::Black,
            final(self).nodes@.len() == if old(self)@.contains_key(key) {
                old(self).nodes@.len()
            } else {
                old(self).nodes@.len() + 1
            },
            old(self)@.contains_key(key) ==> final(self).root == old(self).root && forall|i: usize|
                i < old(self).nodes@.len() ==> #[trigger] final(self).nd(i) == (if old(self).nd(
                    i,
                ).key == key {
                    Node { value, ..old(self).nd(i) }
                } else {
                    old(self).nd(i)
                }),
            !old(self)@.contains_key(key) ==> final(self).entries() == old(self).entries().push(
                (key, value@),
            ),
            !old(self)@.contains_key(key) && old(self).root is None ==> final(self).root == Some(
                0usize,
            ) && final(self).nodes@ == Seq::<Node>::empty().push(
                Node {
                    color: Color::Black,
                    left_child: None,
                    right_child: None,
                    parent: None,
                    key,
                    value,
                },
            ),
            !old(self)@.contains_key(key) && old(self).root is Some ==> exists|fuel: nat| #[trigger]
                repaired(
                    old(self).attached(key, value),
                    old(self).root,
                    old(self).nodes@.len() as usize,
                    fuel,
                ) == Some((final(self).nodes@, final(self).root)),
    {
        let ghost pre = *self;
        let ghost e = pre.entries();
        match self.root {
            Some(root) => {
                let parent = self.find_new_node_parent(root, key);
                proof {
                    pre.lemma_search(root, key);
                    assert(pre.shape_at(parent));
                    assert(e[parent as int].0 == pre.nd(parent).key);
                    if pre.nd(parent).key != key {
                        assert forall|i: int| 0 <= i < e.len() implies (#[trigger] e[i]).0
                            != key by {
                            pre.lemma_under_root(i as usize);
                        }
                        lemma_entries_push(e, key, value@);
                        assert(!pre@.contains_key(key));
                    } else {
                        lemma_entries_update(e, parent as int, value@);
                        assert(pre@.contains_key(key));
                    }
                }
                if self.nodes[parent].key == key {
                    self.nodes[parent].value = value;
                    proof {
                        assert(self.entries() =~= e.update(parent as int, (key, value@)));
                        assert forall|i: usize| i < self.nodes@.len() implies #[trigger] self.shape_at(
                            i,
                        ) by {
                            assert(pre.shape_at(i));
                        }
                        assert forall|i: usize| i < self.nodes@.len() implies #[trigger] self.bh_at(
                            i,
                        ) by {
                            assert(pre.bh_at(i));
                        }
                        assert forall|i: usize| i < self.nodes@.len() implies #[trigger] self.rr_at(
                            i,
                        ) by {
                            assert(pre.rr_at(i));
                            assert(pre.shape_at(i));
                        }
                        assert forall|i: usize|
                            i < pre.nodes@.len() && pre.nd(i).key == key implies i == parent by {
                            assert(e[i as int].0 == key);
                            if i < parent {
                                assert(e[i as int].0 != e[parent as int].0);
                            }
                            if parent < i {
                                assert(e[parent as int].0 != e[i as int].0);
                            }
                        }
                    }
                    return ;
                }
                let new_node: usize = self.nodes.len();
                self.nodes.push(Node::new(key, value, Color::Red, Some(parent)));
                let ghost side = pre.side_of(parent, key);
                self.lo = Ghost(
                    pre.lo@.push(
                        match side {
                            Direction::Left => pre.lo@[parent as int],
                            Direction::Right => pre.nd(parent).key as int,
                        },
                    ),
                );
                self.hi = Ghost(
                    pre.hi@.push(
                        match side {
                            Direction::Left => pre.nd(parent).key as int,
                            Direction::Right => pre.hi@[parent as int],
                        },
                    ),
                );
                self.bh = Ghost(pre.bh@.push(0nat));
                self.add_child_to_node(parent, new_node);
                proof {
                    assert(self.nodes.len() == self.nodes@.len());
                    assert(self.entries() =~= e.push((key, value@)));
                    assert(pre.bh_at(parent));
                    assert forall|i: usize| i < self.nodes@.len() implies #[trigger] self.shape_at(
                        i,
                    ) by {
                        if i < new_node {
                            assert(pre.shape_at(i));
                        }
                    }
                    assert forall|i: usize| i < self.nodes@.len() implies #[trigger] self.bh_at(
                        i,
                    ) by {
                        if i < new_node {
                            assert(pre.bh_at(i));
                            assert(pre.shape_at(i));
                        }
                    }
                    assert forall|i: usize|
                        i < self.nodes@.len() && i != new_node implies #[trigger] self.rr_at(i) by {
                        assert(pre.rr_at(i));
                        assert(pre.shape_at(i));
                    }
                    assert(self.nodes@ =~= pre.attached(key, value));
                }
                self.rebalance(new_node, parent);
            },
            None => {
                // The tree is empty: the new node is the root, and black.
                self.nodes.push(Node::new(key, value, Color::Black, None));
                self.root = Some(0);
                self.lo = Ghost(Seq::<int>::empty().push(-1));
                self.hi = Ghost(Seq::<int>::empty().push(key_limit()));
                self.bh = Ghost(Seq::<nat>::empty().push(1));
                proof {
                    lemma_entries_push(e, key, value@);
                    assert(self.entries() =~= e.push((key, value@)));
                    assert(!pre@.contains_key(key));
                    assert(pre.nodes@ =~= Seq::<Node>::empty());
                }
            },
        }
    }
}

} // verus!
