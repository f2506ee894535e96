//! Subtrees, and where a search through them ends.

use crate::tree::rb_tree::RbTree;
use vstd::prelude::*;

verus! {

impl RbTree {
    /// The bounds of a node lie within those of every node above it.
    pub proof fn lemma_under_bounds(&self, j: usize, i: usize)
        requires
            self.shape(),
            j < self.nodes@.len(),
            self.under(j, i),
        ensures
            i < self.nodes@.len(),
            self.lo@[i as int] <= self.lo@[j as int],
            self.hi@[j as int] <= self.hi@[i as int],
        decreases self.slack(j),
    {
        assert(self.shape_at(j));
        if j != i {
            let p = self.nd(j).parent.unwrap();
            assert(self.shape_at(p));
            self.lemma_under_bounds(p, i);
        }
    }

    /// What lies under a child lies under its parent.
    pub proof fn lemma_under_step(&self, j: usize, c: usize, i: usize)
        requires
            self.shape(),
            j < self.nodes@.len(),
            c < self.nodes@.len(),
            self.under(j, c),
            self.nd(c).parent == Some(i),
        ensures
            self.under(j, i),
        decreases self.slack(j),
    {
        assert(self.shape_at(j));
        assert(self.shape_at(c));
        assert(self.under(i, i));
        if j != c {
            let p = self.nd(j).parent.unwrap();
            assert(self.shape_at(p));
            self.lemma_under_step(p, c, i);
        }
    }

    /// A node below node `i` lies in the subtree of one of its children.
    pub proof fn lemma_under_child(&self, j: usize, i: usize)
        requires
            self.shape(),
            j < self.nodes@.len(),
            self.under(j, i),
            j != i,
        ensures
            (self.nd(i).left_child is Some && self.under(j, self.nd(i).left_child.unwrap())) || (
            self.nd(i).right_child is Some && self.under(j, self.nd(i).right_child.unwrap())),
        decreases self.slack(j),
    {
        assert(self.shape_at(j));
        let p = self.nd(j).parent.unwrap();
        assert(self.shape_at(p));
        if p != i {
            self.lemma_under_child(p, i);
        }
    }

    /// Every node lies under the root.
    pub proof fn lemma_under_root(&self, j: usize)
        requires
            self.shape(),
            j < self.nodes@.len(),
        ensures
            self.root is Some,
            self.under(j, self.root.unwrap()),
        decreases self.slack(j),
    {
        assert(self.shape_at(j));
        if self.nd(j).parent is Some {
            let p = self.nd(j).parent.unwrap();
            assert(self.shape_at(p));
            self.lemma_under_root(p);
        }
    }

    /// The search from `start` ends below `start`, within bounds that admit
    /// `k` where those of `start` do, and it misses no node below `start`:
    /// where it ends at another key, the slot for `k` there is empty and no
    /// node below `start` carries `k`.
    pub proof fn lemma_search(&self, start: usize, k: u64)
        requires
            self.shape(),
            start < self.nodes@.len(),
            self.lo@[start as int] < k < self.hi@[start as int],
        ensures
            self.search(start, k) < self.nodes@.len(),
            self.under(self.search(start, k), start),
            self.lo@[self.search(start, k) as int] < k < self.hi@[self.search(start, k) as int],
            self.nd(self.search(start, k)).key != k ==> {
                &&& self.nd(self.search(start, k)).spec_child(
                    self.side_of(self.search(start, k), k),
                ) is None
                &&& forall|j: usize|
                    j < self.nodes@.len() && #[trigger] self.under(j, start) ==> self.nd(j).key
                        != k
            },
        decreases self.hi@[start as int] - self.lo@[start as int],
    {
        assert(self.shape_at(start));
        if k != self.nd(start).key {
            let side = self.side_of(start, k);
            let other = self.nd(start).spec_child(side.spec_inverse());
            match self.nd(start).spec_child(side) {
                None => {},
                Some(c) => {
                    assert(self.shape_at(c));
                    self.lemma_search(c, k);
                    self.lemma_under_step(self.search(c, k), c, start);
                },
            }
            if self.nd(self.search(start, k)).key != k {
                assert forall|j: usize|
                    j < self.nodes@.len() && #[trigger] self.under(j, start) implies self.nd(j).key
                    != k by {
                    if j != start {
                        self.lemma_under_child(j, start);
                        if other is Some && self.under(j, other.unwrap()) {
                            assert(self.shape_at(other.unwrap()));
                            assert(self.shape_at(j));
                            self.lemma_under_bounds(j, other.unwrap());
                        }
                    }
                }
            }
        }
    }

    /// In a search tree `direction` names the slot of the parent that holds
    /// the node, and `sibling` the parent's other slot.
    pub proof fn lemma_direction(&self, i: usize)
        requires
            self.shape(),
            i < self.nodes@.len(),
            self.nd(i).parent is Some,
        ensures
            self.nd(self.nd(i).parent.unwrap()).spec_child(self.nd(i).spec_direction(self.nodes@))
                == Some(i),
            self.nd(i).spec_sibling(self.nodes@) == self.nd(self.nd(i).parent.unwrap()).spec_child(
                self.nd(i).spec_direction(self.nodes@).spec_inverse(),
            ),
            self.nd(i).spec_sibling(self.nodes@) != Some(i),
    {
        let p = self.nd(i).parent.unwrap();
        assert(self.shape_at(i));
        assert(self.shape_at(p));
        if self.nd(p).left_child is Some {
            assert(self.shape_at(self.nd(p).left_child.unwrap()));
        }
        if self.nd(p).right_child is Some {
            assert(self.shape_at(self.nd(p).right_child.unwrap()));
        }
    }
}

} // verus!
