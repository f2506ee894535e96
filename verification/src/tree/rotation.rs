//! Why a rotation keeps the search-tree order.

use crate::tree::node::Direction;
use crate::tree::rb_tree::RbTree;
use vstd::prelude::*;

verus! {

impl RbTree {
    /// The lower bounds after that rotation.
    pub open spec fn rotated_lo(&self, x: usize, d: Direction) -> Seq<int> {
        let s = self.nd(x).spec_child(d.spec_inverse()).unwrap();
        match d {
            Direction::Left => self.lo@.update(s as int, self.lo@[x as int]),
            Direction::Right => self.lo@.update(s as int, self.lo@[x as int]).update(
                x as int,
                self.nd(s).key as int,
            ),
        }
    }

    /// The upper bounds after that rotation.
    pub open spec fn rotated_hi(&self, x: usize, d: Direction) -> Seq<int> {
        let s = self.nd(x).spec_child(d.spec_inverse()).unwrap();
        match d {
            Direction::Left => self.hi@.update(s as int, self.hi@[x as int]).update(
                x as int,
                self.nd(s).key as int,
            ),
            Direction::Right => self.hi@.update(s as int, self.hi@[x as int]),
        }
    }

    /// What a rotation is given and what it leaves: the nodes as
    /// `rotated_node` says, with the bounds moved along.
    pub open spec fn rotates_to(&self, post: RbTree, x: usize, d: Direction) -> bool {
        &&& self.shape()
        &&& x < self.nodes@.len()
        &&& self.nd(x).spec_child(d.spec_inverse()) is Some
        &&& post.nodes@.len() == self.nodes@.len()
        &&& forall|i: usize|
            i < self.nodes@.len() ==> #[trigger] post.nd(i) == self.rotated_node(x, d, i)
        &&& post.root == self.rotated_root(x, d)
        &&& post.lo@ == self.rotated_lo(x, d)
        &&& post.hi@ == self.rotated_hi(x, d)
        &&& post.bh@ == self.bh@
    }

    /// After a rotation the links and bounds of node `i` are in order.
    #[verifier::rlimit(50)]
    #[verifier::spinoff_prover]
    pub proof fn lemma_rotation_shape_at(self, post: RbTree, x: usize, d: Direction, i: usize)
        requires
            self.rotates_to(post, x, d),
            i < self.nodes@.len(),
        ensures
            post.shape_at(i),
    {
        let s = self.nd(x).spec_child(d.spec_inverse()).unwrap();
        let c = self.nd(s).spec_child(d);
        let g = self.nd(x).parent;
        assert(self.shape_at(x));
        assert(self.shape_at(s));
        assert(post.nd(x) == self.rotated_node(x, d, x));
        assert(post.nd(s) == self.rotated_node(x, d, s));
        if c is Some {
            assert(self.shape_at(c.unwrap()));
            assert(post.nd(c.unwrap()) == self.rotated_node(x, d, c.unwrap()));
        }
        if g is Some {
            assert(self.shape_at(g.unwrap()));
            assert(post.nd(g.unwrap()) == self.rotated_node(x, d, g.unwrap()));
        }
        assert(self.shape_at(i));
        assert(post.nd(i) == self.rotated_node(x, d, i));
        let n = self.nd(i);
        if n.parent is Some {
            let q = n.parent.unwrap();
            assert(self.shape_at(q));
            assert(post.nd(q) == self.rotated_node(x, d, q));
        }
        if n.left_child is Some {
            let q = n.left_child.unwrap();
            assert(self.shape_at(q));
            assert(post.nd(q) == self.rotated_node(x, d, q));
        }
        if n.right_child is Some {
            let q = n.right_child.unwrap();
            assert(self.shape_at(q));
            assert(post.nd(q) == self.rotated_node(x, d, q));
        }
    }

    /// A rotation keeps the search-tree shape, and every key with its value.
    pub proof fn lemma_rotation_keeps_shape(self, post: RbTree, x: usize, d: Direction)
        requires
            self.rotates_to(post, x, d),
        ensures
            post.shape(),
            post.entries() == self.entries(),
    {
        let s = self.nd(x).spec_child(d.spec_inverse()).unwrap();
        assert(self.shape_at(x));
        assert(self.shape_at(s));
        assert forall|i: usize| i < post.nodes@.len() implies #[trigger] post.shape_at(i) by {
            self.lemma_rotation_shape_at(post, x, d, i);
        }
        match self.root {
            Some(r) => {
                assert(self.shape_at(r));
                assert(post.nd(r) == self.rotated_node(x, d, r));
            },
            None => {},
        }
        assert forall|i: int| 0 <= i < self.nodes@.len() implies post.entries()[i]
            == self.entries()[i] by {
            assert(post.nd(i as usize) == self.rotated_node(x, d, i as usize));
        }
        assert(post.entries() =~= self.entries());
    }
}

} // verus!
