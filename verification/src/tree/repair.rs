//! The repair of the colours after a red node was hung into the tree.

use crate::tree::node::{Color, Direction, Node};
use crate::tree::rb_tree::RbTree;
use crate::tree::steps::{lifted, painted, recolored, repaired, rotated, rotated_top};
use vstd::prelude::*;

verus! {

impl RbTree {
    /// The state that the repair after an insertion works on: a red-black
    /// tree but for the red node `n`, whose parent may be red too.
    pub open spec fn repairable(&self, n: usize) -> bool {
        &&& self.shape()
        &&& self.black_balanced()
        &&& self.root_black()
        &&& n < self.nodes@.len()
        &&& self.nd(n).color == Color::Red
        &&& forall|i: usize| i < self.nodes@.len() && i != n ==> #[trigger] self.rr_at(i)
    }

    /// Node `i` after the last repair step: the rotation under `g` away from
    /// `p_dir`, then `p` black and `g` red.
    pub open spec fn lifted_node(&self, p: usize, g: usize, p_dir: Direction, i: usize) -> Node {
        let n = self.rotated_node(g, p_dir.spec_inverse(), i);
        if i == p {
            n.with_color(Color::Black)
        } else if i == g {
            n.with_color(Color::Red)
        } else {
            n
        }
    }

    /// Colours the root black, which raises every black height by one where
    /// the root was red. Nothing else changes.
    pub fn blacken_root(&mut self, r: usize)
        requires
            old(self).shape(),
            old(self).black_balanced(),
            old(self).root == Some(r),
            forall|i: usize| i < old(self).nodes@.len() && i != r ==> #[trigger] old(self).rr_at(i),
        ensures
            final(self).colored(),
            final(self).nodes@ == painted(old(self).nodes@, r, Color::Black),
            final(self).root == old(self).root,
            final(self).entries() == old(self).entries(),
    {
        let ghost pre = *self;
        if self.nodes[r].is_red() {
            self.nodes[r].set_color(Color::Black);
            self.bh = Ghost(pre.bh@.update(r as int, pre.bh@[r as int] + 1));
        }
        proof {
            assert(pre.shape_at(r));
            assert forall|i: usize| i < self.nodes@.len() implies #[trigger] self.shape_at(i) by {
                assert(pre.shape_at(i));
            }
            assert forall|i: usize| i < self.nodes@.len() implies #[trigger] self.bh_at(i) by {
                assert(pre.bh_at(i));
                assert(pre.shape_at(i));
            }
            assert forall|i: usize| i < self.nodes@.len() implies #[trigger] self.rr_at(i) by {
                assert(pre.shape_at(i));
                if i != r {
                    assert(pre.rr_at(i));
                }
            }
            assert(self.entries() =~= pre.entries());
            assert(self.nodes@ =~= pre.nodes@.update(r as int, pre.nd(r).with_color(Color::Black)));
        }
    }

    /// The repair where parent `p` and uncle `u` of the red node `n` are both
    /// red: they turn black and the grandparent `g` red, so that `g` is the
    /// one node that may now hang red under a red parent.
    pub fn recolor(&mut self, n: usize, p: usize, u: usize, g: usize)
        requires
            old(self).repairable(n),
            old(self).nd(n).parent == Some(p),
            old(self).nd(p).color == Color::Red,
            old(self).nd(p).parent == Some(g),
            u < old(self).nodes@.len(),
            u != p,
            old(self).nd(u).parent == Some(g),
            old(self).nd(u).color == Color::Red,
        ensures
            final(self).nodes@ == recolored(old(self).nodes@, p, u, g),
            final(self).shape(),
            final(self).black_balanced(),
            final(self).entries() == old(self).entries(),
            final(self).nodes@.len() == old(self).nodes@.len(),
            final(self).lo == old(self).lo,
            final(self).hi == old(self).hi,
            final(self).root == old(self).root,
            forall|i: usize|
                i < old(self).nodes@.len() ==> (#[trigger] final(self).nd(i)).parent == old(
                    self,
                ).nd(i).parent,
            g < final(self).nodes@.len(),
            final(self).nd(g).color == Color::Red,
            forall|i: usize|
                i < final(self).nodes@.len() && i != g ==> #[trigger] final(self).rr_at(i),
            final(self).root != Some(g) ==> final(self).root_black(),
    {
        let ghost pre = *self;
        proof {
            assert(pre.shape_at(n));
            assert(pre.shape_at(p));
            assert(pre.shape_at(u));
            assert(pre.shape_at(g));
            assert(pre.rr_at(p));
            assert(pre.bh_at(g));
            assert(pre.bh_at(p));
            assert(pre.bh_at(u));
        }
        self.nodes[p].set_color(Color::Black);
        self.nodes[u].set_color(Color::Black);
        self.nodes[g].set_color(Color::Red);
        self.bh = Ghost(
            pre.bh@.update(p as int, pre.bh@[p as int] + 1).update(u as int, pre.bh@[u as int] + 1),
        );
        proof {
            assert forall|i: usize| i < self.nodes@.len() implies #[trigger] self.shape_at(i) by {
                assert(pre.shape_at(i));
            }
            assert forall|i: usize| i < self.nodes@.len() implies #[trigger] self.bh_at(i) by {
                assert(pre.bh_at(i));
                assert(pre.shape_at(i));
                if pre.nd(i).left_child is Some {
                    assert(pre.shape_at(pre.nd(i).left_child.unwrap()));
                }
                if pre.nd(i).right_child is Some {
                    assert(pre.shape_at(pre.nd(i).right_child.unwrap()));
                }
            }
            assert forall|i: usize| i < self.nodes@.len() && i != g implies #[trigger] self.rr_at(
                i,
            ) by {
                assert(pre.shape_at(i));
                if i != n {
                    assert(pre.rr_at(i));
                }
            }
            assert(self.entries() =~= pre.entries());
        }
    }

    /// The repair for an inner grandchild: `n` hangs under its red parent `p`
    /// on the side away from `p_dir`, the side of the grandparent `g` on
    /// which `p` hangs. A rotation under `p` makes `p` the outer grandchild,
    /// under `n`.
    pub fn straighten(&mut self, n: usize, p: usize, g: usize, p_dir: Direction)
        requires
            old(self).repairable(n),
            old(self).nd(n).parent == Some(p),
            old(self).nd(p).parent == Some(g),
            old(self).nd(p).color == Color::Red,
            old(self).nd(g).spec_child(p_dir) == Some(p),
            old(self).nd(p).spec_child(p_dir.spec_inverse()) == Some(n),
            old(self).slot_black(old(self).nd(g).spec_child(p_dir.spec_inverse())),
        ensures
            final(self).nodes@ == rotated(old(self).nodes@, p, p_dir),
            final(self).root == rotated_top(old(self).nodes@, old(self).root, p, p_dir),
            final(self).repairable(p),
            final(self).nd(p).parent == Some(n),
            final(self).nd(n).parent == Some(g),
            final(self).nd(n).color == Color::Red,
            final(self).nd(g).spec_child(p_dir) == Some(n),
            final(self).nd(n).spec_child(p_dir) == Some(p),
            final(self).slot_black(final(self).nd(g).spec_child(p_dir.spec_inverse())),
            final(self).entries() == old(self).entries(),
            final(self).nodes@.len() == old(self).nodes@.len(),
    {
        let ghost pre = *self;
        proof {
            assert(pre.shape_at(n));
        }
        self.rotate_dir_root(p, p_dir);
        proof {
            pre.lemma_straightened(*self, n, p, g, p_dir);
            assert(self.nodes@ =~= rotated(pre.nodes@, p, p_dir)) by {
                assert forall|i: int| 0 <= i < pre.nodes@.len() implies self.nodes@[i] == rotated(
                    pre.nodes@,
                    p,
                    p_dir,
                )[i] by {
                    assert(self.nd(i as usize) == pre.rotated_node(p, p_dir, i as usize));
                }
            }
        }
    }

    /// What `straighten` leaves, from what the rotation under `p` does.
    #[verifier::rlimit(50)]
    #[verifier::spinoff_prover]
    proof fn lemma_straightened(self, post: RbTree, n: usize, p: usize, g: usize, p_dir: Direction)
        requires
            self.repairable(n),
            self.nd(n).parent == Some(p),
            self.nd(p).parent == Some(g),
            self.nd(p).color == Color::Red,
            self.nd(g).spec_child(p_dir) == Some(p),
            self.nd(p).spec_child(p_dir.spec_inverse()) == Some(n),
            self.slot_black(self.nd(g).spec_child(p_dir.spec_inverse())),
            post.shape(),
            post.nodes@.len() == self.nodes@.len(),
            forall|i: usize|
                i < self.nodes@.len() ==> #[trigger] post.nd(i) == self.rotated_node(p, p_dir, i),
            post.root == self.rotated_root(p, p_dir),
            post.bh == self.bh,
        ensures
            post.repairable(p),
            post.nd(p).parent == Some(n),
            post.nd(n).parent == Some(g),
            post.nd(n).color == Color::Red,
            post.nd(g).spec_child(p_dir) == Some(n),
            post.nd(n).spec_child(p_dir) == Some(p),
            post.slot_black(post.nd(g).spec_child(p_dir.spec_inverse())),
    {
        let c = self.nd(n).spec_child(p_dir);
        let u = self.nd(g).spec_child(p_dir.spec_inverse());
        assert(self.shape_at(n));
        assert(self.shape_at(p));
        assert(self.shape_at(g));
        assert(self.bh_at(n));
        assert(self.bh_at(p));
        assert(self.bh_at(g));
        assert(self.rr_at(p));
        assert(post.nd(n) == self.rotated_node(p, p_dir, n));
        assert(post.nd(p) == self.rotated_node(p, p_dir, p));
        assert(post.nd(g) == self.rotated_node(p, p_dir, g));
        if c is Some {
            assert(self.shape_at(c.unwrap()));
            assert(self.rr_at(c.unwrap()));
            assert(post.nd(c.unwrap()) == self.rotated_node(p, p_dir, c.unwrap()));
        }
        if u is Some {
            assert(self.shape_at(u.unwrap()));
            assert(post.nd(u.unwrap()) == self.rotated_node(p, p_dir, u.unwrap()));
        }
        match self.root {
            Some(r) => {
                assert(self.shape_at(r));
                assert(post.nd(r) == self.rotated_node(p, p_dir, r));
            },
            None => {},
        }
        assert forall|i: usize| i < post.nodes@.len() implies #[trigger] post.bh_at(i) by {
            assert(self.bh_at(i));
            assert(self.shape_at(i));
            assert(post.nd(i) == self.rotated_node(p, p_dir, i));
        }
        assert forall|i: usize| i < post.nodes@.len() && i != p implies #[trigger] post.rr_at(
            i,
        ) by {
            assert(self.shape_at(i));
            assert(post.nd(i) == self.rotated_node(p, p_dir, i));
            if i != n {
                assert(self.rr_at(i));
                let q = self.nd(i).parent;
                if q is Some {
                    assert(post.nd(q.unwrap()) == self.rotated_node(p, p_dir, q.unwrap()));
                }
            }
        }
    }

    /// The repair for an outer grandchild: `n` hangs under its red parent `p`
    /// on the side `p_dir`, on which `p` hangs under the grandparent `g`. A
    /// rotation under `g` away from that side lifts `p` into the place of
    /// `g`; `p` turns black and `g` red.
    pub fn lift(&mut self, n: usize, p: usize, g: usize, p_dir: Direction)
        requires
            old(self).repairable(n),
            old(self).nd(n).parent == Some(p),
            old(self).nd(p).parent == Some(g),
            old(self).nd(p).color == Color::Red,
            old(self).nd(g).spec_child(p_dir) == Some(p),
            old(self).nd(p).spec_child(p_dir) == Some(n),
            old(self).slot_black(old(self).nd(g).spec_child(p_dir.spec_inverse())),
        ensures
            final(self).nodes@ == lifted(old(self).nodes@, p, g, p_dir),
            final(self).root == rotated_top(
                old(self).nodes@,
                old(self).root,
                g,
                p_dir.spec_inverse(),
            ),
            final(self).colored(),
            final(self).entries() == old(self).entries(),
            final(self).nodes@.len() == old(self).nodes@.len(),
    {
        let ghost pre = *self;
        proof {
            assert(pre.shape_at(n));
            assert(pre.shape_at(p));
            assert(pre.shape_at(g));
            assert(pre.rr_at(p));
            assert(pre.bh_at(g));
        }
        self.rotate_dir_root(g, p_dir.inverse());
        let ghost mid = *self;
        self.nodes[p].set_color(Color::Black);
        self.nodes[g].set_color(Color::Red);
        self.bh = Ghost(
            pre.bh@.update(p as int, pre.bh@[p as int] + 1).update(
                g as int,
                (pre.bh@[g as int] - 1) as nat,
            ),
        );
        proof {
            assert forall|i: usize| i < self.nodes@.len() implies #[trigger] self.shape_at(i) by {
                assert(mid.shape_at(i));
            }
            assert(self.entries() =~= mid.entries());
            assert forall|i: usize| i < pre.nodes@.len() implies #[trigger] self.nd(i)
                == pre.lifted_node(p, g, p_dir, i) by {
                assert(mid.nd(i) == pre.rotated_node(g, p_dir.spec_inverse(), i));
            }
            pre.lemma_lifted(*self, n, p, g, p_dir);
            assert(self.nodes@ =~= lifted(pre.nodes@, p, g, p_dir)) by {
                assert forall|i: int| 0 <= i < pre.nodes@.len() implies self.nodes@[i] == lifted(
                    pre.nodes@,
                    p,
                    g,
                    p_dir,
                )[i] by {
                    assert(self.nd(i as usize) == pre.lifted_node(p, g, p_dir, i as usize));
                }
            }
        }
    }

    /// What `lift` leaves, from what the rotation under `g` and the two new
    /// colours do.
    #[verifier::rlimit(50)]
    #[verifier::spinoff_prover]
    proof fn lemma_lifted(self, post: RbTree, n: usize, p: usize, g: usize, p_dir: Direction)
        requires
            self.repairable(n),
            self.nd(n).parent == Some(p),
            self.nd(p).parent == Some(g),
            self.nd(p).color == Color::Red,
            self.nd(g).spec_child(p_dir) == Some(p),
            self.nd(p).spec_child(p_dir) == Some(n),
            self.slot_black(self.nd(g).spec_child(p_dir.spec_inverse())),
            post.shape(),
            post.nodes@.len() == self.nodes@.len(),
            forall|i: usize|
                i < self.nodes@.len() ==> #[trigger] post.nd(i) == self.lifted_node(p, g, p_dir, i),
            post.root == self.rotated_root(g, p_dir.spec_inverse()),
            post.bh@ == self.bh@.update(p as int, self.bh@[p as int] + 1).update(
                g as int,
                (self.bh@[g as int] - 1) as nat,
            ),
        ensures
            post.colored(),
    {
        let d = p_dir.spec_inverse();
        let c = self.nd(p).spec_child(d);
        let u = self.nd(g).spec_child(d);
        let gg = self.nd(g).parent;
        assert(self.shape_at(n));
        assert(self.shape_at(p));
        assert(self.shape_at(g));
        assert(self.bh_at(n));
        assert(self.bh_at(p));
        assert(self.bh_at(g));
        assert(self.rr_at(p));
        assert(post.nd(n) == self.lifted_node(p, g, p_dir, n));
        assert(post.nd(p) == self.lifted_node(p, g, p_dir, p));
        assert(post.nd(g) == self.lifted_node(p, g, p_dir, g));
        if c is Some {
            assert(self.shape_at(c.unwrap()));
            assert(self.rr_at(c.unwrap()));
            assert(post.nd(c.unwrap()) == self.lifted_node(p, g, p_dir, c.unwrap()));
        }
        if u is Some {
            assert(self.shape_at(u.unwrap()));
            assert(post.nd(u.unwrap()) == self.lifted_node(p, g, p_dir, u.unwrap()));
        }
        if gg is Some {
            assert(self.shape_at(gg.unwrap()));
            assert(self.bh_at(gg.unwrap()));
            assert(post.nd(gg.unwrap()) == self.lifted_node(p, g, p_dir, gg.unwrap()));
        }
        match self.root {
            Some(r) => {
                assert(self.shape_at(r));
                assert(post.nd(r) == self.lifted_node(p, g, p_dir, r));
            },
            None => {},
        }
        assert forall|i: usize| i < post.nodes@.len() implies #[trigger] post.bh_at(i) by {
            assert(self.bh_at(i));
            assert(self.shape_at(i));
            assert(post.nd(i) == self.lifted_node(p, g, p_dir, i));
        }
        assert forall|i: usize| i < post.nodes@.len() implies #[trigger] post.rr_at(i) by {
            assert(self.shape_at(i));
            assert(post.nd(i) == self.lifted_node(p, g, p_dir, i));
            if i != n {
                assert(self.rr_at(i));
            }
            let q = self.nd(i).parent;
            if q is Some {
                assert(post.nd(q.unwrap()) == self.lifted_node(p, g, p_dir, q.unwrap()));
            }
        }
    }

    /// Restores the colours after the red node `new_node` was hung under
    /// `parent`: walks towards the root, two levels at a time while parent
    /// and uncle are both red, and ends with at most two rotations. What it
    /// leaves is what `repaired` gives, once that has rounds enough.
    pub fn rebalance(&mut self, new_node: usize, parent: usize)
        requires
            old(self).repairable(new_node),
            old(self).nd(new_node).parent == Some(parent),
        ensures
            final(self).colored(),
            final(self).entries() == old(self).entries(),
            final(self).nodes@.len() == old(self).nodes@.len(),
            exists|fuel: nat| #[trigger]
                repaired(old(self).nodes@, old(self).root, new_node, fuel) == Some(
                    (final(self).nodes@, final(self).root),
                ),
    {
        let ghost mut rounds: nat = 0;
        let mut n = new_node;
        let mut p = parent;
        loop
            invariant
                self.repairable(n),
                self.nd(n).parent == Some(p),
                self.entries() == old(self).entries(),
                self.nodes@.len() == old(self).nodes@.len(),
                forall|fuel: nat| #[trigger]
                    repaired(self.nodes@, self.root, n, fuel) is Some ==> repaired(
                        old(self).nodes@,
                        old(self).root,
                        new_node,
                        (fuel + rounds) as nat,
                    ) == repaired(self.nodes@, self.root, n, fuel),
            decreases self.slack(n),
        {
            let ghost cur = *self;
            let ghost was = n;
            proof {
                assert(self.shape_at(n));
                assert(self.shape_at(p));
            }
            if self.nodes[p].is_black() {
                // The parent is black: nothing is out of order.
                proof {
                    assert(self.rr_at(n));
                    assert(repaired(cur.nodes@, cur.root, was, 1) == Some(
                        (self.nodes@, self.root),
                    ));
                    assert(repaired(old(self).nodes@, old(self).root, new_node, (1 + rounds) as nat)
                        == Some((self.nodes@, self.root)));
                }
                return ;
            }
            let grand_parent: usize = match self.nodes[p].parent() {
                Some(grand_parent) => grand_parent,
                None => {
                    // The red parent is the root: it turns black.
                    self.blacken_root(p);
                    proof {
                        assert(repaired(cur.nodes@, cur.root, was, 1) == Some(
                            (self.nodes@, self.root),
                        ));
                        assert(repaired(
                            old(self).nodes@,
                            old(self).root,
                            new_node,
                            (1 + rounds) as nat,
                        ) == Some((self.nodes@, self.root)));
                    }
                    return ;
                },
            };
            proof {
                assert(self.shape_at(grand_parent));
                self.lemma_direction(p);
                self.lemma_direction(n);
            }
            let uncle = self.nodes[p].sibling(&self.nodes);
            let red_uncle: Option<usize> = match uncle {
                Some(u) => {
                    proof {
                        assert(self.shape_at(u));
                    }
                    if self.nodes[u].is_red() {
                        Some(u)
                    } else {
                        None
                    }
                },
                None => None,
            };
            let uncle: usize = match red_uncle {
                Some(uncle) => uncle,
                None => {
                    // The uncle is black, or absent and so counted black.
                    let p_dir = self.nodes[p].direction(&self.nodes);
                    let n_dir = self.nodes[n].direction(&self.nodes);
                    if p_dir != n_dir {
                        // An inner grandchild: make it an outer one first.
                        self.straighten(n, p, grand_parent, p_dir);
                        n = p;
                        p = self.nodes[grand_parent].child(p_dir).unwrap();
                    }
                    self.lift(n, p, grand_parent, p_dir);
                    proof {
                        assert(repaired(cur.nodes@, cur.root, was, 1) == Some(
                            (self.nodes@, self.root),
                        ));
                        assert(repaired(
                            old(self).nodes@,
                            old(self).root,
                            new_node,
                            (1 + rounds) as nat,
                        ) == Some((self.nodes@, self.root)));
                    }
                    return ;
                },
            };
            // Parent and uncle are red.
            self.recolor(n, p, uncle, grand_parent);
            // One black level higher, which is two levels of the tree.
            n = grand_parent;
            proof {
                assert(self.shape_at(n));
            }
            let ghost mid = *self;
            match self.nodes[n].parent() {
                Some(above) => {
                    p = above;
                    proof {
                        assert forall|fuel: nat| #[trigger]
                            repaired(self.nodes@, self.root, n, fuel) is Some implies repaired(
                            old(self).nodes@,
                            old(self).root,
                            new_node,
                            (fuel + (rounds + 1)) as nat,
                        ) == repaired(self.nodes@, self.root, n, fuel) by {
                            let more = (fuel + 1) as nat;
                            assert(repaired(cur.nodes@, cur.root, was, more) == repaired(
                                self.nodes@,
                                self.root,
                                n,
                                fuel,
                            ));
                            assert((more + rounds) as nat == (fuel + (rounds + 1)) as nat);
                        }
                        rounds = rounds + 1;
                    }
                },
                None => {
                    // The walk has reached the root and left it red.
                    self.blacken_root(n);
                    proof {
                        assert(repaired(cur.nodes@, cur.root, was, 1) == Some(
                            (self.nodes@, self.root),
                        ));
                        assert(repaired(
                            old(self).nodes@,
                            old(self).root,
                            new_node,
                            (1 + rounds) as nat,
                        ) == Some((self.nodes@, self.root)));
                    }
                    return ;
                },
            }
        }
    }
}

} // verus!
