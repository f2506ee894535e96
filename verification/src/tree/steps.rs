//! The steps of an insertion as functions on the sequence of nodes: what
//! each step leaves, and what the whole repair leaves.

use crate::tree::node::{Color, Direction, Node};
use vstd::prelude::*;

verus! {

/// Node `i` as a rotation of the subtree under `x` towards `d` leaves it.
/// With `s` the child of `x` opposite to `d`: `x` takes over the child of `s`
/// on side `d` and becomes that child itself, and `s` moves into the slot of
/// `x`. A node that is none of these stays as it is.
pub open spec fn rotated_in(nodes: Seq<Node>, x: usize, d: Direction, i: usize) -> Node {
    let s = nodes[x as int].spec_child(d.spec_inverse()).unwrap();
    let c = nodes[s as int].spec_child(d);
    let g = nodes[x as int].parent;
    let n = nodes[i as int];
    if i == x {
        n.with_child(c, d.spec_inverse()).with_parent(Some(s))
    } else if i == s {
        n.with_child(Some(x), d).with_parent(g)
    } else if c == Some(i) {
        n.with_parent(Some(x))
    } else if g == Some(i) {
        n.with_child(
            Some(s),
            if n.right_child == Some(x) {
                Direction::Right
            } else {
                Direction::Left
            },
        )
    } else {
        n
    }
}

/// The root after that rotation: `s` where `x` was the root.
pub open spec fn rotated_top(nodes: Seq<Node>, root: Option<usize>, x: usize, d: Direction)
    -> Option<usize> {
    if nodes[x as int].parent is None {
        nodes[x as int].spec_child(d.spec_inverse())
    } else {
        root
    }
}

/// All nodes after that rotation.
pub open spec fn rotated(nodes: Seq<Node>, x: usize, d: Direction) -> Seq<Node> {
    Seq::new(nodes.len(), |i: int| rotated_in(nodes, x, d, i as usize))
}

/// The nodes with node `i` in colour `c`.
pub open spec fn painted(nodes: Seq<Node>, i: usize, c: Color) -> Seq<Node> {
    nodes.update(i as int, nodes[i as int].with_color(c))
}

/// The nodes after parent `p` and uncle `u` turned black and the
/// grandparent `g` red.
pub open spec fn recolored(nodes: Seq<Node>, p: usize, u: usize, g: usize) -> Seq<Node> {
    painted(painted(painted(nodes, p, Color::Black), u, Color::Black), g, Color::Red)
}

/// The nodes after the rotation under `g` away from `p_dir` lifted `p` into
/// the place of `g`, and `p` turned black and `g` red.
pub open spec fn lifted(nodes: Seq<Node>, p: usize, g: usize, p_dir: Direction) -> Seq<Node> {
    painted(painted(rotated(nodes, g, p_dir.spec_inverse()), p, Color::Black), g, Color::Red)
}

/// The nodes and the root that the repair leaves, where it starts at the red
/// node `n` and is over within `fuel` rounds; nothing where it is not. A
/// round looks at the parent `p` of `n`:
/// - `p` is black: all is left as it is;
/// - `p` is red and the root: `p` turns black;
/// - `p` and the uncle are red: both turn black and the grandparent red,
///   and the repair goes on from the grandparent, or turns it black where it
///   is the root;
/// - else `p` is lifted into the grandparent's place, after a rotation under
///   `p` where `n` hangs on the inner side of `p`.
pub open spec fn repaired(nodes: Seq<Node>, root: Option<usize>, n: usize, fuel: nat) -> Option<
    (Seq<Node>, Option<usize>),
>
    decreases fuel,
{
    if fuel == 0 {
        None
    } else {
        let p = nodes[n as int].parent.unwrap();
        if nodes[p as int].color == Color::Black {
            Some((nodes, root))
        } else {
            match nodes[p as int].parent {
                None => Some((painted(nodes, p, Color::Black), root)),
                Some(g) => {
                    let u = nodes[p as int].spec_sibling(nodes);
                    if u is Some && nodes[u.unwrap() as int].color == Color::Red {
                        let after = recolored(nodes, p, u.unwrap(), g);
                        if nodes[g as int].parent is Some {
                            repaired(after, root, g, (fuel - 1) as nat)
                        } else {
                            Some((painted(after, g, Color::Black), root))
                        }
                    } else {
                        let p_dir = nodes[p as int].spec_direction(nodes);
                        let n_dir = nodes[n as int].spec_direction(nodes);
                        if p_dir != n_dir {
                            let straight = rotated(nodes, p, p_dir);
                            let top = rotated_top(nodes, root, p, p_dir);
                            Some(
                                (
                                    lifted(straight, n, g, p_dir),
                                    rotated_top(straight, top, g, p_dir.spec_inverse()),
                                ),
                            )
                        } else {
                            Some(
                                (
                                    lifted(nodes, p, g, p_dir),
                                    rotated_top(nodes, root, g, p_dir.spec_inverse()),
                                ),
                            )
                        }
                    }
                },
            }
        }
    }
}

/// More rounds than the repair needs change nothing: where it is over
/// within `fuel` rounds, it leaves the same with any larger number.
pub proof fn lemma_repaired_settles(
    nodes: Seq<Node>,
    root: Option<usize>,
    n: usize,
    fuel: nat,
    more: nat,
)
    requires
        repaired(nodes, root, n, fuel) is Some,
        fuel <= more,
    ensures
        repaired(nodes, root, n, more) == repaired(nodes, root, n, fuel),
    decreases fuel,
{
    if fuel > 0 {
        let p = nodes[n as int].parent.unwrap();
        if nodes[p as int].color != Color::Black {
            match nodes[p as int].parent {
                None => {},
                Some(g) => {
                    let u = nodes[p as int].spec_sibling(nodes);
                    if u is Some && nodes[u.unwrap() as int].color == Color::Red
                        && nodes[g as int].parent is Some {
                        lemma_repaired_settles(
                            recolored(nodes, p, u.unwrap(), g),
                            root,
                            g,
                            (fuel - 1) as nat,
                            (more - 1) as nat,
                        );
                    }
                },
            }
        }
    }
}

} // verus!
