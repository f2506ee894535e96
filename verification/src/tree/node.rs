use vstd::prelude::*;

verus! {

/// The colour of a node. An absent child counts as black.
#[derive(Clone, Copy, Debug, PartialEq, Eq, Structural)]
pub enum Color {
    Red,
    Black,
}

/// The side of a parent on which a child hangs.
#[derive(Clone, Copy, Debug, PartialEq, Eq, Structural)]
pub enum Direction {
    Right,
    Left,
}

impl Direction {
    /// The other side.
    pub open spec fn spec_inverse(self) -> Direction {
        match self {
            Direction::Right => Direction::Left,
            Direction::Left => Direction::Right,
        }
    }

    /// The other side.
    pub fn inverse(&self) -> (r: Direction)
        ensures
            r == self.spec_inverse(),
    {
        match self {
            Direction::Right => Direction::Left,
            Direction::Left => Direction::Right,
        }
    }
}

/// One entry of the index. The three links are positions in the arena that
/// holds the node; a link carries no ownership.
#[derive(Debug)]
pub struct Node {
    pub color: Color,
    pub left_child: Option<usize>,
    pub right_child: Option<usize>,
    pub parent: Option<usize>,
    pub key: u64,
    pub value: String,
}

impl Node {
    /// The link on side `d`.
    pub open spec fn spec_child(&self, d: Direction) -> Option<usize> {
        match d {
            Direction::Right => self.right_child,
            Direction::Left => self.left_child,
        }
    }

    /// This node with its parent link replaced.
    pub open spec fn with_parent(self, p: Option<usize>) -> Node {
        Node { parent: p, ..self }
    }

    /// This node with its colour replaced.
    pub open spec fn with_color(self, c: Color) -> Node {
        Node { color: c, ..self }
    }

    /// This node with its link on side `d` replaced.
    pub open spec fn with_child(self, c: Option<usize>, d: Direction) -> Node {
        match d {
            Direction::Right => Node { right_child: c, ..self },
            Direction::Left => Node { left_child: c, ..self },
        }
    }

    /// The side of its parent on which this node hangs, read as the
    /// executable `direction` reads it: left exactly when the parent has a
    /// left child that carries this node's key.
    pub open spec fn spec_direction(&self, nodes: Seq<Node>) -> Direction {
        match nodes[self.parent.unwrap() as int].left_child {
            Some(l) => if nodes[l as int].key == self.key {
                Direction::Left
            } else {
                Direction::Right
            },
            None => Direction::Right,
        }
    }

    /// The node in the other slot of this node's parent.
    pub open spec fn spec_sibling(&self, nodes: Seq<Node>) -> Option<usize> {
        match self.parent {
            Some(p) => nodes[p as int].spec_child(self.spec_direction(nodes).spec_inverse()),
            None => None,
        }
    }

    /// A fresh node without children.
    pub fn new(key: u64, value: String, color: Color, parent: Option<usize>) -> (n: Node)
        ensures
            n == (Node { color, left_child: None, right_child: None, parent, key, value }),
    {
        Node { color, left_child: None, right_child: None, parent, key, value }
    }

    /// Whether the node is black.
    pub fn is_black(&self) -> (b: bool)
        ensures
            b == (self.color == Color::Black),
    {
        self.color == Color::Black
    }

    /// Whether the node is red.
    pub fn is_red(&self) -> (b: bool)
        ensures
            b == (self.color == Color::Red),
    {
        !self.is_black()
    }

    /// The link to the parent.
    pub fn parent(&self) -> (p: Option<usize>)
        ensures
            p == self.parent,
    {
        self.parent
    }

    /// Replaces the link to the parent.
    pub fn set_parent(&mut self, node: Option<usize>)
        ensures
            *final(self) == old(self).with_parent(node),
    {
        self.parent = node;
    }

    /// The colour.
    pub fn color(&self) -> (c: Color)
        ensures
            c == self.color,
    {
        self.color
    }

    /// Replaces the colour.
    pub fn set_color(&mut self, color: Color)
        ensures
            *final(self) == old(self).with_color(color),
    {
        self.color = color;
    }

    /// The link to the child on side `direction`.
    pub fn child(&self, direction: Direction) -> (c: Option<usize>)
        ensures
            c == self.spec_child(direction),
    {
        match direction {
            Direction::Right => self.right_child,
            Direction::Left => self.left_child,
        }
    }

    /// Replaces the link to the child on side `direction`.
    pub fn set_child(&mut self, node: Option<usize>, direction: Direction)
        ensures
            *final(self) == old(self).with_child(node, direction),
    {
        match direction {
            Direction::Right => self.right_child = node,
            Direction::Left => self.left_child = node,
        }
    }

    /// Whether this node is its parent's left or right child. The node must
    /// have a parent in `nodes`, and that parent's left link, if any, must
    /// point into `nodes`.
    pub fn direction(&self, nodes: &Vec<Node>) -> (d: Direction)
        requires
            self.parent is Some,
            self.parent.unwrap() < nodes@.len(),
            nodes@[self.parent.unwrap() as int].left_child is Some
                ==> nodes@[self.parent.unwrap() as int].left_child.unwrap() < nodes@.len(),
        ensures
            d == self.spec_direction(nodes@),
    {
        let p: usize = self.parent().unwrap();
        if let Some(left_child) = nodes[p].child(Direction::Left) {
            if nodes[left_child].key == self.key {
                Direction::Left
            } else {
                Direction::Right
            }
        } else {
            Direction::Right
        }
    }

    /// The node in the other slot of this node's parent, or none where this
    /// node has no parent.
    pub fn sibling(&self, nodes: &Vec<Node>) -> (s: Option<usize>)
        requires
            self.parent is Some ==> self.parent.unwrap() < nodes@.len(),
            self.parent is Some && nodes@[self.parent.unwrap() as int].left_child is Some
                ==> nodes@[self.parent.unwrap() as int].left_child.unwrap() < nodes@.len(),
        ensures
            s == self.spec_sibling(nodes@),
    {
        if let Some(p) = self.parent() {
            return match self.direction(nodes) {
                Direction::Right => nodes[p].child(Direction::Left),
                Direction::Left => nodes[p].child(Direction::Right),
            };
        }
        None
    }
}

} // verus!
