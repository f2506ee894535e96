use bruno_db::database::bruno_db::BrunoDb;
use bruno_db::database::Database;
use bruno_db::tree::node::{Color, Direction, Node};
use bruno_db::tree::rb_tree::RbTree;

fn colour_name(node: &Node) -> String {
    format!(" ({:?})", node.color())
}

fn traverse_node(
    tree: &RbTree,
    s: &mut String,
    padding: String,
    pointer: String,
    node: Option<usize>,
    has_right_sibling: bool,
) {
    if let Some(at) = node {
        let node = &tree.nodes[at];
        s.push_str("\n");
        s.push_str(&padding);
        s.push_str(&pointer);
        s.push_str(&node.key.to_string());
        s.push_str(&colour_name(node));

        let mut new_padding = padding;
        if has_right_sibling {
            new_padding.push_str("│  ")
        } else {
            new_padding.push_str("   ")
        }

        let pointer_right = String::from("└──");
        let pointer_left = if node.right_child.is_some() {
            String::from("├──")
        } else {
            String::from("└──")
        };

        traverse_node(
            tree,
            s,
            new_padding.clone(),
            pointer_left,
            node.left_child,
            node.right_child.is_some(),
        );
        traverse_node(tree, s, new_padding, pointer_right, node.right_child, false)
    }
}

fn traverse_pre_order(tree: &RbTree) -> String {
    let at = match tree.root {
        Some(at) => at,
        None => return String::from(""),
    };
    let node = &tree.nodes[at];
    let mut s = node.key.to_string();
    s.push_str(&colour_name(node));

    let pointer_right = String::from("└──");
    let pointer_left = if node.right_child.is_some() {
        String::from("├──")
    } else {
        String::from("└──")
    };

    traverse_node(
        tree,
        &mut s,
        String::from(""),
        pointer_left,
        node.left_child,
        node.right_child.is_some(),
    );
    traverse_node(tree, &mut s, String::from(""), pointer_right, node.right_child, false);
    s
}

fn pretty_print(tree: &RbTree) {
    println!("{}", traverse_pre_order(tree))
}

/// Walks the subtree in `slot`, whose keys must lie strictly between the two
/// bounds, and returns its black height, its height and its number of nodes.
fn walk(
    tree: &RbTree,
    slot: Option<usize>,
    parent: Option<usize>,
    low: Option<u64>,
    high: Option<u64>,
) -> (usize, usize, usize) {
    let at = match slot {
        Some(at) => at,
        None => return (0, 0, 0),
    };
    let node = &tree.nodes[at];
    assert_eq!(node.parent(), parent);
    if let Some(low) = low {
        assert!(low < node.key);
    }
    if let Some(high) = high {
        assert!(node.key < high);
    }
    if node.is_red() {
        for child in [node.left_child, node.right_child] {
            if let Some(c) = child {
                assert!(tree.nodes[c].is_black());
            }
        }
    }
    let (lb, lh, ln) = walk(tree, node.left_child, Some(at), low, Some(node.key));
    let (rb, rh, rn) = walk(tree, node.right_child, Some(at), Some(node.key), high);
    assert_eq!(lb, rb);
    let own = if node.is_black() { 1 } else { 0 };
    (lb + own, 1 + lh.max(rh), ln + rn + 1)
}

/// Checks the four invariants and that every node is reached; returns the height.
fn inspect(tree: &RbTree) -> usize {
    if let Some(r) = tree.root {
        assert!(tree.nodes[r].is_black());
    }
    let (_, height, count) = walk(tree, tree.root, None, None, None);
    assert_eq!(count, tree.nodes.len());
    height
}

fn by_key(tree: &RbTree, key: u64) -> usize {
    tree.nodes.iter().position(|n| n.key == key).unwrap()
}

fn four_keys() -> RbTree {
    let mut tree = RbTree::default();
    tree.insert(10, String::from("bruno"));
    tree.insert(20, String::from("bruno"));
    tree.insert(30, String::from("bruno"));
    tree.insert(15, String::from("bruno"));
    tree
}

#[test]
fn insertion() {
    let mut tree = RbTree::default();
    for i in 50..100 {
        tree.insert(i, String::from("bruno"));
    }
    for i in 0..50 {
        tree.insert(i, String::from("bruno"));
    }
    for i in 101..150 {
        tree.insert(i, String::from("bruno"));
    }
    pretty_print(&tree);
    assert_eq!(tree.nodes.len(), 149);
    inspect(&tree);
}

#[test]
fn insertion2() {
    let mut tree = RbTree::default();
    tree.insert(10, String::from("bruno"));
    tree.insert(20, String::from("bruno"));
    tree.insert(30, String::from("bruno"));
    tree.insert(15, String::from("bruno"));
    pretty_print(&tree);
    assert_eq!(
        traverse_pre_order(&tree),
        "20 (Black)\n├──10 (Black)\n│  └──15 (Red)\n└──30 (Black)"
    );
    inspect(&tree);
}

#[test]
fn empty_tree_has_no_root() {
    let tree = RbTree::default();
    assert_eq!(tree.root, None);
    assert_eq!(tree.nodes.len(), 0);
    assert_eq!(traverse_pre_order(&tree), "");
    let tree = RbTree::new();
    assert_eq!(tree.root, None);
    assert_eq!(inspect(&tree), 0);
}

#[test]
fn first_node_is_black_root() {
    let mut tree = RbTree::new();
    tree.insert(7, String::from("seven"));
    let r = tree.root.unwrap();
    assert_eq!(tree.nodes[r].key, 7);
    assert_eq!(tree.nodes[r].value, "seven");
    assert_eq!(tree.nodes[r].color(), Color::Black);
    assert_eq!(tree.nodes[r].parent(), None);
    assert_eq!(tree.nodes[r].child(Direction::Left), None);
    assert_eq!(tree.nodes[r].child(Direction::Right), None);
}

#[test]
fn second_node_hangs_red() {
    let mut tree = RbTree::new();
    tree.insert(7, String::from("a"));
    tree.insert(3, String::from("b"));
    let r = tree.root.unwrap();
    let l = tree.nodes[r].child(Direction::Left).unwrap();
    assert_eq!(tree.nodes[l].key, 3);
    assert!(tree.nodes[l].is_red());
    assert_eq!(tree.nodes[l].parent(), Some(r));
    assert_eq!(tree.nodes[r].child(Direction::Right), None);
    inspect(&tree);
}

#[test]
fn four_keys_give_the_expected_shape() {
    let tree = four_keys();
    let r = tree.root.unwrap();
    assert_eq!(tree.nodes[r].key, 20);
    assert!(tree.nodes[r].is_black());
    let l = tree.nodes[r].child(Direction::Left).unwrap();
    assert_eq!(tree.nodes[l].key, 10);
    assert!(tree.nodes[l].is_black());
    assert_eq!(tree.nodes[l].child(Direction::Left), None);
    let lr = tree.nodes[l].child(Direction::Right).unwrap();
    assert_eq!(tree.nodes[lr].key, 15);
    assert!(tree.nodes[lr].is_red());
    let rr = tree.nodes[r].child(Direction::Right).unwrap();
    assert_eq!(tree.nodes[rr].key, 30);
    assert!(tree.nodes[rr].is_black());
    assert_eq!(tree.nodes[rr].child(Direction::Left), None);
    assert_eq!(tree.nodes[rr].child(Direction::Right), None);
    assert_eq!(inspect(&tree), 3);
}

#[test]
fn three_ranges_stay_balanced() {
    let mut tree = RbTree::default();
    for i in 50..100 {
        tree.insert(i, String::from("bruno"));
        inspect(&tree);
    }
    for i in 0..50 {
        tree.insert(i, String::from("bruno"));
        inspect(&tree);
    }
    for i in 101..150 {
        tree.insert(i, String::from("bruno"));
        inspect(&tree);
    }
    let height = inspect(&tree);
    let bound = 2.0 * (150.0f64).log2();
    assert!((height as f64) <= bound);
    assert_eq!(tree.nodes.len(), 149);
}

#[test]
fn descending_keys_stay_balanced() {
    let mut tree = RbTree::new();
    for i in (0..200u64).rev() {
        tree.insert(i, i.to_string());
    }
    let height = inspect(&tree);
    assert!(height <= 16);
    assert_eq!(tree.nodes.len(), 200);
    for i in 0..200u64 {
        assert_eq!(tree.nodes[by_key(&tree, i)].value, i.to_string());
    }
}

#[test]
fn zigzag_keys_rotate_twice() {
    // 30 under 10, then 20 between them: an inner grandchild.
    let mut tree = RbTree::new();
    tree.insert(10, String::from("a"));
    tree.insert(30, String::from("b"));
    tree.insert(20, String::from("c"));
    assert_eq!(
        traverse_pre_order(&tree),
        "20 (Black)\n├──10 (Red)\n└──30 (Red)"
    );
    inspect(&tree);
    // The mirror image.
    let mut tree = RbTree::new();
    tree.insert(30, String::from("a"));
    tree.insert(10, String::from("b"));
    tree.insert(20, String::from("c"));
    assert_eq!(
        traverse_pre_order(&tree),
        "20 (Black)\n├──10 (Red)\n└──30 (Red)"
    );
    inspect(&tree);
}

#[test]
fn red_uncle_recolours_up_to_the_root() {
    let mut tree = RbTree::new();
    for k in [20u64, 10, 30] {
        tree.insert(k, String::new());
    }
    // Parent 10 and uncle 30 are red: both turn black, the root stays black.
    tree.insert(5, String::new());
    assert_eq!(
        traverse_pre_order(&tree),
        "20 (Black)\n├──10 (Black)\n│  └──5 (Red)\n└──30 (Black)"
    );
    inspect(&tree);
}

#[test]
fn same_key_twice_overwrites() {
    let mut tree = four_keys();
    let before = traverse_pre_order(&tree);
    tree.insert(15, String::from("again"));
    assert_eq!(tree.nodes.len(), 4);
    assert_eq!(traverse_pre_order(&tree), before);
    assert_eq!(tree.nodes[by_key(&tree, 15)].value, "again");
    assert_eq!(tree.nodes[by_key(&tree, 10)].value, "bruno");
    tree.insert(20, String::from("root"));
    assert_eq!(tree.nodes.len(), 4);
    assert_eq!(tree.nodes[tree.root.unwrap()].value, "root");
    inspect(&tree);
}

#[test]
fn distinct_keys_are_all_kept() {
    let mut tree = RbTree::new();
    let mut n = 0;
    let mut k: u64 = 1;
    while n < 500 {
        k = k.wrapping_mul(6364136223846793005).wrapping_add(1442695040888963407);
        let before = tree.nodes.len();
        let known = tree.nodes.iter().any(|x| x.key == k);
        tree.insert(k, String::from("v"));
        assert_eq!(tree.nodes.len(), if known { before } else { before + 1 });
        n += 1;
    }
    inspect(&tree);
}

#[test]
fn extreme_keys_are_accepted() {
    let mut tree = RbTree::new();
    tree.insert(u64::MAX, String::from("max"));
    tree.insert(0, String::from("min"));
    tree.insert(u64::MAX - 1, String::from("below"));
    tree.insert(1, String::from("above"));
    assert_eq!(tree.nodes.len(), 4);
    inspect(&tree);
}

#[test]
fn two_ranges_taken_in_turn() {
    let mut tree = RbTree::new();
    for i in 0..1000u64 {
        tree.insert(i, String::from("low"));
        tree.insert(1000 + i, String::from("high"));
    }
    assert_eq!(tree.nodes.len(), 2000);
    inspect(&tree);
}

#[test]
fn direction_inverse_swaps_sides() {
    assert_eq!(Direction::Left.inverse(), Direction::Right);
    assert_eq!(Direction::Right.inverse(), Direction::Left);
    assert_eq!(Direction::Left.inverse().inverse(), Direction::Left);
}

#[test]
fn node_new_has_no_children() {
    let n = Node::new(4, String::from("four"), Color::Red, Some(9));
    assert_eq!(n.key, 4);
    assert_eq!(n.value, "four");
    assert_eq!(n.color(), Color::Red);
    assert!(n.is_red());
    assert!(!n.is_black());
    assert_eq!(n.parent(), Some(9));
    assert_eq!(n.child(Direction::Left), None);
    assert_eq!(n.child(Direction::Right), None);
}

#[test]
fn node_setters_change_one_field() {
    let mut n = Node::new(4, String::from("four"), Color::Red, None);
    n.set_color(Color::Black);
    assert!(n.is_black());
    assert!(!n.is_red());
    n.set_parent(Some(2));
    assert_eq!(n.parent(), Some(2));
    n.set_child(Some(5), Direction::Left);
    assert_eq!(n.child(Direction::Left), Some(5));
    assert_eq!(n.child(Direction::Right), None);
    n.set_child(Some(6), Direction::Right);
    assert_eq!(n.child(Direction::Left), Some(5));
    assert_eq!(n.child(Direction::Right), Some(6));
    n.set_child(None, Direction::Left);
    assert_eq!(n.child(Direction::Left), None);
    assert_eq!(n.key, 4);
    assert_eq!(n.value, "four");
}

#[test]
fn direction_and_sibling_follow_the_links() {
    let tree = four_keys();
    let n10 = by_key(&tree, 10);
    let n15 = by_key(&tree, 15);
    let n20 = by_key(&tree, 20);
    let n30 = by_key(&tree, 30);
    assert_eq!(tree.nodes[n10].direction(&tree.nodes), Direction::Left);
    assert_eq!(tree.nodes[n30].direction(&tree.nodes), Direction::Right);
    assert_eq!(tree.nodes[n15].direction(&tree.nodes), Direction::Right);
    assert_eq!(tree.nodes[n10].sibling(&tree.nodes), Some(n30));
    assert_eq!(tree.nodes[n30].sibling(&tree.nodes), Some(n10));
    assert_eq!(tree.nodes[n15].sibling(&tree.nodes), None);
    assert_eq!(tree.nodes[n20].sibling(&tree.nodes), None);
}

#[test]
fn find_new_node_parent_ends_where_the_key_belongs() {
    let tree = four_keys();
    let root = tree.root.unwrap();
    assert_eq!(tree.find_new_node_parent(root, 15), by_key(&tree, 15));
    assert_eq!(tree.find_new_node_parent(root, 20), root);
    assert_eq!(tree.find_new_node_parent(root, 5), by_key(&tree, 10));
    assert_eq!(tree.find_new_node_parent(root, 12), by_key(&tree, 15));
    assert_eq!(tree.find_new_node_parent(root, 17), by_key(&tree, 15));
    assert_eq!(tree.find_new_node_parent(root, 25), by_key(&tree, 30));
    assert_eq!(tree.find_new_node_parent(root, 40), by_key(&tree, 30));
    let from = by_key(&tree, 10);
    assert_eq!(tree.find_new_node_parent(from, 40), by_key(&tree, 15));
}

#[test]
fn add_child_to_node_fills_the_slot_for_the_key() {
    let mut tree = four_keys();
    let n10 = by_key(&tree, 10);
    let n30 = by_key(&tree, 30);
    tree.nodes.push(Node::new(5, String::from("x"), Color::Red, Some(n10)));
    tree.nodes.push(Node::new(40, String::from("y"), Color::Red, Some(n30)));
    tree.add_child_to_node(n10, 4);
    tree.add_child_to_node(n30, 5);
    assert_eq!(tree.nodes[n10].child(Direction::Left), Some(4));
    assert_eq!(tree.nodes[n10].child(Direction::Right), Some(by_key(&tree, 15)));
    assert_eq!(tree.nodes[n30].child(Direction::Right), Some(5));
    assert_eq!(tree.nodes[n30].child(Direction::Left), None);
    inspect(&tree);
}

#[test]
fn rotate_dir_root_moves_three_links() {
    let mut tree = four_keys();
    let n10 = by_key(&tree, 10);
    let n15 = by_key(&tree, 15);
    let n20 = by_key(&tree, 20);
    let n30 = by_key(&tree, 30);
    // 10 goes down to the left, 15 comes up under 20.
    tree.rotate_dir_root(n10, Direction::Left);
    assert_eq!(tree.root, Some(n20));
    assert_eq!(tree.nodes[n20].child(Direction::Left), Some(n15));
    assert_eq!(tree.nodes[n15].parent(), Some(n20));
    assert_eq!(tree.nodes[n15].child(Direction::Left), Some(n10));
    assert_eq!(tree.nodes[n15].child(Direction::Right), None);
    assert_eq!(tree.nodes[n10].parent(), Some(n15));
    assert_eq!(tree.nodes[n10].child(Direction::Right), None);
    assert_eq!(tree.nodes[n10].child(Direction::Left), None);
    // The root goes down to the right, 15 becomes the root.
    tree.rotate_dir_root(n20, Direction::Right);
    assert_eq!(tree.root, Some(n15));
    assert_eq!(tree.nodes[n15].parent(), None);
    assert_eq!(tree.nodes[n15].child(Direction::Right), Some(n20));
    assert_eq!(tree.nodes[n15].child(Direction::Left), Some(n10));
    assert_eq!(tree.nodes[n20].parent(), Some(n15));
    assert_eq!(tree.nodes[n20].child(Direction::Left), None);
    assert_eq!(tree.nodes[n20].child(Direction::Right), Some(n30));
    // Colours and keys are where they were.
    assert!(tree.nodes[n15].is_red());
    assert!(tree.nodes[n20].is_black());
    assert_eq!(tree.nodes[n15].key, 15);
    assert_eq!(tree.nodes.len(), 4);
}

#[test]
fn rotation_hands_the_inner_subtree_over() {
    let mut tree = RbTree::new();
    for k in [40u64, 20, 60, 10, 30, 25] {
        tree.insert(k, String::new());
    }
    let n20 = by_key(&tree, 20);
    let n30 = by_key(&tree, 30);
    let n25 = by_key(&tree, 25);
    let n40 = by_key(&tree, 40);
    assert_eq!(tree.nodes[n30].child(Direction::Left), Some(n25));
    tree.rotate_dir_root(n20, Direction::Left);
    assert_eq!(tree.nodes[n40].child(Direction::Left), Some(n30));
    assert_eq!(tree.nodes[n30].parent(), Some(n40));
    assert_eq!(tree.nodes[n30].child(Direction::Left), Some(n20));
    assert_eq!(tree.nodes[n20].parent(), Some(n30));
    assert_eq!(tree.nodes[n20].child(Direction::Right), Some(n25));
    assert_eq!(tree.nodes[n25].parent(), Some(n20));
    assert_eq!(tree.nodes[n20].child(Direction::Left), Some(by_key(&tree, 10)));
}

#[test]
fn store_puts_records_into_the_index() {
    let mut db = BrunoDb::default();
    assert_eq!(db.index.nodes.len(), 0);
    db.put_record(3, String::from("three"));
    db.put_record(1, String::from("one"));
    db.put_record(3, String::from("drei"));
    assert_eq!(db.index.nodes.len(), 2);
    assert_eq!(db.index.nodes[by_key(&db.index, 3)].value, "drei");
    assert_eq!(db.index.nodes[by_key(&db.index, 1)].value, "one");
    let db = BrunoDb::new();
    assert_eq!(db.index.root, None);
}

/// 20 black at the top, 10 and 30 red below it, and a red 5 hung under 10.
fn red_under_red_with_red_uncle() -> (RbTree, usize, usize, usize, usize) {
    let mut tree = RbTree::new();
    for k in [20u64, 10, 30] {
        tree.insert(k, String::new());
    }
    let (g, p, u) = (by_key(&tree, 20), by_key(&tree, 10), by_key(&tree, 30));
    tree.nodes.push(Node::new(5, String::new(), Color::Red, Some(p)));
    let n = tree.nodes.len() - 1;
    tree.add_child_to_node(p, n);
    (tree, n, p, u, g)
}

/// 10 black at the top, a red 30 to its right, and a red 20 hung under 30.
fn red_under_red_on_the_inner_side() -> (RbTree, usize, usize, usize) {
    let mut tree = RbTree::new();
    tree.insert(10, String::new());
    tree.insert(30, String::new());
    let (g, p) = (by_key(&tree, 10), by_key(&tree, 30));
    tree.nodes.push(Node::new(20, String::new(), Color::Red, Some(p)));
    let n = tree.nodes.len() - 1;
    tree.add_child_to_node(p, n);
    (tree, n, p, g)
}

#[test]
fn recolor_paints_parent_uncle_and_grandparent() {
    let (mut tree, n, p, u, g) = red_under_red_with_red_uncle();
    tree.recolor(n, p, u, g);
    assert_eq!(tree.nodes[p].color(), Color::Black);
    assert_eq!(tree.nodes[u].color(), Color::Black);
    assert_eq!(tree.nodes[g].color(), Color::Red);
    assert_eq!(tree.nodes[n].color(), Color::Red);
    assert_eq!(tree.root, Some(g));
    assert_eq!(tree.nodes[g].child(Direction::Left), Some(p));
    assert_eq!(tree.nodes[g].child(Direction::Right), Some(u));
    assert_eq!(tree.nodes[p].child(Direction::Left), Some(n));
    tree.blacken_root(g);
    assert_eq!(tree.nodes[g].color(), Color::Black);
    assert_eq!(tree.nodes[p].color(), Color::Black);
    assert_eq!(tree.nodes[n].color(), Color::Red);
    inspect(&tree);
}

#[test]
fn blacken_root_leaves_a_black_root_alone() {
    let mut tree = four_keys();
    let before = traverse_pre_order(&tree);
    let r = tree.root.unwrap();
    tree.blacken_root(r);
    assert_eq!(traverse_pre_order(&tree), before);
}

#[test]
fn straighten_then_lift_brings_the_middle_key_up() {
    let (mut tree, n, p, g) = red_under_red_on_the_inner_side();
    tree.straighten(n, p, g, Direction::Right);
    assert_eq!(tree.root, Some(g));
    assert_eq!(tree.nodes[g].child(Direction::Right), Some(n));
    assert_eq!(tree.nodes[n].parent(), Some(g));
    assert_eq!(tree.nodes[n].child(Direction::Right), Some(p));
    assert_eq!(tree.nodes[n].child(Direction::Left), None);
    assert_eq!(tree.nodes[p].parent(), Some(n));
    assert_eq!(tree.nodes[p].child(Direction::Left), None);
    assert!(tree.nodes[n].is_red());
    assert!(tree.nodes[p].is_red());
    assert!(tree.nodes[g].is_black());
    tree.lift(p, n, g, Direction::Right);
    assert_eq!(tree.root, Some(n));
    assert_eq!(tree.nodes[n].parent(), None);
    assert!(tree.nodes[n].is_black());
    assert_eq!(tree.nodes[n].child(Direction::Left), Some(g));
    assert_eq!(tree.nodes[n].child(Direction::Right), Some(p));
    assert!(tree.nodes[g].is_red());
    assert!(tree.nodes[p].is_red());
    assert_eq!(tree.nodes[g].parent(), Some(n));
    assert_eq!(tree.nodes[g].child(Direction::Right), None);
    inspect(&tree);
}

#[test]
fn rebalance_ends_where_insert_ends() {
    let (mut tree, n, p, _) = red_under_red_on_the_inner_side();
    tree.rebalance(n, p);
    let mut other = RbTree::new();
    for k in [10u64, 30, 20] {
        other.insert(k, String::new());
    }
    assert_eq!(traverse_pre_order(&tree), traverse_pre_order(&other));
    let (mut tree, n, p, _, _) = red_under_red_with_red_uncle();
    tree.rebalance(n, p);
    assert_eq!(
        traverse_pre_order(&tree),
        "20 (Black)\n├──10 (Black)\n│  └──5 (Red)\n└──30 (Black)"
    );
    inspect(&tree);
}

#[test]
fn rebalance_under_a_black_parent_changes_nothing() {
    let mut tree = RbTree::new();
    tree.insert(10, String::new());
    let r = tree.root.unwrap();
    tree.nodes.push(Node::new(4, String::new(), Color::Red, Some(r)));
    tree.add_child_to_node(r, 1);
    let before = traverse_pre_order(&tree);
    tree.rebalance(1, r);
    assert_eq!(traverse_pre_order(&tree), before);
    assert_eq!(before, "10 (Black)\n└──4 (Red)");
}
