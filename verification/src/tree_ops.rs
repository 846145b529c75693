use vstd::prelude::*;
use crate::node::Node;

verus! {

/// The number of nodes on the longest downward path from this node,
/// the node itself included.
pub open spec fn node_height(n: Node) -> nat
    decreases n,
{
    let lh = match n.left {
        Some(l) => node_height(*l),
        None => 0,
    };
    let rh = match n.right {
        Some(r) => node_height(*r),
        None => 0,
    };
    1 + if lh >= rh {
        lh
    } else {
        rh
    }
}

/// The diameter of the subtree rooted at this node, counted in edges: the
/// largest of the two children's diameters and of the path through this
/// node, which joins the longest downward paths into both children.
pub open spec fn node_diam(n: Node) -> nat
    decreases n,
{
    let lh = match n.left {
        Some(l) => node_height(*l),
        None => 0,
    };
    let rh = match n.right {
        Some(r) => node_height(*r),
        None => 0,
    };
    let ld = match n.left {
        Some(l) => node_diam(*l),
        None => 0,
    };
    let rd = match n.right {
        Some(r) => node_diam(*r),
        None => 0,
    };
    let dd = if ld >= rd {
        ld
    } else {
        rd
    };
    if dd >= lh + rh {
        dd
    } else {
        lh + rh
    }
}

/// The height of an optional tree; an absent tree has height 0.
pub open spec fn opt_height(root: Option<Box<Node>>) -> nat {
    match root {
        Some(b) => node_height(*b),
        None => 0,
    }
}

/// The diameter of an optional tree; an absent tree has diameter 0.
pub open spec fn opt_diam(root: Option<Box<Node>>) -> nat {
    match root {
        Some(b) => node_diam(*b),
        None => 0,
    }
}

proof fn lemma_diam_bounds(n: Node)
    ensures
        node_diam(n) + 1 >= node_height(n),
    decreases n,
{
    match n.left {
        Some(l) => lemma_diam_bounds(*l),
        None => (),
    }
    match n.right {
        Some(r) => lemma_diam_bounds(*r),
        None => (),
    }
}

fn dfs_diameter(node: &Box<Node>) -> (r: (i32, i32))
    requires
        node_diam(**node) <= i32::MAX,
        node_height(**node) <= i32::MAX,
    ensures
        r.0 == node_height(**node),
        r.1 == node_diam(**node),
    decreases **node,
{
    proof {
        lemma_diam_bounds(**node);
    }
    let mut max_diameter: i32 = 0;
    let mut lh: i32 = 0;
    let mut rh: i32 = 0;
    if let Some(left) = node.get_left() {
        let (depth, diameter) = dfs_diameter(left);
        lh = depth;
        if diameter > max_diameter {
            max_diameter = diameter;
        }
    }
    if let Some(right) = node.get_right() {
        let (depth, diameter) = dfs_diameter(right);
        rh = depth;
        if diameter > max_diameter {
            max_diameter = diameter;
        }
    }
    let through = lh + rh;
    if through > max_diameter {
        max_diameter = through;
    }
    let max_depth = if lh >= rh {
        lh + 1
    } else {
        rh + 1
    };
    (max_depth, max_diameter)
}

/// The diameter in edges of the tree hanging from this root slot.
pub fn calculate_diameter(root: &Option<Box<Node>>) -> (d: i32)
    requires
        opt_diam(*root) <= i32::MAX,
        opt_height(*root) <= i32::MAX,
    ensures
        d == opt_diam(*root),
{
    if let Some(root) = root {
        let (_, diameter) = dfs_diameter(root);
        diameter
    } else {
        0
    }
}

} // verus!
