use vstd::prelude::*;
use std::collections::VecDeque;
use crate::random::rand_below;

verus! {

/// A tree node identified by its index, listing the indices of its children.
pub struct TreeNode {
    pub id: usize,
    pub children: Vec<usize>,
}

/// A binary tree kept as a flat vector of nodes; node ids are indices.
pub struct BinaryTree {
    pub nodes: Vec<TreeNode>,
    pub root: usize,
}

/// Well-formed flat tree: node i carries id i and at most two children,
/// each a larger index inside the vector, listed in increasing order.
pub open spec fn tree_wf(t: Seq<TreeNode>) -> bool {
    forall|i: int|
        0 <= i < t.len() ==> {
            &&& (#[trigger] t[i]).id == i
            &&& t[i].children@.len() <= 2
            &&& (forall|k: int|
                0 <= k < t[i].children@.len() ==> i < #[trigger] t[i].children@[k] < t.len())
            &&& (t[i].children@.len() == 2 ==> t[i].children@[0] < t[i].children@[1])
        }
}

/// The number of nodes on the longest downward path from node i.
pub open spec fn height_at(t: Seq<TreeNode>, i: int) -> nat
    decreases t.len() - i, 3int,
{
    if 0 <= i < t.len() {
        1 + max2(child_height(t, i, 0), child_height(t, i, 1))
    } else {
        0
    }
}

/// The height below child slot k of node i, or 0 when the slot is unused.
pub open spec fn child_height(t: Seq<TreeNode>, i: int, k: int) -> nat
    decreases t.len() - i, 2int,
{
    if 0 <= i < t.len() && 0 <= k < t[i].children@.len() && i < t[i].children@[k] < t.len() {
        height_at(t, t[i].children@[k] as int)
    } else {
        0
    }
}

/// The diameter in edges of the subtree below node i: the best of the
/// children's own diameters and of the path joining both children through i.
pub open spec fn diam_at(t: Seq<TreeNode>, i: int) -> nat
    decreases t.len() - i, 3int,
{
    if 0 <= i < t.len() {
        max2(
            max2(child_diam(t, i, 0), child_diam(t, i, 1)),
            child_height(t, i, 0) + child_height(t, i, 1),
        )
    } else {
        0
    }
}

/// The diameter below child slot k of node i, or 0 when the slot is unused.
pub open spec fn child_diam(t: Seq<TreeNode>, i: int, k: int) -> nat
    decreases t.len() - i, 2int,
{
    if 0 <= i < t.len() && 0 <= k < t[i].children@.len() && i < t[i].children@[k] < t.len() {
        diam_at(t, t[i].children@[k] as int)
    } else {
        0
    }
}

/// Whether node i lists id among its children.
pub open spec fn lists_child(t: Seq<TreeNode>, i: int, id: usize) -> bool {
    exists|k: int| 0 <= k < t[i].children@.len() && t[i].children@[k] == id
}

/// How many slots of a mark vector are set.
pub open spec fn count_trues(s: Seq<bool>) -> int
    decreases s.len(),
{
    if s.len() == 0 {
        0
    } else {
        count_trues(s.drop_last()) + if s.last() {
            1int
        } else {
            0int
        }
    }
}

proof fn lemma_count_le(s: Seq<bool>)
    ensures
        0 <= count_trues(s) <= s.len(),
    decreases s.len(),
{
    if s.len() > 0 {
        lemma_count_le(s.drop_last());
    }
}

proof fn lemma_count_false(s: Seq<bool>, v: int)
    requires
        0 <= v < s.len(),
        !s[v],
    ensures
        count_trues(s) <= s.len() - 1,
    decreases s.len(),
{
    if v == s.len() - 1 {
        lemma_count_le(s.drop_last());
    } else {
        lemma_count_false(s.drop_last(), v);
    }
}

proof fn lemma_count_false_all(s: Seq<bool>)
    requires
        forall|v: int| 0 <= v < s.len() ==> !s[v],
    ensures
        count_trues(s) == 0,
    decreases s.len(),
{
    if s.len() > 0 {
        lemma_count_false_all(s.drop_last());
    }
}

proof fn lemma_count_update(s: Seq<bool>, i: int)
    requires
        0 <= i < s.len(),
        !s[i],
    ensures
        count_trues(s.update(i, true)) == count_trues(s) + 1,
    decreases s.len(),
{
    if i == s.len() - 1 {
        assert(s.update(i, true).drop_last() =~= s.drop_last());
    } else {
        assert(s.update(i, true).drop_last() =~= s.drop_last().update(i, true));
        lemma_count_update(s.drop_last(), i);
    }
}

/// The larger of two naturals.
pub open spec fn max2(a: nat, b: nat) -> nat {
    if a >= b {
        a
    } else {
        b
    }
}

proof fn lemma_height_bound(t: Seq<TreeNode>, i: int)
    requires
        0 <= i < t.len(),
    ensures
        height_at(t, i) <= t.len() - i,
        diam_at(t, i) <= 2 * (t.len() - i - 1),
    decreases t.len() - i, 3int,
{
    lemma_child_bound(t, i, 0);
    lemma_child_bound(t, i, 1);
}

proof fn lemma_child_bound(t: Seq<TreeNode>, i: int, k: int)
    requires
        0 <= i < t.len(),
    ensures
        child_height(t, i, k) <= t.len() - i - 1,
        child_diam(t, i, k) <= 2 * (t.len() - i - 2) || child_diam(t, i, k) == 0,
    decreases t.len() - i, 2int,
{
    if 0 <= k < t[i].children@.len() && i < t[i].children@[k] && t[i].children@[k] < t.len() {
        lemma_height_bound(t, t[i].children@[k] as int);
    }
}

fn diam_rec(nodes: &Vec<TreeNode>, i: usize) -> (r: (usize, usize))
    requires
        tree_wf(nodes@),
        i < nodes@.len(),
        nodes@.len() <= usize::MAX / 2,
    ensures
        r.0 == height_at(nodes@, i as int),
        r.1 == diam_at(nodes@, i as int),
    decreases nodes@.len() - i,
{
    proof {
        lemma_height_bound(nodes@, i as int);
        lemma_child_bound(nodes@, i as int, 0);
        lemma_child_bound(nodes@, i as int, 1);
    }
    let mut h0: usize = 0;
    let mut h1: usize = 0;
    let mut d0: usize = 0;
    let mut d1: usize = 0;
    if nodes[i].children.len() >= 1 {
        let c = nodes[i].children[0];
        let (h, d) = diam_rec(nodes, c);
        h0 = h;
        d0 = d;
    }
    if nodes[i].children.len() >= 2 {
        let c = nodes[i].children[1];
        let (h, d) = diam_rec(nodes, c);
        h1 = h;
        d1 = d;
    }
    let dd = if d0 >= d1 {
        d0
    } else {
        d1
    };
    let through = h0 + h1;
    let diameter = if dd >= through {
        dd
    } else {
        through
    };
    let height = 1 + if h0 >= h1 {
        h0
    } else {
        h1
    };
    (height, diameter)
}

impl BinaryTree {
    /// A random binary tree of the given number of nodes, rooted at node 0.
    /// Node ids are assigned in order; each node is attached below an
    /// earlier one, so the shape is a well-formed binary tree whatever the
    /// coin flips decide.
    pub fn new(size: usize) -> (t: BinaryTree)
        ensures
            t.nodes@.len() == size,
            t.root == 0,
            tree_wf(t.nodes@),
    {
        let mut nodes: Vec<TreeNode> = Vec::new();
        let mut k: usize = 0;
        while k < size
            invariant
                k <= size,
                nodes@.len() == k,
                forall|j: int|
                    0 <= j < k ==> (#[trigger] nodes@[j]).id == j && nodes@[j].children@.len()
                        == 0,
            decreases size - k,
        {
            nodes.push(TreeNode { id: k, children: Vec::new() });
            k = k + 1;
        }
        let mut available: VecDeque<usize> = VecDeque::new();
        if size > 0 {
            available.push_back(0);
        }
        let mut i: usize = 1;
        while i < size
            invariant
                size <= nodes@.len(),
                nodes@.len() == size,
                1 <= i,
                i > size || available@.len() >= 1,
                tree_wf(nodes@),
                forall|q: int|
                    0 <= q < available@.len() ==> #[trigger] available@[q] < i && available@[q]
                        < size,
                forall|q: int|
                    0 <= q < available@.len() ==> (#[trigger] nodes@[available@[q] as int]).children@.len()
                        == 0,
                forall|j: int|
                    i <= j < size ==> (#[trigger] nodes@[j]).children@.len() == 0,
                forall|p: int, q: int|
                    0 <= p < q < available@.len() ==> #[trigger] available@[p]
                        < #[trigger] available@[q],
            decreases size - i,
        {
            let parent = available.pop_front().unwrap();
            if rand_below(2) == 0 && i + 1 < size {
                let mut ch: Vec<usize> = Vec::new();
                ch.push(i);
                ch.push(i + 1);
                nodes.set(parent, TreeNode { id: parent, children: ch });
                available.push_back(i);
                available.push_back(i + 1);
                i = i + 2;
            } else {
                let mut ch: Vec<usize> = Vec::new();
                ch.push(i);
                nodes.set(parent, TreeNode { id: parent, children: ch });
                available.push_back(i);
                i = i + 1;
            }
        }
        BinaryTree { nodes, root: 0 }
    }

    /// Replaces this tree with a freshly built random tree of the given size.
    pub fn build_random_tree(&mut self, size: usize)
        ensures
            final(self).nodes@.len() == size,
            final(self).root == 0,
            tree_wf(final(self).nodes@),
    {
        *self = BinaryTree::new(size);
    }

    /// The node farthest from start in breadth-first order over child and
    /// parent links, with its distance; ties go to the lowest node id.
    /// Nodes that no link reaches keep distance 0.
    pub fn bfs_farthest(&self, start: usize) -> (r: (usize, usize))
        requires
            tree_wf(self.nodes@),
            start < self.nodes@.len(),
        ensures
            r.0 < self.nodes@.len(),
            r.1 < self.nodes@.len(),
    {
        let n = self.nodes.len();
        let mut visited: Vec<bool> = Vec::new();
        let mut dist: Vec<usize> = Vec::new();
        let mut k: usize = 0;
        while k < n
            invariant
                k <= n,
                visited@.len() == k,
                dist@.len() == k,
                forall|v: int| 0 <= v < k ==> !visited@[v],
                forall|v: int| 0 <= v < k ==> dist@[v] == 0,
            decreases n - k,
        {
            visited.push(false);
            dist.push(0);
            k = k + 1;
        }
        proof {
            lemma_count_false_all(visited@);
            lemma_count_update(visited@, start as int);
        }
        let mut queue: VecDeque<usize> = VecDeque::new();
        queue.push_back(start);
        visited.set(start, true);
        let ghost mut vc: int = count_trues(visited@);
        let mut steps: usize = 0;
        while steps < n
            invariant
                n == self.nodes@.len(),
                tree_wf(self.nodes@),
                visited@.len() == n,
                dist@.len() == n,
                vc == count_trues(visited@),
                1 <= vc <= n,
                forall|q: int| 0 <= q < queue@.len() ==> #[trigger] queue@[q] < n,
                forall|v: int| 0 <= v < n ==> #[trigger] dist@[v] + 1 <= vc,
            decreases n - steps,
        {
            let u = match queue.pop_front() {
                Some(u) => u,
                None => {
                    break ;
                },
            };
            proof {
                lemma_count_le(visited@);
            }
            match self.find_parent(u) {
                Some(p) => {
                    if !visited[p] {
                        proof {
                            lemma_count_false(visited@, p as int);
                            lemma_count_update(visited@, p as int);
                        }
                        visited.set(p, true);
                        let d = dist[u] + 1;
                        dist.set(p, d);
                        queue.push_back(p);
                        proof {
                            vc = vc + 1;
                        }
                    }
                },
                None => {},
            }
            let mut c: usize = 0;
            while c < self.nodes[u].children.len()
                invariant
                    n == self.nodes@.len(),
                    tree_wf(self.nodes@),
                    u < n,
                    c <= self.nodes@[u as int].children@.len(),
                    visited@.len() == n,
                    dist@.len() == n,
                    vc == count_trues(visited@),
                    1 <= vc <= n,
                    forall|q: int| 0 <= q < queue@.len() ==> #[trigger] queue@[q] < n,
                    forall|v: int| 0 <= v < n ==> #[trigger] dist@[v] + 1 <= vc,
                decreases self.nodes@[u as int].children@.len() - c,
            {
                let w = self.nodes[u].children[c];
                if !visited[w] {
                    proof {
                        lemma_count_false(visited@, w as int);
                        lemma_count_update(visited@, w as int);
                    }
                    visited.set(w, true);
                    let d = dist[u] + 1;
                    dist.set(w, d);
                    queue.push_back(w);
                    proof {
                        vc = vc + 1;
                    }
                }
                c = c + 1;
            }
            steps = steps + 1;
        }
        let mut best: usize = 0;
        let mut k2: usize = 1;
        while k2 < n
            invariant
                n == dist@.len(),
                n >= 1,
                best < k2 <= n,
                forall|v: int| 0 <= v < n ==> #[trigger] dist@[v] < n,
                forall|j: int| 0 <= j < k2 ==> dist@[j] <= dist@[best as int],
            decreases n - k2,
        {
            if dist[k2] > dist[best] {
                best = k2;
            }
            k2 = k2 + 1;
        }
        let d = dist[best];
        (best, d)
    }

    /// The diameter found by two breadth-first sweeps: the farthest node
    /// from the root, then the farthest distance from that node. On a tree
    /// whose nodes each hang from one parent this is the diameter in edges.
    pub fn compute_diameter(&self) -> (d: usize)
        requires
            tree_wf(self.nodes@),
            self.root < self.nodes@.len(),
        ensures
            d < self.nodes@.len(),
    {
        let (farthest_node, _) = self.bfs_farthest(self.root);
        let (_, diameter) = self.bfs_farthest(farthest_node);
        diameter
    }

    /// The diameter of the tree, or 0 for a tree with no nodes.
    pub fn find_diameter(&self) -> (d: i32)
        requires
            tree_wf(self.nodes@),
            self.nodes@.len() * 2 <= i32::MAX,
            self.nodes@.len() > 0 ==> self.root < self.nodes@.len(),
        ensures
            self.nodes@.len() == 0 ==> d == 0,
            self.nodes@.len() > 0 ==> d == diam_at(self.nodes@, self.root as int),
    {
        if self.nodes.len() == 0 {
            0
        } else {
            proof {
                lemma_height_bound(self.nodes@, self.root as int);
            }
            let (_, d) = diam_rec(&self.nodes, self.root);
            d as i32
        }
    }

    /// The first node that lists node_id among its children, if any.
    pub fn find_parent(&self, node_id: usize) -> (r: Option<usize>)
        ensures
            match r {
                Some(i) => i < self.nodes@.len() && lists_child(self.nodes@, i as int, node_id)
                    && forall|j: int| 0 <= j < i ==> !lists_child(self.nodes@, j, node_id),
                None => forall|j: int|
                    0 <= j < self.nodes@.len() ==> !lists_child(self.nodes@, j, node_id),
            },
    {
        let mut i: usize = 0;
        while i < self.nodes.len()
            invariant
                i <= self.nodes@.len(),
                forall|j: int| 0 <= j < i ==> !lists_child(self.nodes@, j, node_id),
            decreases self.nodes@.len() - i,
        {
            let cs = &self.nodes[i].children;
            let mut k: usize = 0;
            while k < cs.len()
                invariant
                    cs@ == self.nodes@[i as int].children@,
                    i < self.nodes@.len(),
                    k <= cs@.len(),
                    forall|j: int| 0 <= j < i ==> !lists_child(self.nodes@, j, node_id),
                    forall|q: int| 0 <= q < k ==> cs@[q] != node_id,
                decreases cs@.len() - k,
            {
                if cs[k] == node_id {
                    proof {
                        assert(lists_child(self.nodes@, i as int, node_id));
                    }
                    return Some(i);
                }
                k = k + 1;
            }
            proof {
                assert(!lists_child(self.nodes@, i as int, node_id));
            }
            i = i + 1;
        }
        None
    }

    /// The id of the root node, or None for a tree with no nodes.
    pub fn get_root_value(&self) -> (v: Option<i32>)
        requires
            self.root <= i32::MAX,
        ensures
            self.nodes@.len() == 0 ==> v is None,
            self.nodes@.len() > 0 ==> v == Some(self.root as i32),
    {
        if self.nodes.len() == 0 {
            None
        } else {
            Some(self.root as i32)
        }
    }
}

} // verus!
