use vstd::prelude::*;
use crate::random::rand_below;

verus! {

/// A directed graph on the vertices 0..vertices, kept as adjacency lists.
pub struct Graph {
    pub vertices: usize,
    pub adjacency_list: Vec<Vec<usize>>,
}

/// There is one adjacency list per vertex and every recorded edge target
/// is a vertex of the graph.
pub open spec fn graph_ok(g: &Graph) -> bool {
    &&& g.adjacency_list@.len() == g.vertices
    &&& forall|i: int, j: int|
        0 <= i < g.adjacency_list@.len() && 0 <= j < g.adjacency_list@[i]@.len()
            ==> #[trigger] g.adjacency_list@[i]@[j] < g.vertices
}

/// The sum of a sequence of counters.
pub open spec fn sum_of(s: Seq<usize>) -> int
    decreases s.len(),
{
    if s.len() == 0 {
        0
    } else {
        sum_of(s.drop_last()) + s.last()
    }
}

proof fn lemma_sum_update(s: Seq<usize>, i: int, v: usize)
    requires
        0 <= i < s.len(),
    ensures
        sum_of(s.update(i, v)) == sum_of(s) - s[i] + v,
    decreases s.len(),
{
    if i == s.len() - 1 {
        assert(s.update(i, v).drop_last() =~= s.drop_last());
    } else {
        assert(s.update(i, v).drop_last() =~= s.drop_last().update(i, v));
        lemma_sum_update(s.drop_last(), i, v);
    }
}

impl Graph {
    /// A graph with the given number of vertices and no edges.
    pub fn new(vertices: usize) -> (g: Graph)
        ensures
            g.vertices == vertices,
            g.adjacency_list@.len() == vertices,
            forall|i: int|
                0 <= i < vertices ==> (#[trigger] g.adjacency_list@[i])@.len() == 0,
            graph_ok(&g),
    {
        let mut adjacency_list: Vec<Vec<usize>> = Vec::new();
        let mut i: usize = 0;
        while i < vertices
            invariant
                i <= vertices,
                adjacency_list@.len() == i,
                forall|k: int| 0 <= k < i ==> (#[trigger] adjacency_list@[k])@.len() == 0,
            decreases vertices - i,
        {
            adjacency_list.push(Vec::new());
            i = i + 1;
        }
        Graph { vertices, adjacency_list }
    }

    /// Records the directed edge from -> to.
    pub fn add_edge(&mut self, from: usize, to: usize)
        requires
            from < old(self).adjacency_list@.len(),
        ensures
            final(self).vertices == old(self).vertices,
            final(self).adjacency_list@.len() == old(self).adjacency_list@.len(),
            final(self).adjacency_list@[from as int]@ == old(self).adjacency_list@[from as int]@.push(
                to,
            ),
            forall|i: int|
                0 <= i < old(self).adjacency_list@.len() && i != from
                    ==> #[trigger] final(self).adjacency_list@[i] == old(self).adjacency_list@[i],
    {
        self.adjacency_list[from].push(to);
    }

    /// Runs one random walk of the given number of steps from start and
    /// returns the vertex where it ends. At each step the walk follows a
    /// random outgoing edge with probability 8 in 10, and otherwise (or
    /// from a sink) jumps to a uniformly random vertex. Whatever the random
    /// choices, the walk stays inside the graph.
    pub fn walk_simulation(&self, start: usize, steps: usize) -> (end: usize)
        requires
            graph_ok(self),
            start < self.vertices,
        ensures
            end < self.vertices,
    {
        let mut current = start;
        let mut step: usize = 0;
        while step < steps
            invariant
                graph_ok(self),
                current < self.vertices,
            decreases steps - step,
        {
            if self.adjacency_list[current].len() == 0 {
                current = rand_below(self.vertices);
            } else {
                if rand_below(10) < 8 {
                    let edges = &self.adjacency_list[current];
                    current = edges[rand_below(edges.len())];
                } else {
                    current = rand_below(self.vertices);
                }
            }
            step = step + 1;
        }
        current
    }

    /// Runs num_walks random walks from every vertex and counts where they
    /// end: slot v of the result tells how many of the walks ended at v.
    /// The counts always add up to one count per walk, vertices * num_walks
    /// in all, whatever the random choices along the way.
    pub fn walk_visit_counts(&self, num_walks: usize, steps_per_walk: usize) -> (counts: Vec<
        usize,
    >)
        requires
            graph_ok(self),
            self.vertices * num_walks <= usize::MAX,
        ensures
            counts@.len() == self.vertices,
            sum_of(counts@) == self.vertices * num_walks,
    {
        let mut counts: Vec<usize> = Vec::new();
        let mut i: usize = 0;
        while i < self.vertices
            invariant
                i <= self.vertices,
                counts@.len() == i,
                sum_of(counts@) == 0,
                forall|k: int| 0 <= k < i ==> counts@[k] == 0,
            decreases self.vertices - i,
        {
            proof {
                assert(counts@.push(0).drop_last() =~= counts@);
            }
            counts.push(0);
            i = i + 1;
        }
        let mut start: usize = 0;
        while start < self.vertices
            invariant
                graph_ok(self),
                self.vertices * num_walks <= usize::MAX,
                start <= self.vertices,
                counts@.len() == self.vertices,
                sum_of(counts@) == start * num_walks,
            decreases self.vertices - start,
        {
            let mut w: usize = 0;
            while w < num_walks
                invariant
                    graph_ok(self),
                    self.vertices * num_walks <= usize::MAX,
                    start < self.vertices,
                    w <= num_walks,
                    counts@.len() == self.vertices,
                    sum_of(counts@) == start * num_walks + w,
                decreases num_walks - w,
            {
                let end = self.walk_simulation(start, steps_per_walk);
                proof {
                    assert(start * num_walks + num_walks <= self.vertices * num_walks)
                        by (nonlinear_arith)
                        requires
                            start < self.vertices,
                    ;
                    lemma_sum_bound(counts@, end as int);
                    lemma_sum_update(counts@, end as int, (counts@[end as int] + 1) as usize);
                }
                let c = counts[end];
                counts.set(end, c + 1);
                w = w + 1;
            }
            proof {
                assert((start + 1) * num_walks == start * num_walks + num_walks)
                    by (nonlinear_arith);
            }
            start = start + 1;
        }
        counts
    }
}

proof fn lemma_sum_bound(s: Seq<usize>, i: int)
    requires
        0 <= i < s.len(),
    ensures
        s[i] <= sum_of(s),
    decreases s.len(),
{
    if i == s.len() - 1 {
        lemma_sum_nonneg(s.drop_last());
    } else {
        lemma_sum_bound(s.drop_last(), i);
    }
}

proof fn lemma_sum_nonneg(s: Seq<usize>)
    ensures
        sum_of(s) >= 0,
    decreases s.len(),
{
    if s.len() > 0 {
        lemma_sum_nonneg(s.drop_last());
    }
}

} // verus!
