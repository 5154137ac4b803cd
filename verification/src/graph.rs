//! A small directed graph with fixed contents, kept in a `petgraph` graph:
//! six labelled nodes and five edges. It can be walked depth first from its
//! first node and written out in the DOT language.

use vstd::prelude::*;
use petgraph::graph::Graph;
use crate::digraph::{
    dot_text, graph_add_edge, graph_add_node, graph_edges, graph_label, graph_labels, graph_new,
    graph_to_dot, top_unseen, unseen_successors, walk_new, walk_next, walk_room, walk_seen,
    walk_stack,
};

verus! {

/// The labels of the six nodes, by node index.
pub open spec fn demo_labels() -> Seq<Seq<char>> {
    seq!["1"@, "2"@, "3"@, "4"@, "5"@, "6"@]
}

/// The five edges in the order in which they are added, by node index.
pub open spec fn demo_edges() -> Seq<(int, int)> {
    seq![(0int, 1int), (0int, 2int), (1int, 3int), (2int, 4int), (3int, 5int)]
}

/// What each of `labels` reads.
pub open spec fn texts(labels: Seq<&'static str>) -> Seq<Seq<char>> {
    Seq::new(labels.len(), |i: int| labels[i]@)
}

/// How many of the nodes `0 .. n` are not in `seen`.
pub open spec fn unseen_count(seen: Set<int>, n: nat) -> nat
    decreases n,
{
    if n == 0 {
        0
    } else if seen.contains(n - 1) {
        unseen_count(seen, (n - 1) as nat)
    } else {
        unseen_count(seen, (n - 1) as nat) + 1
    }
}

/// The nodes that a depth-first walk over a graph of `n` nodes visits from
/// here on, in the order of the visits: `stack` holds the nodes it has yet to
/// look at, the next one last, and `seen` those it has visited. The walk takes
/// the topmost node of the stack that it has not visited, visits it, and puts
/// the unvisited nodes behind its outgoing edges in its place.
pub open spec fn walk_order(edges: Seq<(int, int)>, stack: Seq<int>, seen: Set<int>, n: nat) -> Seq<
    int,
>
    decreases unseen_count(seen, n),
    via walk_order_ends
{
    let at = top_unseen(stack, seen);
    if 0 <= at < stack.len() && 0 <= stack[at] < n && !seen.contains(stack[at]) {
        let node = stack[at];
        let seen_then = seen.insert(node);
        let stack_then = stack.take(at) + unseen_successors(edges, node, seen_then);
        seq![node] + walk_order(edges, stack_then, seen_then, n)
    } else {
        Seq::empty()
    }
}

#[via_fn]
proof fn walk_order_ends(edges: Seq<(int, int)>, stack: Seq<int>, seen: Set<int>, n: nat) {
    let at = top_unseen(stack, seen);
    if 0 <= at < stack.len() && 0 <= stack[at] < n && !seen.contains(stack[at]) {
        lemma_visit_counts(seen, n, stack[at]);
    }
}

/// A visit to a node that was not visited before leaves one node fewer to
/// visit.
proof fn lemma_visit_counts(seen: Set<int>, n: nat, node: int)
    requires
        0 <= node < n,
        !seen.contains(node),
    ensures
        unseen_count(seen.insert(node), n) + 1 == unseen_count(seen, n),
    decreases n,
{
    if node < n - 1 {
        lemma_visit_counts(seen, (n - 1) as nat, node);
    } else {
        lemma_count_above(seen, (n - 1) as nat, node);
    }
}

/// Whether a node at or above `n` is visited does not change the count for
/// the nodes `0 .. n`.
proof fn lemma_count_above(seen: Set<int>, n: nat, node: int)
    requires
        n <= node,
    ensures
        unseen_count(seen.insert(node), n) == unseen_count(seen, n),
    decreases n,
{
    if n > 0 {
        lemma_count_above(seen, (n - 1) as nat, node);
    }
}

/// The topmost unvisited node of a stack, where there is one, is a node of
/// the stack that is not in `seen`.
proof fn lemma_top_unseen(stack: Seq<int>, seen: Set<int>)
    ensures
        -1 <= top_unseen(stack, seen) < stack.len(),
        top_unseen(stack, seen) >= 0 ==> !seen.contains(stack[top_unseen(stack, seen)]),
    decreases stack.len(),
{
    if stack.len() > 0 && seen.contains(stack.last()) {
        lemma_top_unseen(stack.drop_last(), seen);
    }
}

/// Where every edge leads to one of the nodes `0 .. n`, so does every
/// successor.
proof fn lemma_successors_are_nodes(edges: Seq<(int, int)>, node: int, seen: Set<int>, n: nat)
    requires
        forall|i: int| 0 <= i < edges.len() ==> 0 <= (#[trigger] edges[i]).1 < n,
    ensures
        forall|j: int|
            0 <= j < unseen_successors(edges, node, seen).len() ==> 0
                <= #[trigger] unseen_successors(edges, node, seen)[j] < n,
    decreases edges.len(),
{
    if edges.len() > 0 {
        lemma_successors_are_nodes(edges.drop_last(), node, seen, n);
        let earlier = unseen_successors(edges.drop_last(), node, seen);
        let all = unseen_successors(edges, node, seen);
        assert(0 <= edges[edges.len() - 1].1 < n);
        assert forall|j: int| 0 <= j < all.len() implies 0 <= #[trigger] all[j] < n by {
            if all.len() > earlier.len() && j > 0 {
                assert(all[j] == earlier[j - 1]);
            }
        }
    }
}

/// The order in which the walk from the first node visits the six nodes.
pub open spec fn demo_walk() -> Seq<int> {
    seq![0int, 1int, 3int, 5int, 2int, 4int]
}

/// The depth-first walk over the six nodes and five edges, from the first
/// node, visits every node, in the order of `demo_walk`.
pub proof fn lemma_demo_walk()
    ensures
        walk_order(demo_edges(), seq![0int], Set::empty(), 6) == demo_walk(),
{
    let e = demo_edges();
    reveal_with_fuel(unseen_successors, 6);
    reveal_with_fuel(top_unseen, 3);
    let d0 = Set::<int>::empty();
    let d1 = d0.insert(0);
    let d2 = d1.insert(1);
    let d3 = d2.insert(3);
    let d4 = d3.insert(5);
    let d5 = d4.insert(2);
    let d6 = d5.insert(4);
    let s0 = seq![0int];
    let s1 = seq![2int, 1int];
    let s2 = seq![2int, 3int];
    let s3 = seq![2int, 5int];
    let s4 = seq![2int];
    let s5 = seq![4int];
    let s6 = Seq::<int>::empty();
    assert(s0.take(0) + unseen_successors(e, 0, d1) =~= s1);
    assert(s1.take(1) + unseen_successors(e, 1, d2) =~= s2);
    assert(s2.take(1) + unseen_successors(e, 3, d3) =~= s3);
    assert(s3.take(1) + unseen_successors(e, 5, d4) =~= s4);
    assert(s4.take(0) + unseen_successors(e, 2, d5) =~= s5);
    assert(s5.take(0) + unseen_successors(e, 4, d6) =~= s6);
    assert(walk_order(e, s6, d6, 6) =~= Seq::<int>::empty());
    assert(walk_order(e, s5, d5, 6) =~= seq![4int]);
    assert(walk_order(e, s4, d4, 6) =~= seq![2int, 4int]);
    assert(walk_order(e, s3, d3, 6) =~= seq![5int, 2int, 4int]);
    assert(walk_order(e, s2, d2, 6) =~= seq![3int, 5int, 2int, 4int]);
    assert(walk_order(e, s1, d1, 6) =~= seq![1int, 3int, 5int, 2int, 4int]);
    assert(walk_order(e, s0, d0, 6) =~= demo_walk());
}

/// The graph.
pub struct MyGraph {
    graph: Graph<&'static str, ()>,
}

impl MyGraph {
    /// The labels of the nodes, by node index.
    pub closed spec fn labels(&self) -> Seq<Seq<char>> {
        graph_labels(self.graph)
    }

    /// The edges in the order in which they were added, by node index.
    pub closed spec fn edges(&self) -> Seq<(int, int)> {
        graph_edges(self.graph)
    }

    /// The invariant: the graph holds the six nodes and the five edges.
    pub open spec fn wf(&self) -> bool {
        &&& self.labels() == demo_labels()
        &&& self.edges() == demo_edges()
    }

    /// Builds the graph: the nodes "1" to "6", and the edges from "1" to "2"
    /// and "3", from "2" to "4", from "3" to "5" and from "4" to "6".
    pub fn new() -> (graph: Self)
        ensures
            graph.wf(),
    {
        let mut graph = graph_new();
        let n1 = graph_add_node(&mut graph, "1");
        let n2 = graph_add_node(&mut graph, "2");
        let n3 = graph_add_node(&mut graph, "3");
        let n4 = graph_add_node(&mut graph, "4");
        let n5 = graph_add_node(&mut graph, "5");
        let n6 = graph_add_node(&mut graph, "6");
        graph_add_edge(&mut graph, n1, n2);
        graph_add_edge(&mut graph, n1, n3);
        graph_add_edge(&mut graph, n2, n4);
        graph_add_edge(&mut graph, n3, n5);
        graph_add_edge(&mut graph, n4, n6);
        assert(graph_labels(graph) =~= demo_labels());
        assert(graph_edges(graph) =~= demo_edges());
        MyGraph { graph }
    }

    /// The labels of the nodes in the order in which a depth-first walk from
    /// the node "1" visits them: "1", "2", "4", "6", "3", "5".
    pub fn dfs_from_node1(&self) -> (visited_nodes: Vec<&'static str>)
        requires
            self.wf(),
        ensures
            texts(visited_nodes@) == seq!["1"@, "2"@, "4"@, "6"@, "3"@, "5"@],
    {
        let mut walk = walk_new(&self.graph, 0);
        let mut visited_nodes: Vec<&'static str> = Vec::new();
        let ghost mut visited: Seq<int> = Seq::empty();
        let ghost edges = demo_edges();
        loop
            invariant
                self.wf(),
                edges == demo_edges(),
                walk_room(walk) == 6,
                forall|i: int|
                    0 <= i < walk_stack(walk).len() ==> 0 <= #[trigger] walk_stack(walk)[i] < 6,
                visited + walk_order(edges, walk_stack(walk), walk_seen(walk), 6) == walk_order(
                    edges,
                    seq![0int],
                    Set::empty(),
                    6,
                ),
                visited.len() == visited_nodes@.len(),
                forall|i: int|
                    0 <= i < visited.len() ==> 0 <= #[trigger] visited[i] < 6
                        && visited_nodes@[i]@ == demo_labels()[visited[i]],
            ensures
                visited == walk_order(edges, seq![0int], Set::empty(), 6),
                visited.len() == visited_nodes@.len(),
                forall|i: int|
                    0 <= i < visited.len() ==> 0 <= #[trigger] visited[i] < 6
                        && visited_nodes@[i]@ == demo_labels()[visited[i]],
            decreases unseen_count(walk_seen(walk), 6),
        {
            let ghost stack = walk_stack(walk);
            let ghost seen = walk_seen(walk);
            proof {
                lemma_top_unseen(stack, seen);
            }
            match walk_next(&mut walk, &self.graph) {
                Some(node) => {
                    proof {
                        lemma_visit_counts(seen, 6, node as int);
                        lemma_successors_are_nodes(edges, node as int, seen.insert(node as int), 6);
                        assert(visited.push(node as int) + walk_order(
                            edges,
                            walk_stack(walk),
                            walk_seen(walk),
                            6,
                        ) =~= visited + walk_order(edges, stack, seen, 6));
                        visited = visited.push(node as int);
                    }
                    visited_nodes.push(graph_label(&self.graph, node));
                },
                None => {
                    proof {
                        assert(visited + walk_order(edges, stack, seen, 6) =~= visited);
                    }
                    break ;
                },
            }
        }
        proof {
            lemma_demo_walk();
            assert(texts(visited_nodes@) =~= seq!["1"@, "2"@, "4"@, "6"@, "3"@, "5"@]);
        }
        visited_nodes
    }

    /// The graph in the DOT language.
    pub fn to_dot(&self) -> (text: String)
        requires
            self.wf(),
        ensures
            text@ == dot_text(demo_labels(), demo_edges()),
    {
        graph_to_dot(&self.graph)
    }
}

} // verus!
