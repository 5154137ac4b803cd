//! The directed graph of `petgraph` and its depth-first walker, as this
//! library uses them. Nothing in this file is proved: each contract says what
//! the source of `petgraph` shows of the function that the body calls.

use vstd::prelude::*;
use fixedbitset::FixedBitSet;
use petgraph::dot::Dot;
use petgraph::graph::{Graph, NodeIndex};
use petgraph::visit::Dfs;
use petgraph::Directed;

verus! {

/// `petgraph::graph::Graph`, carried through as an opaque value.
#[verifier::external_type_specification]
#[verifier::external_body]
#[verifier::reject_recursive_types(N)]
#[verifier::reject_recursive_types(E)]
#[verifier::reject_recursive_types(Ty)]
#[verifier::reject_recursive_types(Ix)]
pub struct ExGraph<N, E, Ty, Ix>(Graph<N, E, Ty, Ix>);

/// `petgraph::Directed`, the marker of a graph whose edges have a direction.
#[verifier::external_type_specification]
#[verifier::external_body]
pub struct ExDirected(Directed);

/// `petgraph::graph::NodeIndex`, the index of a node.
#[verifier::external_type_specification]
#[verifier::external_body]
#[verifier::reject_recursive_types(Ix)]
pub struct ExNodeIndex<Ix>(NodeIndex<Ix>);

/// `petgraph::visit::Dfs`, the depth-first walker, carried through as an
/// opaque value.
#[verifier::external_type_specification]
#[verifier::external_body]
#[verifier::reject_recursive_types(N)]
#[verifier::reject_recursive_types(VM)]
pub struct ExDfs<N, VM>(Dfs<N, VM>);

/// `fixedbitset::FixedBitSet`, in which the walker marks the nodes it has
/// visited.
#[verifier::external_type_specification]
#[verifier::external_body]
pub struct ExFixedBitSet(FixedBitSet);

/// The labels of the nodes of `graph`, by node index.
pub uninterp spec fn graph_labels(graph: Graph<&'static str, ()>) -> Seq<Seq<char>>;

/// The edges of `graph` in the order in which they were added, each as the
/// index of the node it leaves and of the node it leads to.
pub uninterp spec fn graph_edges(graph: Graph<&'static str, ()>) -> Seq<(int, int)>;

/// The nodes that `walk` has yet to look at, the next one last: its field
/// `stack`.
pub uninterp spec fn walk_stack(walk: Dfs<NodeIndex, FixedBitSet>) -> Seq<int>;

/// The nodes that `walk` has visited: those marked in its field
/// `discovered`.
pub uninterp spec fn walk_seen(walk: Dfs<NodeIndex, FixedBitSet>) -> Set<int>;

/// The number of nodes that `walk` can mark: the length of its field
/// `discovered`, which is the node count of the graph that it was made for.
pub uninterp spec fn walk_room(walk: Dfs<NodeIndex, FixedBitSet>) -> nat;

/// The text that `petgraph` writes for a graph with these labels and edges,
/// in the DOT language, every label and every edge weight in debug form.
pub uninterp spec fn dot_text(labels: Seq<Seq<char>>, edges: Seq<(int, int)>) -> Seq<char>;

/// The position in `stack` of the topmost node that is not in `seen`, or
/// `-1` where every node of `stack` is in `seen`.
pub open spec fn top_unseen(stack: Seq<int>, seen: Set<int>) -> int
    decreases stack.len(),
{
    if stack.len() == 0 {
        -1
    } else if !seen.contains(stack.last()) {
        stack.len() - 1
    } else {
        top_unseen(stack.drop_last(), seen)
    }
}

/// The nodes that the edges leaving `node` lead to, the latest edge first,
/// which is the order of `Graph::neighbors` on a directed graph, without those
/// nodes that are in `seen`.
pub open spec fn unseen_successors(edges: Seq<(int, int)>, node: int, seen: Set<int>) -> Seq<int>
    decreases edges.len(),
{
    if edges.len() == 0 {
        Seq::empty()
    } else {
        let earlier = unseen_successors(edges.drop_last(), node, seen);
        if edges.last().0 == node && !seen.contains(edges.last().1) {
            seq![edges.last().1] + earlier
        } else {
            earlier
        }
    }
}

/// `Graph::new`: a graph without nodes and without edges.
#[verifier::external_body]
pub(crate) fn graph_new() -> (graph: Graph<&'static str, ()>)
    ensures
        graph_labels(graph) == Seq::<Seq<char>>::empty(),
        graph_edges(graph) == Seq::<(int, int)>::empty(),
{
    Graph::new()
}

/// `Graph::add_node`: the new node comes last and gets the next index. It
/// panics where the graph has as many nodes as its index type can count,
/// which `requires` leaves out.
#[verifier::external_body]
pub(crate) fn graph_add_node(graph: &mut Graph<&'static str, ()>, label: &'static str) -> (node:
    usize)
    requires
        graph_labels(*old(graph)).len() < u32::MAX,
    ensures
        graph_labels(*final(graph)) == graph_labels(*old(graph)).push(label@),
        graph_edges(*final(graph)) == graph_edges(*old(graph)),
        node == graph_labels(*old(graph)).len(),
{
    graph.add_node(label).index()
}

/// `Graph::add_edge`: the new edge comes last; parallel edges are kept. It
/// panics where one of the two nodes is missing or the graph has as many
/// edges as its index type can count, which `requires` leaves out.
#[verifier::external_body]
pub(crate) fn graph_add_edge(graph: &mut Graph<&'static str, ()>, from: usize, to: usize)
    requires
        from < graph_labels(*old(graph)).len(),
        to < graph_labels(*old(graph)).len(),
        graph_edges(*old(graph)).len() < u32::MAX,
    ensures
        graph_labels(*final(graph)) == graph_labels(*old(graph)),
        graph_edges(*final(graph)) == graph_edges(*old(graph)).push((from as int, to as int)),
{
    graph.add_edge(NodeIndex::new(from), NodeIndex::new(to), ());
}

/// Indexing a `Graph` by a node index: the label of that node. It panics
/// where the node is missing, which `requires` leaves out.
#[verifier::external_body]
pub(crate) fn graph_label(graph: &Graph<&'static str, ()>, node: usize) -> (label: &'static str)
    requires
        node < graph_labels(*graph).len(),
    ensures
        label@ == graph_labels(*graph)[node as int],
{
    graph[NodeIndex::new(node)]
}

/// `Dfs::new`: a walker that has visited nothing and has only `start` to
/// look at, with room for the nodes of `graph`.
#[verifier::external_body]
pub(crate) fn walk_new(graph: &Graph<&'static str, ()>, start: usize) -> (walk: Dfs<
    NodeIndex,
    FixedBitSet,
>)
    requires
        start <= u32::MAX,
    ensures
        walk_stack(walk) == seq![start as int],
        walk_seen(walk) == Set::<int>::empty(),
        walk_room(walk) == graph_labels(*graph).len(),
{
    Dfs::new(graph, NodeIndex::new(start))
}

/// `Dfs::next`: nodes are taken off the stack until one comes that has not
/// been visited. That node is marked as visited and returned, and the nodes
/// behind its outgoing edges that have not been visited are put on the stack,
/// that of the latest edge first. Where no such node comes, the stack ends
/// empty and `None` is returned. It panics where a node taken off the stack
/// is one that the walker has no room for, which `requires` leaves out.
#[verifier::external_body]
pub(crate) fn walk_next(
    walk: &mut Dfs<NodeIndex, FixedBitSet>,
    graph: &Graph<&'static str, ()>,
) -> (node: Option<usize>)
    requires
        forall|i: int|
            0 <= i < walk_stack(*old(walk)).len() ==> 0 <= #[trigger] walk_stack(*old(walk))[i]
                < walk_room(*old(walk)),
    ensures
        walk_room(*final(walk)) == walk_room(*old(walk)),
        ({
            let stack = walk_stack(*old(walk));
            let seen = walk_seen(*old(walk));
            let at = top_unseen(stack, seen);
            if at < 0 {
                &&& node is None
                &&& walk_stack(*final(walk)) == Seq::<int>::empty()
                &&& walk_seen(*final(walk)) == seen
            } else {
                &&& node == Some(stack[at] as usize)
                &&& walk_seen(*final(walk)) == seen.insert(stack[at])
                &&& walk_stack(*final(walk)) == stack.take(at) + unseen_successors(
                    graph_edges(*graph),
                    stack[at],
                    seen.insert(stack[at]),
                )
            }
        }),
{
    match walk.next(graph) {
        Some(node) => Some(node.index()),
        None => None,
    }
}

/// `Dot::new` and its `Debug` form: the text of `graph` in the DOT language.
#[verifier::external_body]
pub(crate) fn graph_to_dot(graph: &Graph<&'static str, ()>) -> (text: String)
    ensures
        text@ == dot_text(graph_labels(*graph), graph_edges(*graph)),
{
    format!("{:?}", Dot::new(graph))
}

} // verus!
