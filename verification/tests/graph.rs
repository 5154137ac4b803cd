use data_structures::graph::MyGraph;

#[test]
fn test_dfs_visits_all_nodes() {
    let g = MyGraph::new();
    let result = g.dfs_from_node1();

    let mut sorted_result = result.clone();
    sorted_result.sort();

    assert_eq!(
        sorted_result,
        vec!["1", "2", "3", "4", "5", "6"],
        "DFS deve visitar todos os nós"
    );
}

#[test]
fn test_dfs_starts_at_node1() {
    let g = MyGraph::new();
    assert_eq!(
        g.dfs_from_node1().first(),
        Some(&"1"),
        "DFS deve iniciar no nó 1"
    );
}

#[test]
fn dfs_goes_down_the_branch_of_the_first_edge_first() {
    let g = MyGraph::new();
    assert_eq!(g.dfs_from_node1(), vec!["1", "2", "4", "6", "3", "5"]);
}

#[test]
fn dfs_gives_the_same_order_each_time() {
    let g = MyGraph::new();
    let first = g.dfs_from_node1();
    let second = g.dfs_from_node1();
    assert_eq!(first, second);
    assert_eq!(MyGraph::new().dfs_from_node1(), first);
}

#[test]
fn to_dot_lists_the_nodes_and_then_the_edges() {
    let g = MyGraph::new();
    let expected = [
        "digraph {",
        "    0 [ label = \"\\\"1\\\"\" ]",
        "    1 [ label = \"\\\"2\\\"\" ]",
        "    2 [ label = \"\\\"3\\\"\" ]",
        "    3 [ label = \"\\\"4\\\"\" ]",
        "    4 [ label = \"\\\"5\\\"\" ]",
        "    5 [ label = \"\\\"6\\\"\" ]",
        "    0 -> 1 [ label = \"()\" ]",
        "    0 -> 2 [ label = \"()\" ]",
        "    1 -> 3 [ label = \"()\" ]",
        "    2 -> 4 [ label = \"()\" ]",
        "    3 -> 5 [ label = \"()\" ]",
        "}",
        "",
    ]
    .join("\n");
    assert_eq!(g.to_dot(), expected);
}

#[test]
fn to_dot_gives_the_same_text_each_time() {
    let g = MyGraph::new();
    assert_eq!(g.to_dot(), g.to_dot());
    assert_eq!(g.to_dot(), MyGraph::new().to_dot());
}
