use pensieve::graph::{EdgeType, Graph, NodeKind};

fn ids(nodes: &[&pensieve::graph::Node]) -> Vec<String> {
    nodes.iter().map(|n| n.id.clone()).collect()
}

fn s(v: &[&str]) -> Vec<String> {
    v.iter().map(|x| x.to_string()).collect()
}

fn sample() -> Graph {
    let mut g = Graph::new();
    g.add_collection("home", "Home", "Start here");
    g.add_child_collection("projects", "home", "Projects", "Things I build");
    g.add_child_post("alpha", "projects", "Alpha", "First", "# Alpha");
    g.add_child_post("beta", "projects", "Beta", "Second", "# Beta");
    g.add_child_post("rust", "home", "Rust", "Notes", "Rust notes");
    g
}

#[test]
fn node_kind_accessors() {
    let c = NodeKind::Collection;
    assert!(c.is_collection());
    assert_eq!(c.article(), None);
    assert_eq!(c.kind_name(), "collection");
    let p = NodeKind::Post { article: "text".to_string() };
    assert!(!p.is_collection());
    assert_eq!(p.article(), Some("text"));
    assert_eq!(p.kind_name(), "post");
}

#[test]
fn new_graph_is_empty() {
    let g = Graph::new();
    assert_eq!(g.node_count(), 0);
    assert_eq!(g.edges().len(), 0);
    assert!(g.get_node("home").is_none());
}

#[test]
fn root_collection_is_anchored_without_parent() {
    let mut g = Graph::new();
    g.add_collection("home", "Home", "Start");
    let n = g.get_node("home").unwrap();
    assert_eq!(n.title, "Home");
    assert_eq!(n.summary, "Start");
    assert!(n.anchored);
    assert!(n.is_fixed());
    assert!(n.parent.is_none());
    assert!(n.connections.is_empty());
    assert!(n.kind.is_collection());
    assert_eq!(n.article(), None);
}

#[test]
fn root_post_has_article() {
    let mut g = Graph::new();
    g.add_post("p", "Post", "Sum", "body");
    let n = g.get_node("p").unwrap();
    assert_eq!(n.article(), Some("body"));
    assert!(n.anchored);
}

#[test]
fn adding_same_id_replaces_node_in_place() {
    let mut g = Graph::new();
    g.add_collection("a", "First", "");
    g.add_collection("b", "B", "");
    g.add_collection("a", "Second", "");
    assert_eq!(g.node_count(), 2);
    assert_eq!(g.get_node("a").unwrap().title, "Second");
    assert_eq!(g.nodes()[0].id, "a");
}

#[test]
fn child_links_to_parent() {
    let g = sample();
    let alpha = g.get_node("alpha").unwrap();
    assert_eq!(alpha.parent.as_deref(), Some("projects"));
    assert_eq!(alpha.connections, s(&["projects"]));
    assert!(!alpha.anchored);
    assert_eq!(g.get_parent("alpha").unwrap().id, "projects");
    assert!(g.get_parent("home").is_none());
    assert!(g.get_parent("missing").is_none());
    assert!(g.has_children("projects"));
    assert!(!g.has_children("alpha"));
    assert_eq!(ids(&g.get_children("projects")), s(&["alpha", "beta"]));
    assert_eq!(ids(&g.get_children("home")), s(&["projects", "rust"]));
    let e = &g.edges()[1];
    assert_eq!(e.from, "projects");
    assert_eq!(e.to, "alpha");
    assert_eq!(e.edge_type, EdgeType::Directed);
    assert!(e.label.is_none());
}

#[test]
fn child_of_missing_parent_keeps_edge() {
    let mut g = Graph::new();
    g.add_child_post("orphan", "nowhere", "O", "", "");
    assert!(g.get_parent("orphan").is_none());
    assert!(g.has_children("nowhere"));
    assert_eq!(g.get_children("nowhere").len(), 1);
    assert_eq!(g.child_ids(&"nowhere".to_string()), s(&["orphan"]));
}

#[test]
fn roots_in_node_order() {
    let mut g = sample();
    g.add_post("solo", "Solo", "", "");
    assert_eq!(ids(&g.get_root_nodes()), s(&["home", "solo"]));
}

#[test]
fn readded_child_is_no_root_and_keeps_parent() {
    let mut g = sample();
    g.add_collection("alpha", "Alpha again", "");
    assert!(g.get_node("alpha").unwrap().parent.is_none());
    assert_eq!(ids(&g.get_root_nodes()), s(&["home"]));
    assert_eq!(g.get_parent("alpha").unwrap().id, "projects");
}

#[test]
fn parent_follows_last_directed_edge() {
    let mut g = sample();
    g.add_child_post("alpha", "rust", "Alpha", "", "");
    assert_eq!(g.get_parent("alpha").unwrap().id, "rust");
    g.add_association("beta", "home", None);
    assert_eq!(g.get_parent("beta").unwrap().id, "projects");
}

#[test]
fn parent_edge_from_missing_node_gives_none() {
    let mut g = sample();
    g.add_child_post("beta", "gone", "Beta", "", "");
    assert!(g.get_parent("beta").is_none());
    assert_eq!(ids(&g.get_root_nodes()), s(&["home"]));
}

#[test]
fn association_connects_both_once() {
    let mut g = sample();
    g.add_association("alpha", "rust", Some("uses-language"));
    g.add_association("alpha", "rust", None);
    assert_eq!(g.get_node("alpha").unwrap().connections, s(&["projects", "rust"]));
    assert_eq!(g.get_node("rust").unwrap().connections, s(&["home", "alpha"]));
    let n = g.edges().len();
    assert_eq!(g.edges()[n - 2].edge_type, EdgeType::Undirected);
    assert_eq!(g.edges()[n - 2].label.as_deref(), Some("uses-language"));
    assert!(g.edges()[n - 1].label.is_none());
    assert_eq!(ids(&g.get_associations("alpha")), s(&["rust", "rust"]));
    assert_eq!(ids(&g.get_associations("rust")), s(&["alpha", "alpha"]));
    assert!(g.get_associations("beta").is_empty());
}

#[test]
fn association_with_missing_node() {
    let mut g = sample();
    g.add_association("alpha", "ghost", None);
    assert_eq!(g.get_node("alpha").unwrap().connections, s(&["projects", "ghost"]));
    assert!(g.get_associations("alpha").is_empty());
}

#[test]
fn tags_and_tag_queries() {
    let mut g = sample();
    g.tag("alpha", "lang", "rust");
    g.tag("beta", "lang", "rust");
    g.tag("beta", "topic", "search");
    g.tag("rust", "lang", "rust");
    g.tag("missing", "lang", "rust");
    assert_eq!(g.get_nodes_with_tag("lang", "rust"), s(&["alpha", "beta", "rust"]));
    assert_eq!(g.get_nodes_with_tag("topic", "search"), s(&["beta"]));
    assert!(g.get_nodes_with_tag("topic", "none").is_empty());
    assert_eq!(g.get_nodes_with_shared_tags("alpha"), s(&["beta", "rust"]));
    assert!(g.get_nodes_with_shared_tags("home").is_empty());
    assert!(g.get_nodes_with_shared_tags("missing").is_empty());
}

#[test]
fn tag_match_scores() {
    let mut g = sample();
    g.tag("beta", "lang", "rust");
    g.tag("beta", "topic", "search");
    let active = vec![
        ("lang".to_string(), "rust".to_string()),
        ("topic".to_string(), "graphs".to_string()),
        ("topic".to_string(), "search".to_string()),
    ];
    assert_eq!(g.tag_match_score("beta", &active), (2, 3));
    assert_eq!(g.tag_match_score("alpha", &active), (0, 3));
    assert_eq!(g.tag_match_score("missing", &active), (0, 3));
    assert_eq!(g.tag_match_score("beta", &[]), (0, 0));
}

#[test]
fn shared_tag_first_in_first_nodes_order() {
    let mut g = sample();
    g.tag("alpha", "a", "1");
    g.tag("alpha", "b", "2");
    g.tag("beta", "b", "2");
    g.tag("beta", "a", "1");
    assert_eq!(g.nodes_share_tag("alpha", "beta"), Some(("a".to_string(), "1".to_string())));
    assert_eq!(g.nodes_share_tag("beta", "alpha"), Some(("b".to_string(), "2".to_string())));
    assert_eq!(g.nodes_share_tag("alpha", "rust"), None);
    assert_eq!(g.nodes_share_tag("rust", "alpha"), None);
    assert_eq!(g.nodes_share_tag("alpha", "missing"), None);
}

#[test]
fn all_shared_tags_counts_each_pairing() {
    let mut g = sample();
    g.tag("alpha", "a", "1");
    g.tag("alpha", "a", "1");
    g.tag("alpha", "c", "3");
    g.tag("beta", "a", "1");
    g.tag("beta", "c", "3");
    let shared = g.get_all_shared_tags("alpha", "beta");
    assert_eq!(
        shared,
        vec![
            ("a".to_string(), "1".to_string()),
            ("a".to_string(), "1".to_string()),
            ("c".to_string(), "3".to_string()),
        ]
    );
    assert!(g.get_all_shared_tags("alpha", "missing").is_empty());
}

#[test]
fn inferred_edges_for_each_pair_and_tag() {
    let mut g = sample();
    g.tag("alpha", "lang", "rust");
    g.tag("beta", "lang", "rust");
    g.tag("rust", "lang", "rust");
    g.tag("beta", "topic", "x");
    g.tag("rust", "topic", "x");
    let vis = s(&["alpha", "beta", "rust"]);
    let edges = g.get_inferred_edges(&vis);
    let t = |a: &str, b: &str, k: &str, v: &str| (a.to_string(), b.to_string(), k.to_string(), v.to_string());
    assert_eq!(
        edges,
        vec![
            t("alpha", "beta", "lang", "rust"),
            t("alpha", "rust", "lang", "rust"),
            t("beta", "rust", "lang", "rust"),
            t("beta", "rust", "topic", "x"),
        ]
    );
    assert!(g.get_inferred_edges(&s(&["alpha"])).is_empty());
    assert!(g.get_inferred_edges(&[]).is_empty());
}

#[test]
fn subgraph_children_then_shared_tag_nodes() {
    let mut g = sample();
    g.tag("alpha", "lang", "rust");
    g.tag("rust", "lang", "rust");
    g.tag("beta", "lang", "rust");
    assert_eq!(g.get_subgraph_nodes("projects"), s(&["alpha", "beta", "rust"]));
    assert_eq!(g.get_subgraph_nodes("home"), s(&["projects", "rust", "alpha", "beta"]));
    assert!(g.get_subgraph_nodes("alpha").is_empty());
}

#[test]
fn visible_edges_need_both_ends() {
    let g = sample();
    let vis = s(&["projects", "alpha"]);
    let edges = g.get_visible_edges(&vis);
    assert_eq!(edges.len(), 1);
    assert_eq!(edges[0].from, "projects");
    assert_eq!(edges[0].to, "alpha");
    assert!(g.get_visible_edges(&s(&["alpha", "beta"])).is_empty());
}

#[test]
fn attraction_partners_connections_then_reverse_edges() {
    let g = sample();
    // projects is connected to home; edges into projects: home -> projects
    // (home is already a connection, so it is not repeated).
    assert_eq!(g.attraction_partners("projects"), s(&["home"]));
    // home has no connections; edges into home: none.
    assert!(g.attraction_partners("home").is_empty());
    assert!(g.attraction_partners("missing").is_empty());
    let mut g2 = Graph::new();
    g2.add_collection("a", "A", "");
    g2.add_collection("b", "B", "");
    g2.add_association("a", "b", None);
    g2.add_association("b", "a", None);
    assert_eq!(g2.attraction_partners("a"), s(&["b"]));
    let mut g3 = Graph::new();
    g3.add_collection("x", "X", "");
    g3.add_child_post("y", "x", "Y", "", "");
    g3.add_child_post("y", "x", "Y", "", "");
    // x has no connections; two directed edges lead into y, whose only
    // connection is x, so nothing is added for y beyond x.
    assert_eq!(g3.attraction_partners("y"), s(&["x"]));
}

#[test]
fn text_box_estimates() {
    let mut g = Graph::new();
    g.add_post("p", "Hello", "a\nbb", "");
    let n = g.get_node("p").unwrap();
    assert_eq!(n.estimate_bounds(), (52, 75));
    assert_eq!(n.bounds_offsets(), (15, -10, 67, 65));
    g.add_post("long", &"x".repeat(50), "", "");
    assert_eq!(g.get_node("long").unwrap().estimate_bounds(), (292, 33));
    g.add_post("crlf", "", "abc\r\nd\r", "");
    // lines: "abc" and "d\r" (the last one is not ended by a line feed)
    assert_eq!(g.get_node("crlf").unwrap().estimate_bounds(), (36, 75));
    g.add_post("nl", "é", "\n\n", "");
    assert_eq!(g.get_node("nl").unwrap().estimate_bounds(), (28, 75));
    g.add_post("tail", "", "ab\n", "");
    assert_eq!(g.get_node("tail").unwrap().estimate_bounds(), (28, 54));
}

#[test]
fn dragging_flags() {
    let mut g = sample();
    g.set_dragged("home", true);
    g.set_dragged("beta", true);
    g.set_dragged("missing", true);
    assert!(!g.get_node("home").unwrap().is_fixed());
    assert_eq!(g.dragged_node_ids(), s(&["home", "beta"]));
    assert_eq!(g.end_drags(), s(&["home", "beta"]));
    assert!(g.dragged_node_ids().is_empty());
    assert!(g.get_node("home").unwrap().is_fixed());
}
