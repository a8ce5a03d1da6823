use pensieve::graph::Graph;
use pensieve::nav::AppState;

fn s(v: &[&str]) -> Vec<String> {
    v.iter().map(|x| x.to_string()).collect()
}

fn tag(k: &str, v: &str) -> (String, String) {
    (k.to_string(), v.to_string())
}

fn sample() -> Graph {
    let mut g = Graph::new();
    g.add_collection("home", "Home", "");
    g.add_child_collection("projects", "home", "Projects", "");
    g.add_child_collection("beta", "projects", "Beta", "");
    g.add_child_post("search", "beta", "Search", "", "");
    g.add_child_post("rust", "home", "Rust", "", "");
    g.add_collection("about", "About", "");
    g.tag("search", "lang", "rust");
    g.tag("rust", "lang", "rust");
    g.tag("rust", "topic", "memory");
    g
}

fn settle(st: &mut AppState) {
    assert!(st.finish_fade_out());
    st.finish_fade_in();
}

#[test]
fn starts_home_at_root() {
    let st = AppState::new();
    assert_eq!(st.current_node.as_deref(), Some("home"));
    assert!(!st.is_in_subgraph());
    assert!(st.get_breadcrumb_path().is_empty());
    assert!(!st.is_rail_mode());
    assert!(!st.has_active_tags());
    assert_eq!(st.get_depth_context(), None);
    assert_eq!(st.transition_direction, 0);
}

#[test]
fn drill_down_and_back_up() {
    let g = sample();
    let mut st = AppState::new();
    st.drill_into(&g, "projects");
    assert_eq!(st.transition_direction, -1);
    assert_eq!(st.get_depth_context(), None);
    settle(&mut st);
    assert_eq!(st.get_depth_context().as_deref(), Some("projects"));
    assert!(st.current_node.is_none());
    st.drill_into(&g, "beta");
    settle(&mut st);
    assert_eq!(st.get_breadcrumb_path(), s(&["projects", "beta"]));
    assert!(st.go_up_level());
    settle(&mut st);
    assert_eq!(st.get_breadcrumb_path(), s(&["projects"]));
    assert!(st.go_up_level());
    settle(&mut st);
    assert!(!st.is_in_subgraph());
    assert!(st.get_breadcrumb_path().is_empty());
    assert!(!st.go_up_level());
}

#[test]
fn drill_refused_on_leaf_or_during_transition() {
    let g = sample();
    let mut st = AppState::new();
    st.drill_into(&g, "rust");
    assert_eq!(st.transition_direction, 0);
    assert!(st.pending_depth_context.is_none());
    st.drill_into(&g, "projects");
    st.drill_into(&g, "beta");
    assert_eq!(st.pending_depth_context, Some(Some("projects".to_string())));
    assert!(!st.go_up_level());
}

#[test]
fn fade_out_without_pending_only_starts_fade_in() {
    let mut st = AppState::new();
    st.transition_direction = -1;
    assert!(!st.finish_fade_out());
    assert_eq!(st.transition_direction, 1);
    assert_eq!(st.current_node.as_deref(), Some("home"));
}

#[test]
fn rail_mode_keeps_current_across_depth_change() {
    let g = sample();
    let mut st = AppState::new();
    assert!(st.toggle_rail_mode());
    st.drill_into(&g, "projects");
    settle(&mut st);
    assert_eq!(st.current_node.as_deref(), Some("home"));
}

#[test]
fn toggle_tag_twice_restores_filters() {
    let mut st = AppState::new();
    st.toggle_tag("lang", "rust");
    st.toggle_tag("topic", "memory");
    assert_eq!(st.active_tags, vec![tag("lang", "rust"), tag("topic", "memory")]);
    st.toggle_tag("lang", "rust");
    assert_eq!(st.active_tags, vec![tag("topic", "memory")]);
    st.toggle_tag("new", "one");
    st.toggle_tag("new", "one");
    assert_eq!(st.active_tags, vec![tag("topic", "memory")]);
    st.clear_tags();
    assert!(!st.has_active_tags());
}

#[test]
fn visible_nodes_by_depth_and_tags() {
    let g = sample();
    let mut st = AppState::new();
    assert_eq!(st.get_visible_node_ids(&g), s(&["home", "about"]));
    st.depth_context = Some("home".to_string());
    assert_eq!(st.get_visible_node_ids(&g), s(&["projects", "rust", "search"]));
    st.toggle_tag("lang", "rust");
    assert_eq!(st.get_visible_node_ids(&g), s(&["search", "rust"]));
    st.toggle_prune_mode();
    st.current_node = Some("about".to_string());
    assert_eq!(st.get_visible_node_ids(&g), s(&["about"]));
    st.current_node = None;
    assert!(st.get_visible_node_ids(&g).is_empty());
    st.current_node = Some("rust".to_string());
    assert_eq!(st.get_visible_node_ids(&g), s(&["rust", "search"]));
}

#[test]
fn prune_mode_shows_only_current_and_its_tag_sharers() {
    let mut g = Graph::new();
    g.add_collection("a", "A", "");
    g.add_collection("b", "B", "");
    g.tag("a", "k", "one");
    g.tag("b", "k", "two");
    let mut st = AppState::new();
    st.toggle_tag("k", "one");
    st.toggle_tag("k", "two");
    assert_eq!(st.get_visible_node_ids(&g), s(&["a", "b"]));
    st.toggle_prune_mode();
    st.current_node = Some("a".to_string());
    assert_eq!(st.get_visible_node_ids(&g), s(&["a"]));
}

#[test]
fn go_home_resets_depth_and_tags() {
    let g = sample();
    let mut st = AppState::new();
    st.drill_into(&g, "projects");
    settle(&mut st);
    st.toggle_tag("lang", "rust");
    st.toggle_prune_mode();
    st.go_home();
    assert!(!st.is_in_subgraph());
    assert!(st.get_breadcrumb_path().is_empty());
    assert!(!st.has_active_tags());
    assert!(!st.prune_mode);
    assert_eq!(st.current_node.as_deref(), Some("home"));
}

#[test]
fn all_tags_toggle() {
    let g = sample();
    let mut st = AppState::new();
    st.select_node("rust");
    st.toggle_all_tags(&g);
    assert_eq!(st.active_tags, vec![tag("lang", "rust"), tag("topic", "memory")]);
    st.toggle_prune_mode();
    st.toggle_all_tags(&g);
    assert!(st.active_tags.is_empty());
    assert!(!st.prune_mode);
    st.select_node("missing");
    st.toggle_all_tags(&g);
    assert!(st.active_tags.is_empty());
}

#[test]
fn highlighted_tag_cycles_and_toggles() {
    let g = sample();
    let mut st = AppState::new();
    st.select_node("rust");
    st.cycle_highlighted_tag(&g);
    assert_eq!(st.get_highlighted_tag_index(), Some(0));
    st.cycle_highlighted_tag(&g);
    assert_eq!(st.get_highlighted_tag_index(), Some(1));
    st.toggle_highlighted_tag(&g);
    assert_eq!(st.active_tags, vec![tag("topic", "memory")]);
    st.toggle_highlighted_tag(&g);
    assert!(st.active_tags.is_empty());
    st.cycle_highlighted_tag(&g);
    assert_eq!(st.get_highlighted_tag_index(), Some(0));
    st.select_node("home");
    assert_eq!(st.get_highlighted_tag_index(), None);
    st.highlighted_tag_index = Some(3);
    st.cycle_highlighted_tag(&g);
    assert_eq!(st.get_highlighted_tag_index(), None);
    st.highlighted_tag_index = Some(usize::MAX);
    st.select_node("rust");
    st.highlighted_tag_index = Some(usize::MAX);
    st.cycle_highlighted_tag(&g);
    assert_eq!(st.get_highlighted_tag_index(), Some(0));
    st.highlighted_tag_index = Some(7);
    st.toggle_highlighted_tag(&g);
    assert!(st.active_tags.is_empty());
    st.clear_highlighted_tag();
    assert_eq!(st.get_highlighted_tag_index(), None);
}

#[test]
fn zoom_in_and_open_decisions() {
    let g = sample();
    let mut st = AppState::new();
    assert!(!st.zoom_in_current(&g));
    assert_eq!(st.pending_depth_context, Some(Some("home".to_string())));
    settle(&mut st);
    st.select_node("rust");
    assert!(st.zoom_in_current(&g));
    assert!(st.open_node(&g, "search"));
    assert_eq!(st.current_node.as_deref(), Some("search"));
    assert!(!st.open_node(&g, "projects"));
    assert_eq!(st.pending_depth_context, Some(Some("projects".to_string())));
    st.set_current_node(None);
    assert!(!st.zoom_in_current(&g));
}

#[test]
fn rail_edges_cycle_and_drive() {
    let g = sample();
    let mut st = AppState::new();
    st.cycle_rail_edge(true);
    assert_eq!(st.rail_selected_index, None);
    assert!(st.toggle_rail_mode());
    st.set_rail_edges(s(&["projects", "rust", "about"]));
    assert_eq!(st.rail_selected_index, None);
    st.cycle_rail_edge(true);
    assert_eq!(st.rail_selected_index, Some(0));
    st.cycle_rail_edge(false);
    assert_eq!(st.rail_selected_index, Some(2));
    st.cycle_rail_edge(true);
    assert_eq!(st.rail_selected_index, Some(0));
    st.cycle_rail_edge(true);
    st.cycle_rail_edge(true);
    assert_eq!(st.get_rail_selection().as_deref(), Some("about"));
    st.highlighted_tag_index = Some(1);
    assert_eq!(st.drive_rail(&g).as_deref(), Some("about"));
    assert_eq!(st.current_node.as_deref(), Some("about"));
    assert_eq!(st.rail_selected_index, None);
    assert_eq!(st.get_highlighted_tag_index(), None);
    assert_eq!(st.drive_rail(&g), None);
    st.set_rail_edges(s(&["home"]));
    assert_eq!(st.rail_selected_index, Some(0));
    st.rail_selected_index = None;
    assert_eq!(st.drive_rail(&g).as_deref(), Some("home"));
    st.set_rail_edges(s(&["ghost"]));
    assert_eq!(st.drive_rail(&g), None);
    assert_eq!(st.rail_selected_index, Some(0));
    st.select_rail_edge(0);
    assert_eq!(st.get_rail_selection().as_deref(), Some("ghost"));
    assert!(!st.toggle_rail_mode());
    assert!(st.rail_edges.is_empty());
    assert_eq!(st.get_rail_selection(), None);
    st.set_rail_edges(s(&["home"]));
    assert_eq!(st.drive_rail(&g), None);
}

#[test]
fn rail_cycle_with_stale_index() {
    let mut st = AppState::new();
    st.toggle_rail_mode();
    st.set_rail_edges(s(&["a", "b", "c"]));
    st.rail_selected_index = Some(7);
    st.cycle_rail_edge(true);
    assert_eq!(st.rail_selected_index, Some(2));
    st.rail_selected_index = Some(7);
    st.cycle_rail_edge(false);
    assert_eq!(st.rail_selected_index, Some(0));
    st.rail_selected_index = Some(2);
    assert_eq!(st.get_rail_selection().as_deref(), Some("c"));
    st.rail_selected_index = Some(3);
    assert_eq!(st.get_rail_selection(), None);
}

#[test]
fn rail_candidates_visible_neighbours() {
    let mut g = sample();
    g.add_association("rust", "about", None);
    let mut st = AppState::new();
    st.select_node("home");
    // home has no connections, and its edges lead to nodes that are not
    // roots.
    assert!(st.rail_candidates(&g).is_empty());
    st.depth_context = Some("home".to_string());
    st.select_node("rust");
    // visible: projects, rust, search; rust's connections: home, about; its
    // edges: home -> rust, rust -- about.
    assert!(st.rail_candidates(&g).is_empty());
    st.toggle_tag("lang", "rust");
    // visible: search, rust; search shares the active tag with rust.
    assert_eq!(st.rail_candidates(&g), s(&["search"]));
    st.depth_context = None;
    st.clear_tags();
    assert_eq!(st.rail_candidates(&g), s(&["home", "about"]));
    st.set_current_node(Some("missing"));
    assert!(st.rail_candidates(&g).is_empty());
}

#[test]
fn simple_flags() {
    let mut st = AppState::new();
    st.toggle_dark_mode();
    assert!(st.dark_mode);
    st.toggle_dark_mode();
    assert!(!st.dark_mode);
    st.toggle_prune_mode();
    assert!(st.prune_mode);
}
