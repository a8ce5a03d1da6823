use pensieve::graph::Graph;
use pensieve::render::{breadcrumb_html, breadcrumb_titles, node_card_html, reading_article_html, wrap_reading_article};

fn s(v: &[&str]) -> Vec<String> {
    v.iter().map(|x| x.to_string()).collect()
}

#[test]
fn article_markdown_rendered_and_wrapped() {
    assert_eq!(
        reading_article_html("# Hi\n\nSome *text*."),
        "<article class=\"reading-article\"><h1>Hi</h1>\n<p>Some <em>text</em>.</p>\n</article>"
    );
    assert_eq!(reading_article_html(""), "<article class=\"reading-article\"></article>");
}

#[test]
fn article_wrapper() {
    assert_eq!(wrap_reading_article("<p>x</p>"), "<article class=\"reading-article\"><p>x</p></article>");
}

#[test]
fn breadcrumb_walks_parent_chain() {
    let mut g = Graph::new();
    g.add_collection("home", "Home", "");
    g.add_child_collection("projects", "home", "Projects", "");
    g.add_child_collection("beta", "projects", "Beta", "");
    assert_eq!(breadcrumb_titles(&g, "beta"), s(&["Home", "Projects", "Beta"]));
    assert_eq!(breadcrumb_titles(&g, "home"), s(&["Home"]));
    assert!(breadcrumb_titles(&g, "missing").is_empty());
}

#[test]
fn breadcrumb_stops_at_missing_parent() {
    let mut g = Graph::new();
    g.add_child_post("leaf", "gone", "Leaf", "", "");
    assert_eq!(breadcrumb_titles(&g, "leaf"), s(&["Leaf"]));
}

#[test]
fn breadcrumb_on_parent_cycle_is_bounded() {
    let mut g = Graph::new();
    g.add_child_collection("a", "b", "A", "");
    g.add_child_collection("b", "a", "B", "");
    assert_eq!(breadcrumb_titles(&g, "a"), s(&["B", "A"]));
}

#[test]
fn breadcrumb_line() {
    assert_eq!(
        breadcrumb_html(&s(&["Home", "Projects"])),
        "<span class=\"breadcrumb-back\">← Esc</span> Home › Projects"
    );
    assert_eq!(breadcrumb_html(&s(&["Home"])), "<span class=\"breadcrumb-back\">← Esc</span> Home");
    assert_eq!(breadcrumb_html(&vec![]), "<span class=\"breadcrumb-back\">← Esc</span> ");
}

#[test]
fn node_cards() {
    let mut g = Graph::new();
    g.add_collection("home", "Home", "Start");
    g.add_child_post("p", "home", "Post", "About it", "");
    assert_eq!(
        node_card_html(g.get_node("home").unwrap()),
        "<div class=\"node-title anchor-title\">Home</div><div class=\"node-body\">Start</div>"
    );
    assert_eq!(
        node_card_html(g.get_node("p").unwrap()),
        "<div class=\"node-title\">Post</div><div class=\"node-body\">About it</div>"
    );
}
