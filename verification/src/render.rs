//! The text the views show: the breadcrumb trail of a context node, the
//! reading view of an article, and the card of a node.
use vstd::prelude::*;
use crate::graph::{Graph, GraphView, Node};
use crate::text::{owned, copy_string};

verus! {

/// The titles met walking up the parent chain from `cur`, for at most
/// `fuel` steps, stopping at a missing node or a node with no parent.
pub open spec fn ancestry(g: GraphView, cur: Option<Seq<char>>, fuel: nat) -> Seq<Seq<char>>
    decreases fuel,
{
    if fuel == 0 {
        Seq::empty()
    } else {
        match cur {
            Some(id) => if g.has(id) {
                seq![g.node(id).title] + ancestry(g, g.node(id).parent, (fuel - 1) as nat)
            } else {
                Seq::empty()
            },
            None => Seq::empty(),
        }
    }
}

/// `items` joined with `sep` between each two.
pub open spec fn join(items: Seq<Seq<char>>, sep: Seq<char>) -> Seq<char>
    decreases items.len(),
{
    if items.len() == 0 {
        Seq::empty()
    } else if items.len() == 1 {
        items[0]
    } else {
        join(items.drop_last(), sep) + sep + items.last()
    }
}

/// The HTML that a Markdown text renders to.
pub uninterp spec fn markdown_html(markdown: Seq<char>) -> Seq<char>;

/// Renders Markdown to HTML with pulldown-cmark's default options.
#[verifier::external_body]
fn markdown_to_html(markdown: &str) -> (html: String)
    ensures
        html@ == markdown_html(markdown@),
{
    let parser = pulldown_cmark::Parser::new(markdown);
    let mut html = String::new();
    pulldown_cmark::html::push_html(&mut html, parser);
    html
}

/// The reading-view wrapper around an article's HTML.
pub fn wrap_reading_article(html: &str) -> (r: String)
    ensures
        r@ == "<article class=\"reading-article\">"@ + html@ + "</article>"@,
{
    let mut r = String::new();
    r.append("<article class=\"reading-article\">");
    r.append(html);
    r.append("</article>");
    r
}

/// The reading view of a Markdown article: its HTML inside the reading
/// wrapper.
pub fn reading_article_html(article: &str) -> (r: String)
    ensures
        r@ == "<article class=\"reading-article\">"@ + markdown_html(article@) + "</article>"@,
{
    let html = markdown_to_html(article);
    wrap_reading_article(html.as_str())
}

/// The titles from the root of the parent chain down to `context_id`; the
/// walk takes at most as many steps as the graph has nodes.
pub fn breadcrumb_titles(graph: &Graph, context_id: &str) -> (r: Vec<String>)
    requires
        graph@.wf(),
    ensures
        r.deep_view() == ancestry(graph@, Some(context_id@), graph@.nodes.len() as nat).reverse(),
{
    let n = graph.node_count();
    let ghost g = graph@;
    let mut up: Vec<String> = Vec::new();
    let mut current: Option<String> = Some(owned(context_id));
    let mut steps: usize = 0;
    assert(up.deep_view() + ancestry(g, current.deep_view(), (n - steps) as nat) =~= ancestry(
        g,
        Some(context_id@),
        n as nat,
    ));
    while steps < n
        invariant
            0 <= steps <= n,
            g == graph@,
            g.wf(),
            n == g.nodes.len(),
            up.deep_view() + ancestry(g, current.deep_view(), (n - steps) as nat) == ancestry(
                g,
                Some(context_id@),
                n as nat,
            ),
        decreases n - steps,
    {
        let ghost before = up.deep_view();
        let ghost cur = current.deep_view();
        let next: Option<String> = match &current {
            Some(id) => match graph.get_node(id.as_str()) {
                Some(node) => {
                    up.push(copy_string(&node.title));
                    match &node.parent {
                        Some(p) => Some(copy_string(p)),
                        None => None,
                    }
                },
                None => None,
            },
            None => None,
        };
        proof {
            let fuel = (n - steps) as nat;
            match cur {
                Some(id) => {
                    if g.has(id) {
                        assert(up.deep_view() =~= before.push(g.node(id).title));
                        assert(next.deep_view() == g.node(id).parent);
                        assert(ancestry(g, cur, fuel) == seq![g.node(id).title] + ancestry(
                            g,
                            next.deep_view(),
                            (fuel - 1) as nat,
                        ));
                        assert(up.deep_view() + ancestry(g, next.deep_view(), (fuel - 1) as nat)
                            =~= before + ancestry(g, cur, fuel));
                    } else {
                        assert(up.deep_view() =~= before);
                        assert(ancestry(g, next.deep_view(), (fuel - 1) as nat) =~= Seq::empty());
                        assert(ancestry(g, cur, fuel) =~= Seq::empty());
                    }
                },
                None => {
                    assert(up.deep_view() =~= before);
                    assert(ancestry(g, next.deep_view(), (fuel - 1) as nat) =~= Seq::empty());
                },
            }
        }
        current = next;
        steps += 1;
    }
    assert(ancestry(g, current.deep_view(), 0) =~= Seq::empty());
    assert(up.deep_view() =~= ancestry(g, Some(context_id@), n as nat));
    let mut r: Vec<String> = Vec::new();
    let mut i: usize = up.len();
    while i > 0
        invariant
            0 <= i <= up@.len(),
            r@.len() == up@.len() - i,
            forall|j: int| 0 <= j < r@.len() ==> #[trigger] r@[j]@ == up@[up@.len() - 1 - j]@,
        decreases i,
    {
        i -= 1;
        r.push(copy_string(&up[i]));
    }
    assert(r.deep_view() =~= up.deep_view().reverse());
    r
}

/// The breadcrumb line: a back hint, then the titles joined by " › ".
pub fn breadcrumb_html(titles: &Vec<String>) -> (r: String)
    ensures
        r@ == "<span class=\"breadcrumb-back\">← Esc</span> "@ + join(titles.deep_view(), " › "@),
{
    let mut r = String::new();
    r.append("<span class=\"breadcrumb-back\">← Esc</span> ");
    let ghost prefix = r@;
    let ghost items = titles.deep_view();
    let mut i: usize = 0;
    assert(items.take(0) =~= Seq::<Seq<char>>::empty());
    assert(r@ =~= prefix + join(items.take(0), " › "@));
    while i < titles.len()
        invariant
            0 <= i <= titles@.len(),
            items == titles.deep_view(),
            prefix == "<span class=\"breadcrumb-back\">← Esc</span> "@,
            r@ == prefix + join(items.take(i as int), " › "@),
        decreases titles.len() - i,
    {
        let ghost before = r@;
        assert(items.take(i + 1).drop_last() =~= items.take(i as int));
        assert(items[i as int] == titles@[i as int]@);
        if i > 0 {
            r.append(" › ");
            r.append(titles[i].as_str());
            assert(r@ =~= prefix + join(items.take(i + 1), " › "@));
        } else {
            r.append(titles[i].as_str());
            assert(items.take(1) =~= seq![items[0]]);
            assert(r@ =~= prefix + join(items.take(i + 1), " › "@));
        }
        i += 1;
    }
    assert(items.take(titles@.len() as int) =~= items);
    r
}

/// The card of a node in the graph view: its title, styled as an anchor
/// title for anchored nodes, then its summary.
pub fn node_card_html(node: &Node) -> (r: String)
    ensures
        r@ == "<div class=\""@ + (if node.anchored {
            "node-title anchor-title"@
        } else {
            "node-title"@
        }) + "\">"@ + node.title@ + "</div><div class=\"node-body\">"@ + node.summary@
            + "</div>"@,
{
    let mut r = String::new();
    r.append("<div class=\"");
    if node.anchored {
        r.append("node-title anchor-title");
    } else {
        r.append("node-title");
    }
    r.append("\">");
    r.append(node.title.as_str());
    r.append("</div><div class=\"node-body\">");
    r.append(node.summary.as_str());
    r.append("</div>");
    r
}

} // verus!
