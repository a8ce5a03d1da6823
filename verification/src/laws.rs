//! Properties that hold across the operations of the library.
use vstd::prelude::*;
use crate::graph::{GraphView, NodeKindView, fresh_node, child_edge};
use crate::nav::{AppStateView, toggled, first_index, offer_all, tag_union, active_among, edge_offers, tag_offers, without};
use crate::tags::{matched_upto, first_shared_from, count_in, shared_upto, InferredView};
use crate::input::{InputStateView, without_key, with_key};
use crate::text::{TagView, append_new};

verus! {

proof fn lemma_first_index_of_push(s: Seq<TagView>, t: TagView)
    requires
        !s.contains(t),
    ensures
        first_index(s.push(t), t) == s.len(),
{
    let p = s.push(t);
    assert(p[s.len() as int] == t);
    let k = first_index(p, t);
    assert(0 <= k < p.len() && p[k] == t && forall|j: int| 0 <= j < k ==> p[j] != t);
    if k < s.len() {
        assert(s[k] == t);
    }
}

/// Toggling a tag filter that is off, twice, gives back exactly the filters
/// there were.
pub proof fn toggle_tag_twice_restores(active: Seq<TagView>, t: TagView)
    requires
        !active.contains(t),
    ensures
        toggled(toggled(active, t), t) == active,
{
    let p = active.push(t);
    assert(p.contains(t)) by {
        assert(p[active.len() as int] == t);
    }
    lemma_first_index_of_push(active, t);
    assert(p.remove(active.len() as int) =~= active);
}

/// With no filter repeated, toggling any tag filter twice keeps the same
/// filters (the toggled one moves to the end) and none gets repeated.
pub proof fn toggle_tag_twice_keeps_filters(active: Seq<TagView>, t: TagView)
    requires
        active.no_duplicates(),
    ensures
        toggled(toggled(active, t), t).to_set() == active.to_set(),
        toggled(toggled(active, t), t).len() == active.len(),
        toggled(active, t).no_duplicates(),
{
    if !active.contains(t) {
        toggle_tag_twice_restores(active, t);
        assert forall|i: int, j: int|
            0 <= i < active.push(t).len() && 0 <= j < active.push(t).len() && i != j
                implies active.push(t)[i] != active.push(t)[j] by {
            if i < active.len() && j < active.len() {
            } else if i < active.len() {
                assert(active.contains(active[i]));
            } else {
                assert(active.contains(active[j]));
            }
        }
    } else {
        let k = first_index(active, t);
        let r = active.remove(k);
        assert(!r.contains(t)) by {
            if r.contains(t) {
                let j = choose|j: int| 0 <= j < r.len() && r[j] == t;
                if j < k {
                    assert(active[j] == t);
                } else {
                    assert(active[j + 1] == t);
                }
            }
        }
        assert(toggled(active, t) == r);
        assert(r.no_duplicates()) by {
            assert forall|i: int, j: int| 0 <= i < r.len() && 0 <= j < r.len() && i != j implies r[i] != r[j] by {
                let ii = if i < k { i } else { i + 1 };
                let jj = if j < k { j } else { j + 1 };
                assert(r[i] == active[ii] && r[j] == active[jj]);
            }
        }
        assert(toggled(r, t) == r.push(t));
        assert(r.push(t).to_set() =~= active.to_set()) by {
            assert forall|x: TagView| r.push(t).to_set().contains(x) <==> active.to_set().contains(x) by {
                if r.push(t).contains(x) {
                    let j = choose|j: int| 0 <= j < r.push(t).len() && r.push(t)[j] == x;
                    if j == r.len() {
                        assert(active[k] == x);
                    } else if j < k {
                        assert(active[j] == x);
                    } else {
                        assert(active[j + 1] == x);
                    }
                }
                if active.contains(x) {
                    let j = choose|j: int| 0 <= j < active.len() && active[j] == x;
                    if j == k {
                        assert(r.push(t)[r.len() as int] == x);
                    } else if j < k {
                        assert(r.push(t)[j] == x);
                    } else {
                        assert(r.push(t)[j - 1] == x);
                    }
                }
            }
        }
    }
}

/// Stepping the rail selection clockwise and then back counter-clockwise
/// returns to the edge that was selected.
pub proof fn rail_cycle_round_trip(s: AppStateView)
    requires
        s.rail_mode,
        s.rail_edges.len() > 0,
        s.rail_edges.len() <= usize::MAX,
        s.rail_selected_index is Some,
        s.rail_selected_index->0 < s.rail_edges.len(),
    ensures
        s.rail_cycled(true).rail_cycled(false).rail_selected_index == s.rail_selected_index,
        s.rail_cycled(false).rail_cycled(true).rail_selected_index == s.rail_selected_index,
{
    let i = s.rail_selected_index->0 as int;
    let len = s.rail_edges.len() as int;
    vstd::arithmetic::div_mod::lemma_small_mod(i as nat, len as nat);
    let up = (i + 1) % len;
    let down = (i + len - 1) % len;
    crate::nav::lemma_mod_steps(i, len);
    crate::nav::lemma_mod_steps(up, len);
    crate::nav::lemma_mod_steps(down, len);
    vstd::arithmetic::div_mod::lemma_mod_bound(i + 1, len);
    vstd::arithmetic::div_mod::lemma_mod_bound(i + len - 1, len);
    vstd::arithmetic::div_mod::lemma_small_mod(up as nat, len as nat);
    vstd::arithmetic::div_mod::lemma_small_mod(down as nat, len as nat);
}

/// Drilling into a node with children and, once the transition is over,
/// going back up restores the context and the breadcrumb stack; in
/// between, the node is the context and ends the breadcrumb trail.
pub proof fn drill_then_go_up_restores(s: AppStateView, g: GraphView, id: Seq<char>)
    requires
        g.has_children(id),
        s.transition_direction == 0,
        s.depth_context is None ==> s.depth_stack.len() == 0,
    ensures
        s.drilled(g, id).faded_out().depth_context == Some(id),
        s.drilled(g, id).faded_out().breadcrumb_path() == s.breadcrumb_path().push(id),
        s.drilled(g, id).faded_out().faded_in().went_up().faded_out().depth_context == s.depth_context,
        s.drilled(g, id).faded_out().faded_in().went_up().faded_out().depth_stack == s.depth_stack,
{
    let inside = s.drilled(g, id).faded_out().faded_in();
    assert(inside.depth_context == Some(id));
    match s.depth_context {
        Some(c) => {
            assert(inside.depth_stack == s.depth_stack.push(c));
            assert(inside.depth_stack.drop_last() =~= s.depth_stack);
        },
        None => {
            assert(inside.depth_stack.len() == 0);
        },
    }
}

/// Going home leaves the viewer at the root level, with an empty
/// breadcrumb trail and no tag filters, on the home node.
pub proof fn go_home_returns_to_root(s: AppStateView)
    ensures
        s.gone_home().depth_context is None,
        s.gone_home().breadcrumb_path().len() == 0,
        s.gone_home().active_tags.len() == 0,
        s.gone_home().current_node == Some("home"@),
{
}

/// Cycling the highlight on a node with tags always lands on one of them.
pub proof fn highlight_cycle_stays_in_range(s: AppStateView, g: GraphView)
    requires
        s.current_node is Some,
        g.has(s.current_node->0),
        g.node(s.current_node->0).tags.len() > 0,
    ensures
        s.highlight_cycled(g).highlighted_tag_index is Some,
        s.highlight_cycled(g).highlighted_tag_index->0 < g.node(s.current_node->0).tags.len(),
{
}

/// The nodes after adding a child node under `parent`.
pub open spec fn with_child(g: GraphView, id: Seq<char>, parent: Seq<char>, kind: NodeKindView, title: Seq<char>, summary: Seq<char>) -> GraphView {
    GraphView {
        nodes: g.with_node(fresh_node(id, kind, title, summary, false, Some(parent))),
        edges: g.edges.push(child_edge(parent, id)),
    }
}

proof fn lemma_with_node_keeps(g: GraphView, n: crate::graph::NodeView, other: Seq<char>)
    requires
        g.wf(),
        g.has(other),
        other != n.id,
    ensures
        (GraphView { nodes: g.with_node(n), edges: g.edges }).has(other),
        (GraphView { nodes: g.with_node(n), edges: g.edges }).node(other) == g.node(other),
        (GraphView { nodes: g.with_node(n), edges: g.edges }).has(n.id),
        (GraphView { nodes: g.with_node(n), edges: g.edges }).node(n.id) == n,
{
    let g2 = GraphView { nodes: g.with_node(n), edges: g.edges };
    let k = g.index_of(other);
    assert(g2.nodes[k].id == other);
    let k2 = g2.index_of(other);
    if g.has(n.id) {
        let m = g.index_of(n.id);
        assert(g2.nodes[m] == n);
        assert(g2.nodes.len() == g.nodes.len());
        assert(k2 == k) by {
            if k2 != k {
                if k2 == m {
                } else {
                    assert(g.nodes[k2].id == other);
                }
            }
        }
        let m2 = g2.index_of(n.id);
        assert(m2 == m) by {
            if m2 != m {
                assert(g.nodes[m2].id == n.id);
            }
        }
    } else {
        assert(g2.nodes[g.nodes.len() as int] == n);
        assert(k2 == k) by {
            if k2 != k {
                if k2 < g.nodes.len() {
                    assert(g.nodes[k2].id == other);
                }
            }
        }
        let m2 = g2.index_of(n.id);
        assert(m2 == g.nodes.len()) by {
            if m2 < g.nodes.len() {
                assert(g.nodes[m2].id == n.id);
            }
        }
    }
}

/// After a child is added under an existing parent, the parent of the
/// child is that parent, the parent has children, the child is the last
/// of the parent's child ids, and a directed edge leads to the child, so it
/// is no root.
pub proof fn add_child_links_parent(
    g: GraphView,
    id: Seq<char>,
    parent: Seq<char>,
    kind: NodeKindView,
    title: Seq<char>,
    summary: Seq<char>,
)
    requires
        g.wf(),
        g.has(parent),
        parent != id,
    ensures
        with_child(g, id, parent, kind, title, summary).parent_of(id) == Some(g.node(parent)),
        with_child(g, id, parent, kind, title, summary).has_children(parent),
        with_child(g, id, parent, kind, title, summary).child_ids(parent) == g.child_ids(parent).push(id),
        with_child(g, id, parent, kind, title, summary).has_incoming(id),
        !(exists|j: int|
            0 <= j < with_child(g, id, parent, kind, title, summary).roots().len()
                && #[trigger] with_child(g, id, parent, kind, title, summary).roots()[j].id == id),
{
    let n = fresh_node(id, kind, title, summary, false, Some(parent));
    lemma_with_node_keeps(g, n, parent);
    let g2 = with_child(g, id, parent, kind, title, summary);
    let g1 = GraphView { nodes: g.with_node(n), edges: g.edges };
    assert(g2.has(id) && g2.node(id) == n) by {
        assert(g2.nodes == g1.nodes);
    }
    assert(g2.has(parent) && g2.node(parent) == g.node(parent)) by {
        assert(g2.nodes == g1.nodes);
    }
    let last = g.edges.len() as int;
    assert(g2.edges[last] == child_edge(parent, id));
    assert(g2.edges[last].from == parent && g2.edges[last].edge_type == crate::graph::EdgeType::Directed);
    lemma_child_ids_prefix(g, g2, parent, last);
    assert(g2.edges[last].to == id);
    roots_exact(g2, id);
}

proof fn lemma_roots_upto(g: GraphView, k: int, x: Seq<char>)
    requires
        0 <= k <= g.nodes.len(),
    ensures
        (exists|j: int| 0 <= j < g.roots_upto(k).len() && #[trigger] g.roots_upto(k)[j].id == x)
            <==> ((exists|i: int| 0 <= i < k && #[trigger] g.nodes[i].id == x) && !g.has_incoming(x)),
    decreases k,
{
    if k > 0 {
        lemma_roots_upto(g, k - 1, x);
        let prev = g.roots_upto(k - 1);
        let cur = g.roots_upto(k);
        if exists|j: int| 0 <= j < cur.len() && #[trigger] cur[j].id == x {
            let j = choose|j: int| 0 <= j < cur.len() && #[trigger] cur[j].id == x;
            if j < prev.len() {
                assert(prev[j].id == x);
                let i = choose|i: int| 0 <= i < k - 1 && #[trigger] g.nodes[i].id == x;
                assert(g.nodes[i].id == x);
            } else {
                assert(g.nodes[k - 1].id == x);
            }
        }
        if (exists|i: int| 0 <= i < k && #[trigger] g.nodes[i].id == x) && !g.has_incoming(x) {
            let i = choose|i: int| 0 <= i < k && #[trigger] g.nodes[i].id == x;
            if i < k - 1 {
                assert(g.nodes[i].id == x);
                let j = choose|j: int| 0 <= j < prev.len() && #[trigger] prev[j].id == x;
                assert(cur[j].id == x);
            } else {
                assert(cur[prev.len() as int].id == x);
            }
        }
    }
}

/// The roots are exactly the nodes that no directed edge leads to.
pub proof fn roots_exact(g: GraphView, x: Seq<char>)
    ensures
        (exists|j: int| 0 <= j < g.roots().len() && #[trigger] g.roots()[j].id == x)
            <==> (g.has(x) && !g.has_incoming(x)),
{
    lemma_roots_upto(g, g.nodes.len() as int, x);
    if g.has(x) {
        let i = choose|i: int| 0 <= i < g.nodes.len() && g.nodes[i].id == x;
        assert(g.nodes[i].id == x);
    }
}

proof fn lemma_child_ids_prefix(g: GraphView, g2: GraphView, id: Seq<char>, k: int)
    requires
        0 <= k <= g.edges.len(),
        g.edges.len() <= g2.edges.len(),
        forall|i: int| 0 <= i < g.edges.len() ==> g2.edges[i] == g.edges[i],
    ensures
        g2.child_ids_upto(id, k) == g.child_ids_upto(id, k),
    decreases k,
{
    if k > 0 {
        lemma_child_ids_prefix(g, g2, id, k - 1);
    }
}

proof fn lemma_tagged_upto_has(g: GraphView, t: TagView, id: Seq<char>, k: int)
    requires
        g.wf(),
        g.has(id),
        g.node(id).tags.contains(t),
        g.index_of(id) < k <= g.nodes.len(),
    ensures
        g.tagged_upto(t, k).contains(id),
    decreases k,
{
    let i = g.index_of(id);
    if k - 1 == i {
        assert(g.tagged_upto(t, k) == g.tagged_upto(t, k - 1).push(id));
        assert(g.tagged_upto(t, k)[g.tagged_upto(t, k - 1).len() as int] == id);
    } else {
        lemma_tagged_upto_has(g, t, id, k - 1);
        let prev = g.tagged_upto(t, k - 1);
        let j = choose|j: int| 0 <= j < prev.len() && prev[j] == id;
        if g.nodes[k - 1].tags.contains(t) {
            assert(g.tagged_upto(t, k)[j] == id);
        }
    }
}

/// After a node is tagged, it is among the nodes holding that tag.
pub proof fn tag_then_found(g: GraphView, id: Seq<char>, t: TagView)
    requires
        g.wf(),
        g.has(id),
    ensures
        g.with_tag(id, t).nodes_with_tag(t).contains(id),
{
    let g2 = g.with_tag(id, t);
    let i = g.index_of(id);
    assert(g2.nodes[i].id == id);
    assert(g2.wf());
    assert(g2.has(id));
    let i2 = g2.index_of(id);
    assert(i2 == i) by {
        if i2 != i {
            assert(g.nodes[i2].id == id);
        }
    }
    assert(g2.node(id).tags == g.node(id).tags.push(t));
    assert(g2.node(id).tags[g.node(id).tags.len() as int] == t);
    lemma_tagged_upto_has(g2, t, id, g2.nodes.len() as int);
}

proof fn lemma_first_shared_some(a: Seq<TagView>, b: Seq<TagView>, k: int)
    requires
        0 <= k,
    ensures
        (first_shared_from(a, b, k) is Some) <==> (exists|i: int| k <= i < a.len() && b.contains(#[trigger] a[i])),
    decreases a.len() - k,
{
    if k < a.len() {
        lemma_first_shared_some(a, b, k + 1);
        if b.contains(a[k]) {
        } else {
            assert forall|i: int| k <= i < a.len() && b.contains(#[trigger] a[i]) implies k + 1 <= i by {}
        }
    }
}

/// Two nodes share a tag one way exactly when they share one the other way.
pub proof fn shared_tag_symmetric(g: GraphView, a: Seq<char>, b: Seq<char>)
    ensures
        (g.shared_tag(a, b) is Some) == (g.shared_tag(b, a) is Some),
{
    if g.has(a) && g.has(b) {
        let ta = g.node(a).tags;
        let tb = g.node(b).tags;
        lemma_first_shared_some(ta, tb, 0);
        lemma_first_shared_some(tb, ta, 0);
        if exists|i: int| 0 <= i < ta.len() && tb.contains(#[trigger] ta[i]) {
            let i = choose|i: int| 0 <= i < ta.len() && tb.contains(#[trigger] ta[i]);
            let j = choose|j: int| 0 <= j < tb.len() && tb[j] == ta[i];
            assert(ta.contains(tb[j]));
        }
        if exists|j: int| 0 <= j < tb.len() && ta.contains(#[trigger] tb[j]) {
            let j = choose|j: int| 0 <= j < tb.len() && ta.contains(#[trigger] tb[j]);
            let i = choose|i: int| 0 <= i < ta.len() && ta[i] == tb[j];
            assert(tb.contains(ta[i]));
        }
    }
}

proof fn lemma_matched_bound(tags: Seq<TagView>, active: Seq<TagView>, k: int)
    requires
        0 <= k,
    ensures
        matched_upto(tags, active, k) <= k,
    decreases k,
{
    if k > 0 {
        lemma_matched_bound(tags, active, k - 1);
    }
}

/// A node never matches more tag filters than there are.
pub proof fn tag_match_within_total(g: GraphView, id: Seq<char>, active: Seq<TagView>)
    ensures
        g.tag_match_score(id, active).0 <= g.tag_match_score(id, active).1,
        g.tag_match_score(id, active).1 == active.len(),
{
    lemma_matched_bound(g.node(id).tags, active, active.len() as int);
}

proof fn lemma_append_new_prefix(acc: Seq<Seq<char>>, xs: Seq<Seq<char>>)
    ensures
        append_new(acc, xs).len() >= acc.len(),
        append_new(acc, xs).take(acc.len() as int) == acc,
    decreases xs.len(),
{
    if xs.len() > 0 {
        lemma_append_new_prefix(acc, xs.drop_last());
        let prev = append_new(acc, xs.drop_last());
        if !prev.contains(xs.last()) {
            assert(prev.push(xs.last()).take(acc.len() as int) =~= prev.take(acc.len() as int));
        }
    }
}

proof fn lemma_subgraph_prefix(g: GraphView, ctx: Seq<char>, k: int)
    ensures
        g.subgraph_upto(ctx, k).len() >= g.child_ids(ctx).len(),
        g.subgraph_upto(ctx, k).take(g.child_ids(ctx).len() as int) == g.child_ids(ctx),
    decreases k,
{
    if k <= 0 {
        assert(g.child_ids(ctx).take(g.child_ids(ctx).len() as int) =~= g.child_ids(ctx));
    } else {
        lemma_subgraph_prefix(g, ctx, k - 1);
        let prev = g.subgraph_upto(ctx, k - 1);
        let xs = g.nodes_sharing_tags(g.child_ids(ctx)[k - 1]);
        lemma_append_new_prefix(prev, xs);
        let n = g.child_ids(ctx).len() as int;
        assert(append_new(prev, xs).take(n) =~= append_new(prev, xs).take(prev.len() as int).take(n));
    }
}

/// A subgraph shows the context's children first, in edge order.
pub proof fn subgraph_starts_with_children(g: GraphView, ctx: Seq<char>)
    ensures
        g.subgraph(ctx).len() >= g.child_ids(ctx).len(),
        g.subgraph(ctx).take(g.child_ids(ctx).len() as int) == g.child_ids(ctx),
{
    lemma_subgraph_prefix(g, ctx, g.child_ids(ctx).len() as int);
}

proof fn lemma_offer_all_clean(acc: Seq<Seq<char>>, xs: Seq<Seq<char>>, vis: Seq<Seq<char>>)
    requires
        acc.no_duplicates(),
        forall|i: int| 0 <= i < acc.len() ==> vis.contains(#[trigger] acc[i]),
    ensures
        offer_all(acc, xs, vis).no_duplicates(),
        forall|i: int| 0 <= i < offer_all(acc, xs, vis).len() ==> vis.contains(#[trigger] offer_all(acc, xs, vis)[i]),
    decreases xs.len(),
{
    if xs.len() > 0 {
        lemma_offer_all_clean(acc, xs.drop_last(), vis);
        let prev = offer_all(acc, xs.drop_last(), vis);
        let x = xs.last();
        if vis.contains(x) && !prev.contains(x) {
            let p = prev.push(x);
            assert forall|i: int, j: int| 0 <= i < p.len() && 0 <= j < p.len() && i != j implies p[i] != p[j] by {
                if i == prev.len() as int {
                    assert(prev.contains(p[j]));
                } else if j == prev.len() as int {
                    assert(prev.contains(p[i]));
                }
            }
            assert forall|i: int| 0 <= i < p.len() implies vis.contains(#[trigger] p[i]) by {
                if i < prev.len() {
                    assert(p[i] == prev[i]);
                }
            }
        }
    }
}

/// The rail neighbours of a node are visible nodes, none listed twice.
pub proof fn rail_candidates_visible_and_distinct(s: AppStateView, g: GraphView)
    ensures
        s.rail_candidates(g).no_duplicates(),
        forall|i: int| 0 <= i < s.rail_candidates(g).len() ==> s.visible(g).contains(#[trigger] s.rail_candidates(g)[i]),
{
    match s.current_node {
        Some(cur) => if g.has(cur) {
            lemma_offer_all_clean(Seq::empty(), s.rail_offers(g, cur), s.visible(g));
        },
        None => {},
    }
}

proof fn lemma_visible_edges(g: GraphView, vis: Seq<Seq<char>>, k: int)
    requires
        k <= g.edges.len(),
    ensures
        forall|j: int| 0 <= j < g.visible_edges_upto(vis, k).len() ==> {
            let e = #[trigger] g.visible_edges_upto(vis, k)[j];
            0 <= e < k && vis.contains(g.edges[e].from) && vis.contains(g.edges[e].to)
        },
    decreases k,
{
    if k > 0 {
        lemma_visible_edges(g, vis, k - 1);
        let prev = g.visible_edges_upto(vis, k - 1);
        assert forall|j: int| 0 <= j < g.visible_edges_upto(vis, k).len() implies {
            let e = #[trigger] g.visible_edges_upto(vis, k)[j];
            0 <= e < k && vis.contains(g.edges[e].from) && vis.contains(g.edges[e].to)
        } by {
            if j < prev.len() {
                assert(g.visible_edges_upto(vis, k)[j] == prev[j]);
            }
        }
    }
}

/// Every edge drawn between visible nodes has both its ends visible.
pub proof fn visible_edges_join_visible_nodes(g: GraphView, vis: Seq<Seq<char>>)
    ensures
        forall|j: int| 0 <= j < g.visible_edges(vis).len() ==> {
            let e = #[trigger] g.visible_edges(vis)[j];
            0 <= e < g.edges.len() && vis.contains(g.edges[e].from) && vis.contains(g.edges[e].to)
        },
{
    lemma_visible_edges(g, vis, g.edges.len() as int);
}

proof fn lemma_push_contains<A>(s: Seq<A>, x: A, d: A)
    ensures
        s.push(x).contains(d) <==> (s.contains(d) || x == d),
{
    if s.push(x).contains(d) {
        let j = choose|j: int| 0 <= j < s.push(x).len() && s.push(x)[j] == d;
        if j < s.len() {
            assert(s[j] == d);
        }
    }
    if s.contains(d) {
        let j = choose|j: int| 0 <= j < s.len() && s[j] == d;
        assert(s.push(x)[j] == d);
    }
    if x == d {
        assert(s.push(x)[s.len() as int] == d);
    }
}

proof fn lemma_without_key(keys: Seq<char>, c: char, d: char)
    ensures
        without_key(keys, c).contains(d) <==> (d != c && keys.contains(d)),
    decreases keys.len(),
{
    if keys.len() == 0 {
    } else {
        let init = keys.drop_last();
        let l = keys.last();
        lemma_without_key(init, c, d);
        assert(keys =~= init.push(l));
        lemma_push_contains(init, l, d);
        let p = without_key(init, c);
        if l != c {
            lemma_push_contains(p, l, d);
        }
    }
}

/// Releasing a key that was pressed (outside rail mode) leaves it no
/// longer held, and every other held key still held.
pub proof fn key_press_then_release(s: InputStateView, key: Seq<char>, c: char)
    requires
        crate::input::vim_dir(key) == Some(c),
    ensures
        s.after_keydown(key, false, false).keys_held.contains(c),
        !s.after_keydown(key, false, false).after_keyup(key).keys_held.contains(c),
        forall|d: char| d != c ==> (s.after_keydown(key, false, false).after_keyup(key).keys_held.contains(d)
            <==> s.keys_held.contains(d)),
{
    reveal_strlit("Shift");
    reveal_strlit("Escape");
    reveal_strlit("Enter");
    reveal_strlit("g");
    reveal_strlit("b");
    reveal_strlit("h");
    reveal_strlit("j");
    reveal_strlit("k");
    reveal_strlit("l");
    reveal_strlit("H");
    reveal_strlit("J");
    reveal_strlit("K");
    reveal_strlit("L");
    reveal_strlit("ArrowLeft");
    reveal_strlit("ArrowRight");
    reveal_strlit("ArrowUp");
    reveal_strlit("ArrowDown");
    let held = with_key(s.keys_held, c);
    let down = s.after_keydown(key, false, false);
    assert(key.len() == 1);
    assert(key[0] == c);
    assert("Shift"@.len() == 5 && "Escape"@.len() == 6 && "Enter"@.len() == 5);
    assert("g"@[0] == 'g' && "b"@[0] == 'b');
    assert(c == 'h' || c == 'j' || c == 'k' || c == 'l');
    assert(key != "Shift"@ && key != "Escape"@ && key != "Enter"@ && key != "g"@ && key != "b"@);
    assert(down.keys_held == held);
    lemma_push_contains(s.keys_held, c, c);
    let up = down.after_keyup(key);
    assert(up.keys_held == without_key(held, c));
    lemma_without_key(held, c, c);
    assert forall|d: char| d != c implies (up.keys_held.contains(d) <==> s.keys_held.contains(d)) by {
        lemma_without_key(held, c, d);
        lemma_push_contains(s.keys_held, c, d);
    }
}


proof fn lemma_append_new(acc: Seq<Seq<char>>, xs: Seq<Seq<char>>)
    ensures
        forall|x: Seq<char>| #[trigger] append_new(acc, xs).contains(x) <==> (acc.contains(x) || xs.contains(x)),
        acc.no_duplicates() ==> append_new(acc, xs).no_duplicates(),
    decreases xs.len(),
{
    if xs.len() > 0 {
        let init = xs.drop_last();
        let l = xs.last();
        lemma_append_new(acc, init);
        let prev = append_new(acc, init);
        assert(xs =~= init.push(l));
        assert forall|x: Seq<char>| #[trigger] append_new(acc, xs).contains(x) <==> (acc.contains(x) || xs.contains(x)) by {
            lemma_push_contains(init, l, x);
            if !prev.contains(l) {
                lemma_push_contains(prev, l, x);
            }
        }
        if acc.no_duplicates() && !prev.contains(l) {
            let p = prev.push(l);
            assert forall|i: int, j: int| 0 <= i < p.len() && 0 <= j < p.len() && i != j implies p[i] != p[j] by {
                if i == prev.len() as int {
                    assert(prev.contains(p[j]));
                } else if j == prev.len() as int {
                    assert(prev.contains(p[i]));
                }
            }
        }
    }
}

proof fn lemma_tagged_upto(g: GraphView, t: TagView, k: int, x: Seq<char>)
    requires
        k <= g.nodes.len(),
    ensures
        g.tagged_upto(t, k).contains(x) <==> exists|i: int|
            0 <= i < k && #[trigger] g.nodes[i].id == x && g.nodes[i].tags.contains(t),
    decreases k,
{
    if k > 0 {
        lemma_tagged_upto(g, t, k - 1, x);
        let prev = g.tagged_upto(t, k - 1);
        if g.nodes[k - 1].tags.contains(t) {
            lemma_push_contains(prev, g.nodes[k - 1].id, x);
        }
        if exists|i: int| 0 <= i < k && #[trigger] g.nodes[i].id == x && g.nodes[i].tags.contains(t) {
            let i = choose|i: int| 0 <= i < k && #[trigger] g.nodes[i].id == x && g.nodes[i].tags.contains(t);
            if i < k - 1 {
                assert(exists|i2: int| 0 <= i2 < k - 1 && #[trigger] g.nodes[i2].id == x && g.nodes[i2].tags.contains(t));
            }
        }
    }
}

/// The nodes found by a tag are exactly the nodes that hold it.
pub proof fn nodes_with_tag_exact(g: GraphView, t: TagView, x: Seq<char>)
    requires
        g.wf(),
    ensures
        g.nodes_with_tag(t).contains(x) <==> (g.has(x) && g.node(x).tags.contains(t)),
{
    lemma_tagged_upto(g, t, g.nodes.len() as int, x);
    if g.has(x) {
        let i = g.index_of(x);
        if exists|j: int| 0 <= j < g.nodes.len() && #[trigger] g.nodes[j].id == x && g.nodes[j].tags.contains(t) {
            let j = choose|j: int| 0 <= j < g.nodes.len() && #[trigger] g.nodes[j].id == x && g.nodes[j].tags.contains(t);
            assert(j == i);
        }
    }
}

proof fn lemma_tag_union(g: GraphView, acc: Seq<Seq<char>>, tags: Seq<TagView>, k: int, x: Seq<char>)
    requires
        0 <= k <= tags.len(),
    ensures
        tag_union(g, acc, tags, k).contains(x) <==> (acc.contains(x) || exists|j: int|
            0 <= j < k && #[trigger] g.nodes_with_tag(tags[j]).contains(x)),
        acc.no_duplicates() ==> tag_union(g, acc, tags, k).no_duplicates(),
    decreases k,
{
    if k > 0 {
        lemma_tag_union(g, acc, tags, k - 1, x);
        let prev = tag_union(g, acc, tags, k - 1);
        lemma_append_new(prev, g.nodes_with_tag(tags[k - 1]));
        assert(tag_union(g, acc, tags, k).contains(x) == append_new(prev, g.nodes_with_tag(tags[k - 1])).contains(x));
        if exists|j: int| 0 <= j < k && #[trigger] g.nodes_with_tag(tags[j]).contains(x) {
            let j = choose|j: int| 0 <= j < k && #[trigger] g.nodes_with_tag(tags[j]).contains(x);
            if j < k - 1 {
                assert(exists|j2: int| 0 <= j2 < k - 1 && #[trigger] g.nodes_with_tag(tags[j2]).contains(x));
            }
        }
    }
}

/// With tag filters on (outside prune mode), the nodes shown are exactly
/// the nodes holding any active tag, each shown once.
pub proof fn tag_filter_shows_nodes_with_any_active_tag(s: AppStateView, g: GraphView, x: Seq<char>)
    requires
        g.wf(),
        s.active_tags.len() > 0,
        !s.prune_mode,
    ensures
        s.visible(g).contains(x) <==> (g.has(x) && exists|j: int|
            0 <= j < s.active_tags.len() && g.node(x).tags.contains(#[trigger] s.active_tags[j])),
        s.visible(g).no_duplicates(),
{
    let act = s.active_tags;
    lemma_tag_union(g, Seq::empty(), act, act.len() as int, x);
    assert(Seq::<Seq<char>>::empty().no_duplicates());
    assert(!Seq::<Seq<char>>::empty().contains(x));
    if s.visible(g).contains(x) {
        let j = choose|j: int| 0 <= j < act.len() && #[trigger] g.nodes_with_tag(act[j]).contains(x);
        nodes_with_tag_exact(g, act[j], x);
    }
    if g.has(x) && exists|j: int| 0 <= j < act.len() && g.node(x).tags.contains(#[trigger] act[j]) {
        let j = choose|j: int| 0 <= j < act.len() && g.node(x).tags.contains(#[trigger] act[j]);
        nodes_with_tag_exact(g, act[j], x);
        assert(g.nodes_with_tag(act[j]).contains(x));
    }
}

/// A subgraph shows exactly the context's children and the nodes that
/// share a tag with one of them.
pub proof fn subgraph_members(g: GraphView, ctx: Seq<char>, x: Seq<char>)
    ensures
        g.subgraph(ctx).contains(x) <==> (g.child_ids(ctx).contains(x) || exists|j: int|
            0 <= j < g.child_ids(ctx).len() && #[trigger] g.nodes_sharing_tags(g.child_ids(ctx)[j]).contains(x)),
{
    lemma_subgraph_members(g, ctx, g.child_ids(ctx).len() as int, x);
}

proof fn lemma_subgraph_members(g: GraphView, ctx: Seq<char>, k: int, x: Seq<char>)
    requires
        0 <= k <= g.child_ids(ctx).len(),
    ensures
        g.subgraph_upto(ctx, k).contains(x) <==> (g.child_ids(ctx).contains(x) || exists|j: int|
            0 <= j < k && #[trigger] g.nodes_sharing_tags(g.child_ids(ctx)[j]).contains(x)),
    decreases k,
{
    if k > 0 {
        lemma_subgraph_members(g, ctx, k - 1, x);
        let prev = g.subgraph_upto(ctx, k - 1);
        let c = g.child_ids(ctx);
        lemma_append_new(prev, g.nodes_sharing_tags(c[k - 1]));
        assert(g.subgraph_upto(ctx, k).contains(x) == append_new(prev, g.nodes_sharing_tags(c[k - 1])).contains(x));
        if exists|j: int| 0 <= j < k && #[trigger] g.nodes_sharing_tags(c[j]).contains(x) {
            let j = choose|j: int| 0 <= j < k && #[trigger] g.nodes_sharing_tags(c[j]).contains(x);
            if j < k - 1 {
                assert(exists|j2: int| 0 <= j2 < k - 1 && #[trigger] g.nodes_sharing_tags(c[j2]).contains(x));
            }
        }
    }
}

proof fn lemma_sharing_upto(g: GraphView, id: Seq<char>, k: int, x: Seq<char>)
    requires
        k <= g.nodes.len(),
    ensures
        g.sharing_upto(id, k).contains(x) <==> exists|i: int|
            0 <= i < k && #[trigger] g.nodes[i].id == x && x != id && crate::tags::shares_any(
                g.node(id).tags,
                g.nodes[i].tags,
            ),
    decreases k,
{
    if k > 0 {
        lemma_sharing_upto(g, id, k - 1, x);
        let prev = g.sharing_upto(id, k - 1);
        let n = g.nodes[k - 1];
        if n.id != id && crate::tags::shares_any(g.node(id).tags, n.tags) {
            lemma_push_contains(prev, n.id, x);
        }
        if exists|i: int|
            0 <= i < k && #[trigger] g.nodes[i].id == x && x != id && crate::tags::shares_any(
                g.node(id).tags,
                g.nodes[i].tags,
            ) {
            let i = choose|i: int|
                0 <= i < k && #[trigger] g.nodes[i].id == x && x != id && crate::tags::shares_any(
                    g.node(id).tags,
                    g.nodes[i].tags,
                );
            if i < k - 1 {
                assert(exists|i2: int|
                    0 <= i2 < k - 1 && #[trigger] g.nodes[i2].id == x && x != id && crate::tags::shares_any(
                        g.node(id).tags,
                        g.nodes[i2].tags,
                    ));
            }
        }
    }
}

/// The nodes sharing tags with a node are exactly the other nodes that
/// hold one of its tags.
pub proof fn sharing_nodes_exact(g: GraphView, id: Seq<char>, x: Seq<char>)
    requires
        g.wf(),
        g.has(id),
    ensures
        g.nodes_sharing_tags(id).contains(x) <==> (g.has(x) && x != id && crate::tags::shares_any(
            g.node(id).tags,
            g.node(x).tags,
        )),
{
    lemma_sharing_upto(g, id, g.nodes.len() as int, x);
    if g.has(x) {
        let i = g.index_of(x);
        if exists|j: int|
            0 <= j < g.nodes.len() && #[trigger] g.nodes[j].id == x && x != id && crate::tags::shares_any(
                g.node(id).tags,
                g.nodes[j].tags,
            ) {
            let j = choose|j: int|
                0 <= j < g.nodes.len() && #[trigger] g.nodes[j].id == x && x != id && crate::tags::shares_any(
                    g.node(id).tags,
                    g.nodes[j].tags,
                );
            assert(j == i);
        }
        if x != id && crate::tags::shares_any(g.node(id).tags, g.node(x).tags) {
            assert(g.nodes[i].id == x);
        }
    }
}


/// The breadcrumb trail is empty at the root level, and stays empty on the
/// way back to it.
pub open spec fn trail_consistent(s: AppStateView) -> bool {
    &&& s.depth_context is None ==> s.depth_stack.len() == 0
    &&& s.pending_depth_context == Some(None::<Seq<char>>) ==> s.depth_stack.len() == 0
}

/// The viewer starts with a consistent breadcrumb trail, and every
/// operation on depth, selection, tags or rail mode keeps it consistent.
pub proof fn trail_consistency_kept(s: AppStateView, g: GraphView, id: Seq<char>, t: TagView, clockwise: bool)
    ensures
        trail_consistent(crate::nav::initial_state()),
        trail_consistent(s) ==> {
            &&& trail_consistent(s.drilled(g, id))
            &&& trail_consistent(s.went_up())
            &&& trail_consistent(s.faded_out())
            &&& trail_consistent(s.faded_in())
            &&& trail_consistent(s.gone_home())
            &&& trail_consistent(s.rail_toggled())
            &&& trail_consistent(s.all_tags_toggled(g))
            &&& trail_consistent(s.highlight_cycled(g))
            &&& trail_consistent(s.highlighted_toggled(g))
            &&& trail_consistent(s.rail_cycled(clockwise))
            &&& trail_consistent(s.driven(g))
            &&& trail_consistent(AppStateView { active_tags: toggled(s.active_tags, t), ..s })
        },
{
}


proof fn lemma_count_in_contains(s: Seq<TagView>, t: TagView)
    ensures
        count_in(s, t) > 0 <==> s.contains(t),
    decreases s.len(),
{
    if s.len() > 0 {
        lemma_count_in_contains(s.drop_last(), t);
        assert(s =~= s.drop_last().push(s.last()));
        lemma_push_contains(s.drop_last(), s.last(), t);
    }
}

proof fn lemma_shared_upto(a: Seq<TagView>, b: Seq<TagView>, k: int)
    requires
        0 <= k <= a.len(),
    ensures
        forall|m: int|
            0 <= m < shared_upto(a, b, k).len() ==> a.contains(#[trigger] shared_upto(a, b, k)[m])
                && b.contains(shared_upto(a, b, k)[m]),
        forall|i: int| 0 <= i < k && b.contains(#[trigger] a[i]) ==> shared_upto(a, b, k).contains(a[i]),
    decreases k,
{
    if k > 0 {
        lemma_shared_upto(a, b, k - 1);
        let prev = shared_upto(a, b, k - 1);
        let t = a[k - 1];
        let rep = Seq::new(count_in(b, t), |i: int| t);
        lemma_count_in_contains(b, t);
        let cur = shared_upto(a, b, k);
        assert(cur == prev + rep);
        assert forall|m: int| 0 <= m < cur.len() implies a.contains(#[trigger] cur[m]) && b.contains(cur[m]) by {
            if m < prev.len() {
                assert(cur[m] == prev[m]);
            } else {
                assert(cur[m] == rep[m - prev.len()]);
                assert(a[k - 1] == t);
            }
        }
        assert forall|i: int| 0 <= i < k && b.contains(#[trigger] a[i]) implies cur.contains(a[i]) by {
            if i < k - 1 {
                let m = choose|m: int| 0 <= m < prev.len() && prev[m] == a[i];
                assert(cur[m] == prev[m]);
            } else {
                assert(cur[prev.len() as int] == rep[0]);
            }
        }
    }
}

/// The tags two nodes share are exactly the tags, equal in key and in
/// value, that both nodes hold.
pub proof fn all_shared_tags_exact(g: GraphView, a: Seq<char>, b: Seq<char>, t: TagView)
    ensures
        g.all_shared_tags(a, b).contains(t) <==> (g.has(a) && g.has(b) && g.node(a).tags.contains(t)
            && g.node(b).tags.contains(t)),
{
    if g.has(a) && g.has(b) {
        let ta = g.node(a).tags;
        let tb = g.node(b).tags;
        lemma_shared_upto(ta, tb, ta.len() as int);
        let sh = g.all_shared_tags(a, b);
        if sh.contains(t) {
            let m = choose|m: int| 0 <= m < sh.len() && sh[m] == t;
            assert(ta.contains(sh[m]) && tb.contains(sh[m]));
        }
        if ta.contains(t) && tb.contains(t) {
            let i = choose|i: int| 0 <= i < ta.len() && ta[i] == t;
            assert(tb.contains(ta[i]));
        }
    }
}

/// Whether the inferred edge `e` joins two nodes that both hold its tag.
pub open spec fn backed_by_shared_tag(g: GraphView, e: InferredView) -> bool {
    &&& g.has(e.0)
    &&& g.has(e.1)
    &&& g.node(e.0).tags.contains((e.2, e.3))
    &&& g.node(e.1).tags.contains((e.2, e.3))
}

proof fn lemma_pair_edges(g: GraphView, a: Seq<char>, b: Seq<char>)
    ensures
        forall|m: int| 0 <= m < g.pair_edges(a, b).len() ==> {
            let e = #[trigger] g.pair_edges(a, b)[m];
            &&& e.0 == a
            &&& e.1 == b
            &&& backed_by_shared_tag(g, e)
        },
{
    let sh = g.all_shared_tags(a, b);
    assert forall|m: int| 0 <= m < g.pair_edges(a, b).len() implies {
        let e = #[trigger] g.pair_edges(a, b)[m];
        &&& e.0 == a
        &&& e.1 == b
        &&& backed_by_shared_tag(g, e)
    } by {
        let t = sh[m];
        assert(g.pair_edges(a, b)[m] == (a, b, t.0, t.1));
        assert(sh.contains(t));
        all_shared_tags_exact(g, a, b, t);
        assert((t.0, t.1) == t);
    }
}

proof fn lemma_row_edges(g: GraphView, ids: Seq<Seq<char>>, i: int, j: int)
    requires
        0 <= i < ids.len(),
        j <= ids.len(),
    ensures
        forall|m: int| 0 <= m < g.row_edges(ids, i, j).len() ==> {
            let e = #[trigger] g.row_edges(ids, i, j)[m];
            &&& e.0 == ids[i]
            &&& ids.contains(e.1)
            &&& backed_by_shared_tag(g, e)
        },
    decreases j - i,
{
    if j > i + 1 {
        lemma_row_edges(g, ids, i, j - 1);
        lemma_pair_edges(g, ids[i], ids[j - 1]);
        let prev = g.row_edges(ids, i, j - 1);
        let pe = g.pair_edges(ids[i], ids[j - 1]);
        let cur = g.row_edges(ids, i, j);
        assert(cur == prev + pe);
        assert forall|m: int| 0 <= m < cur.len() implies {
            let e = #[trigger] cur[m];
            &&& e.0 == ids[i]
            &&& ids.contains(e.1)
            &&& backed_by_shared_tag(g, e)
        } by {
            if m < prev.len() {
                assert(cur[m] == prev[m]);
            } else {
                assert(cur[m] == pe[m - prev.len()]);
                assert(ids[j - 1] == cur[m].1);
            }
        }
    }
}

proof fn lemma_inferred_upto(g: GraphView, ids: Seq<Seq<char>>, i: int)
    requires
        0 <= i <= ids.len(),
    ensures
        forall|m: int| 0 <= m < g.inferred_upto(ids, i).len() ==> {
            let e = #[trigger] g.inferred_upto(ids, i)[m];
            &&& ids.contains(e.0)
            &&& ids.contains(e.1)
            &&& backed_by_shared_tag(g, e)
        },
    decreases i,
{
    if i > 0 {
        lemma_inferred_upto(g, ids, i - 1);
        lemma_row_edges(g, ids, i - 1, ids.len() as int);
        let prev = g.inferred_upto(ids, i - 1);
        let row = g.row_edges(ids, i - 1, ids.len() as int);
        let cur = g.inferred_upto(ids, i);
        assert(cur == prev + row);
        assert forall|m: int| 0 <= m < cur.len() implies {
            let e = #[trigger] cur[m];
            &&& ids.contains(e.0)
            &&& ids.contains(e.1)
            &&& backed_by_shared_tag(g, e)
        } by {
            if m < prev.len() {
                assert(cur[m] == prev[m]);
            } else {
                assert(cur[m] == row[m - prev.len()]);
                assert(ids[i - 1] == cur[m].0);
            }
        }
    }
}

/// Every inferred edge joins two of the given nodes, both of which hold
/// its tag with the same key and the same value.
pub proof fn inferred_edges_share_their_tag(g: GraphView, ids: Seq<Seq<char>>)
    ensures
        forall|m: int| 0 <= m < g.inferred_edges(ids).len() ==> {
            let e = #[trigger] g.inferred_edges(ids)[m];
            &&& ids.contains(e.0)
            &&& ids.contains(e.1)
            &&& g.has(e.0)
            &&& g.has(e.1)
            &&& g.node(e.0).tags.contains((e.2, e.3))
            &&& g.node(e.1).tags.contains((e.2, e.3))
        },
{
    lemma_inferred_upto(g, ids, ids.len() as int);
}

proof fn lemma_active_among(tags: Seq<TagView>, active: Seq<TagView>, k: int, t: TagView)
    requires
        0 <= k <= tags.len(),
    ensures
        active_among(tags, active, k).contains(t) <==> (active.contains(t) && exists|i: int|
            0 <= i < k && #[trigger] tags[i] == t),
    decreases k,
{
    if k > 0 {
        lemma_active_among(tags, active, k - 1, t);
        let prev = active_among(tags, active, k - 1);
        if active.contains(tags[k - 1]) {
            lemma_push_contains(prev, tags[k - 1], t);
        }
        if active.contains(t) && exists|i: int| 0 <= i < k && #[trigger] tags[i] == t {
            let i = choose|i: int| 0 <= i < k && #[trigger] tags[i] == t;
            if i < k - 1 {
                assert(exists|i2: int| 0 <= i2 < k - 1 && #[trigger] tags[i2] == t);
            }
        }
    }
}

/// In prune mode, with tag filters on and a current node `c`, the nodes
/// shown are `c` itself and exactly the nodes that hold a tag which is
/// both active and held by `c`.
pub proof fn prune_shows_current_and_active_tag_sharers(s: AppStateView, g: GraphView, c: Seq<char>, x: Seq<char>)
    requires
        g.wf(),
        s.active_tags.len() > 0,
        s.prune_mode,
        s.current_node == Some(c),
    ensures
        s.visible(g).contains(c),
        x != c ==> (s.visible(g).contains(x) <==> (g.has(c) && g.has(x) && exists|t: TagView|
            s.active_tags.contains(t) && g.node(c).tags.contains(t) && #[trigger] g.node(x).tags.contains(t))),
{
    let act = s.active_tags;
    let ct = if g.has(c) {
        active_among(g.node(c).tags, act, g.node(c).tags.len() as int)
    } else {
        Seq::empty()
    };
    let start = seq![c];
    assert(start[0] == c);
    assert(start.contains(c));
    lemma_tag_union(g, start, ct, ct.len() as int, x);
    lemma_tag_union(g, start, ct, ct.len() as int, c);
    assert(s.visible(g) == tag_union(g, start, ct, ct.len() as int));
    if x != c {
        assert(!start.contains(x)) by {
            if start.contains(x) {
                let i = choose|i: int| 0 <= i < start.len() && start[i] == x;
                assert(i == 0);
            }
        }
        if s.visible(g).contains(x) {
            let j = choose|j: int| 0 <= j < ct.len() && #[trigger] g.nodes_with_tag(ct[j]).contains(x);
            let t = ct[j];
            nodes_with_tag_exact(g, t, x);
            assert(g.has(c)) by {
                if !g.has(c) {
                    assert(ct.len() == 0);
                }
            }
            assert(ct.contains(t));
            lemma_active_among(g.node(c).tags, act, g.node(c).tags.len() as int, t);
            let i = choose|i: int| 0 <= i < g.node(c).tags.len() && #[trigger] g.node(c).tags[i] == t;
            assert(g.node(c).tags.contains(t));
            assert(g.node(x).tags.contains(t));
        }
        if g.has(c) && g.has(x) && exists|t: TagView|
            act.contains(t) && g.node(c).tags.contains(t) && #[trigger] g.node(x).tags.contains(t) {
            let t = choose|t: TagView|
                act.contains(t) && g.node(c).tags.contains(t) && #[trigger] g.node(x).tags.contains(t);
            let i = choose|i: int| 0 <= i < g.node(c).tags.len() && g.node(c).tags[i] == t;
            assert(g.node(c).tags[i] == t);
            lemma_active_among(g.node(c).tags, act, g.node(c).tags.len() as int, t);
            assert(ct.contains(t));
            let j = choose|j: int| 0 <= j < ct.len() && ct[j] == t;
            nodes_with_tag_exact(g, t, x);
            assert(g.nodes_with_tag(ct[j]).contains(x));
        }
    }
}

proof fn lemma_visible_edges_complete(g: GraphView, vis: Seq<Seq<char>>, k: int)
    requires
        k <= g.edges.len(),
    ensures
        forall|i: int|
            0 <= i < k && vis.contains(#[trigger] g.edges[i].from) && vis.contains(g.edges[i].to)
                ==> g.visible_edges_upto(vis, k).contains(i),
    decreases k,
{
    if k > 0 {
        lemma_visible_edges_complete(g, vis, k - 1);
        let prev = g.visible_edges_upto(vis, k - 1);
        let e = g.edges[k - 1];
        if vis.contains(e.from) && vis.contains(e.to) {
            assert forall|i: int|
                0 <= i < k && vis.contains(#[trigger] g.edges[i].from) && vis.contains(g.edges[i].to)
                    implies g.visible_edges_upto(vis, k).contains(i) by {
                lemma_push_contains(prev, k - 1, i);
            }
        }
    }
}

/// Every edge whose two ends are both visible is among the visible edges,
/// whatever its kind.
pub proof fn visible_edges_complete(g: GraphView, vis: Seq<Seq<char>>)
    ensures
        forall|i: int|
            0 <= i < g.edges.len() && vis.contains(#[trigger] g.edges[i].from) && vis.contains(g.edges[i].to)
                ==> g.visible_edges(vis).contains(i),
{
    lemma_visible_edges_complete(g, vis, g.edges.len() as int);
}

/// A subgraph shows exactly the context's children and the other nodes
/// that hold a tag, equal in key and in value, that one of those children
/// holds.
pub proof fn subgraph_exact(g: GraphView, ctx: Seq<char>, x: Seq<char>)
    requires
        g.wf(),
    ensures
        g.subgraph(ctx).contains(x) <==> (g.child_ids(ctx).contains(x) || (g.has(x) && exists|c: Seq<char>, t: TagView|
            g.child_ids(ctx).contains(c) && c != x && g.has(c) && #[trigger] g.node(c).tags.contains(t)
                && g.node(x).tags.contains(t))),
{
    let ch = g.child_ids(ctx);
    subgraph_members(g, ctx, x);
    if g.subgraph(ctx).contains(x) && !ch.contains(x) {
        let j = choose|j: int| 0 <= j < ch.len() && #[trigger] g.nodes_sharing_tags(ch[j]).contains(x);
        let c = ch[j];
        assert(g.has(c)) by {
            if !g.has(c) {
                assert(g.nodes_sharing_tags(c) == Seq::<Seq<char>>::empty());
            }
        }
        sharing_nodes_exact(g, c, x);
        let tc = g.node(c).tags;
        let i = choose|i: int| 0 <= i < tc.len() && g.node(x).tags.contains(#[trigger] tc[i]);
        let t = tc[i];
        assert(tc.contains(t));
        assert(ch.contains(c));
        assert(g.child_ids(ctx).contains(c) && c != x && g.has(c) && g.node(c).tags.contains(t)
            && g.node(x).tags.contains(t));
    }
    if !ch.contains(x) && g.has(x) && exists|c: Seq<char>, t: TagView|
        ch.contains(c) && c != x && g.has(c) && #[trigger] g.node(c).tags.contains(t) && g.node(x).tags.contains(t) {
        let (c, t) = choose|c: Seq<char>, t: TagView|
            ch.contains(c) && c != x && g.has(c) && #[trigger] g.node(c).tags.contains(t) && g.node(x).tags.contains(t);
        let j = choose|j: int| 0 <= j < ch.len() && ch[j] == c;
        let tc = g.node(c).tags;
        let i = choose|i: int| 0 <= i < tc.len() && tc[i] == t;
        assert(g.node(x).tags.contains(tc[i]));
        assert(crate::tags::shares_any(tc, g.node(x).tags));
        sharing_nodes_exact(g, c, x);
        assert(g.nodes_sharing_tags(ch[j]).contains(x));
    }
}

proof fn lemma_edge_offers(g: GraphView, cur: Seq<char>, k: int, i: int)
    requires
        0 <= i < k <= g.edges.len(),
    ensures
        g.edges[i].to == cur ==> edge_offers(g, cur, k).contains(g.edges[i].from),
        g.edges[i].from == cur ==> edge_offers(g, cur, k).contains(g.edges[i].to),
    decreases k,
{
    let e = g.edges[k - 1];
    let a = edge_offers(g, cur, k - 1);
    let b = if e.to == cur { a.push(e.from) } else { a };
    let c = if e.from == cur { b.push(e.to) } else { b };
    assert(edge_offers(g, cur, k) == c);
    if i < k - 1 {
        lemma_edge_offers(g, cur, k - 1, i);
        lemma_push_contains(a, e.from, g.edges[i].from);
        lemma_push_contains(a, e.from, g.edges[i].to);
        lemma_push_contains(b, e.to, g.edges[i].from);
        lemma_push_contains(b, e.to, g.edges[i].to);
    } else {
        lemma_push_contains(a, e.from, e.from);
        lemma_push_contains(b, e.to, e.from);
        lemma_push_contains(b, e.to, e.to);
    }
}

proof fn lemma_offer_all_keeps(acc: Seq<Seq<char>>, xs: Seq<Seq<char>>, vis: Seq<Seq<char>>, x: Seq<char>)
    requires
        acc.contains(x) || (xs.contains(x) && vis.contains(x)),
    ensures
        offer_all(acc, xs, vis).contains(x),
    decreases xs.len(),
{
    if xs.len() > 0 {
        let init = xs.drop_last();
        let l = xs.last();
        assert(xs =~= init.push(l));
        lemma_push_contains(init, l, x);
        let prev = offer_all(acc, init, vis);
        if acc.contains(x) || init.contains(x) {
            lemma_offer_all_keeps(acc, init, vis, x);
            lemma_push_contains(prev, l, x);
        } else {
            assert(l == x);
            if prev.contains(x) {
            } else {
                lemma_push_contains(prev, l, x);
            }
        }
    }
}

proof fn lemma_add_contains<A>(a: Seq<A>, b: Seq<A>, x: A)
    requires
        a.contains(x) || b.contains(x),
    ensures
        (a + b).contains(x),
{
    if a.contains(x) {
        let i = choose|i: int| 0 <= i < a.len() && a[i] == x;
        assert((a + b)[i] == x);
    } else {
        let i = choose|i: int| 0 <= i < b.len() && b[i] == x;
        assert((a + b)[a.len() + i] == x);
    }
}

/// Every visible node that the current node lists among its connections,
/// or that an edge joins to it in either direction, is among the current
/// node's rail neighbours.
pub proof fn rail_candidates_include_visible_neighbours(s: AppStateView, g: GraphView, cur: Seq<char>)
    requires
        s.current_node == Some(cur),
        g.has(cur),
    ensures
        forall|x: Seq<char>|
            #[trigger] g.node(cur).connections.contains(x) && s.visible(g).contains(x) ==> s.rail_candidates(g).contains(x),
        forall|k: int|
            0 <= k < g.edges.len() && #[trigger] g.edges[k].from == cur && s.visible(g).contains(g.edges[k].to)
                ==> s.rail_candidates(g).contains(g.edges[k].to),
        forall|k: int|
            0 <= k < g.edges.len() && #[trigger] g.edges[k].to == cur && s.visible(g).contains(g.edges[k].from)
                ==> s.rail_candidates(g).contains(g.edges[k].from),
{
    let n = g.node(cur);
    let eo = edge_offers(g, cur, g.edges.len() as int);
    let tail = if s.active_tags.len() > 0 {
        crate::nav::tag_offers(g, cur, n.tags, s.active_tags, n.tags.len() as int)
    } else {
        Seq::empty()
    };
    let vis = s.visible(g);
    assert(s.rail_offers(g, cur) == n.connections + eo + tail);
    assert(s.rail_candidates(g) == offer_all(Seq::empty(), n.connections + eo + tail, vis));
    assert forall|x: Seq<char>|
        #[trigger] g.node(cur).connections.contains(x) && vis.contains(x) implies s.rail_candidates(g).contains(x) by {
        lemma_add_contains(n.connections, eo, x);
        lemma_add_contains(n.connections + eo, tail, x);
        lemma_offer_all_keeps(Seq::empty(), n.connections + eo + tail, vis, x);
    }
    assert forall|k: int|
        0 <= k < g.edges.len() && #[trigger] g.edges[k].from == cur && vis.contains(g.edges[k].to)
            implies s.rail_candidates(g).contains(g.edges[k].to) by {
        let x = g.edges[k].to;
        lemma_edge_offers(g, cur, g.edges.len() as int, k);
        lemma_add_contains(n.connections, eo, x);
        lemma_add_contains(n.connections + eo, tail, x);
        lemma_offer_all_keeps(Seq::empty(), n.connections + eo + tail, vis, x);
    }
    assert forall|k: int|
        0 <= k < g.edges.len() && #[trigger] g.edges[k].to == cur && vis.contains(g.edges[k].from)
            implies s.rail_candidates(g).contains(g.edges[k].from) by {
        let x = g.edges[k].from;
        lemma_edge_offers(g, cur, g.edges.len() as int, k);
        lemma_add_contains(n.connections, eo, x);
        lemma_add_contains(n.connections + eo, tail, x);
        lemma_offer_all_keeps(Seq::empty(), n.connections + eo + tail, vis, x);
    }
}

proof fn lemma_pair_edges_complete(g: GraphView, a: Seq<char>, b: Seq<char>, t: TagView)
    requires
        g.all_shared_tags(a, b).contains(t),
    ensures
        g.pair_edges(a, b).contains((a, b, t.0, t.1)),
{
    let sh = g.all_shared_tags(a, b);
    let m = choose|m: int| 0 <= m < sh.len() && sh[m] == t;
    assert(g.pair_edges(a, b)[m] == (a, b, t.0, t.1));
}

proof fn lemma_row_edges_complete(g: GraphView, ids: Seq<Seq<char>>, i: int, j: int, jj: int, t: TagView)
    requires
        0 <= i < jj < j <= ids.len(),
        g.all_shared_tags(ids[i], ids[jj]).contains(t),
    ensures
        g.row_edges(ids, i, j).contains((ids[i], ids[jj], t.0, t.1)),
    decreases j - i,
{
    let prev = g.row_edges(ids, i, j - 1);
    let pe = g.pair_edges(ids[i], ids[j - 1]);
    assert(g.row_edges(ids, i, j) == prev + pe);
    if jj < j - 1 {
        lemma_row_edges_complete(g, ids, i, j - 1, jj, t);
        lemma_add_contains(prev, pe, (ids[i], ids[jj], t.0, t.1));
    } else {
        lemma_pair_edges_complete(g, ids[i], ids[jj], t);
        lemma_add_contains(prev, pe, (ids[i], ids[jj], t.0, t.1));
    }
}

proof fn lemma_inferred_upto_complete(g: GraphView, ids: Seq<Seq<char>>, k: int, i: int, jj: int, t: TagView)
    requires
        0 <= i < k <= ids.len(),
        i < jj < ids.len(),
        g.all_shared_tags(ids[i], ids[jj]).contains(t),
    ensures
        g.inferred_upto(ids, k).contains((ids[i], ids[jj], t.0, t.1)),
    decreases k,
{
    let prev = g.inferred_upto(ids, k - 1);
    let row = g.row_edges(ids, k - 1, ids.len() as int);
    assert(g.inferred_upto(ids, k) == prev + row);
    if i < k - 1 {
        lemma_inferred_upto_complete(g, ids, k - 1, i, jj, t);
    } else {
        lemma_row_edges_complete(g, ids, i, ids.len() as int, jj, t);
    }
    lemma_add_contains(prev, row, (ids[i], ids[jj], t.0, t.1));
}

/// For every pair of given nodes, the earlier one first, and every tag
/// (equal in key and in value) that both hold, there is an inferred edge.
pub proof fn inferred_edges_complete(g: GraphView, ids: Seq<Seq<char>>, i: int, j: int, t: TagView)
    requires
        0 <= i < j < ids.len(),
        g.has(ids[i]),
        g.has(ids[j]),
        g.node(ids[i]).tags.contains(t),
        g.node(ids[j]).tags.contains(t),
    ensures
        g.inferred_edges(ids).contains((ids[i], ids[j], t.0, t.1)),
{
    all_shared_tags_exact(g, ids[i], ids[j], t);
    lemma_inferred_upto_complete(g, ids, ids.len() as int, i, j, t);
}

proof fn lemma_without_keeps(xs: Seq<Seq<char>>, cur: Seq<char>, x: Seq<char>)
    requires
        xs.contains(x),
        x != cur,
    ensures
        without(xs, cur).contains(x),
    decreases xs.len(),
{
    let init = xs.drop_last();
    let l = xs.last();
    assert(xs =~= init.push(l));
    lemma_push_contains(init, l, x);
    let p = without(init, cur);
    if init.contains(x) {
        lemma_without_keeps(init, cur, x);
        if l != cur {
            lemma_push_contains(p, l, x);
        }
    } else {
        lemma_push_contains(p, l, x);
    }
}

proof fn lemma_tag_offers_keep(g: GraphView, cur: Seq<char>, tags: Seq<TagView>, active: Seq<TagView>, k: int, i: int, x: Seq<char>)
    requires
        0 <= i < k <= tags.len(),
        active.contains(tags[i]),
        without(g.nodes_with_tag(tags[i]), cur).contains(x),
    ensures
        tag_offers(g, cur, tags, active, k).contains(x),
    decreases k,
{
    let p = tag_offers(g, cur, tags, active, k - 1);
    if i < k - 1 {
        lemma_tag_offers_keep(g, cur, tags, active, k - 1, i, x);
        if active.contains(tags[k - 1]) {
            lemma_add_contains(p, without(g.nodes_with_tag(tags[k - 1]), cur), x);
        }
    } else {
        lemma_add_contains(p, without(g.nodes_with_tag(tags[k - 1]), cur), x);
    }
}

/// With tag filters on, every visible node other than the current one that
/// holds an active tag the current node also holds is among the current
/// node's rail neighbours.
pub proof fn rail_candidates_include_active_tag_sharers(
    s: AppStateView,
    g: GraphView,
    cur: Seq<char>,
    x: Seq<char>,
    t: TagView,
)
    requires
        g.wf(),
        s.current_node == Some(cur),
        g.has(cur),
        g.has(x),
        x != cur,
        s.active_tags.contains(t),
        g.node(cur).tags.contains(t),
        g.node(x).tags.contains(t),
        s.visible(g).contains(x),
    ensures
        s.rail_candidates(g).contains(x),
{
    let n = g.node(cur);
    let eo = edge_offers(g, cur, g.edges.len() as int);
    assert(s.active_tags.len() > 0);
    let tail = tag_offers(g, cur, n.tags, s.active_tags, n.tags.len() as int);
    let vis = s.visible(g);
    assert(s.rail_offers(g, cur) == n.connections + eo + tail);
    let i = choose|i: int| 0 <= i < n.tags.len() && n.tags[i] == t;
    nodes_with_tag_exact(g, t, x);
    lemma_without_keeps(g.nodes_with_tag(t), cur, x);
    assert(n.tags[i] == t);
    lemma_tag_offers_keep(g, cur, n.tags, s.active_tags, n.tags.len() as int, i, x);
    lemma_add_contains(n.connections + eo, tail, x);
    lemma_offer_all_keeps(Seq::empty(), n.connections + eo + tail, vis, x);
}

} // verus!
