//! The navigation state of the viewer and the decisions taken on it: depth
//! (drilling into collections and back out through a breadcrumb stack),
//! active tag filters, the highlighted tag, and rail mode's edge selection.
use vstd::prelude::*;
use crate::graph::{Graph, GraphView};
use crate::text::{owned, copy_string, copy_strings, copy_tag, position_of_tag, TagView, append_new, extend_new};

verus! {

/// The navigation state, without what is drawn or animated.
pub struct AppState {
    /// Whether rail mode (moving along edges) is on.
    pub rail_mode: bool,
    /// The node that is selected or highlighted.
    pub current_node: Option<String>,
    /// The node whose subgraph is shown (none: the root level).
    pub depth_context: Option<String>,
    /// The breadcrumb trail of enclosing contexts, for going back.
    pub depth_stack: Vec<String>,
    /// -1 while fading out, 0 when stable, 1 while fading in.
    pub transition_direction: i8,
    /// The context to switch to once the fade-out ends.
    pub pending_depth_context: Option<Option<String>>,
    pub dark_mode: bool,
    /// The active tag filters.
    pub active_tags: Vec<(String, String)>,
    /// Whether only nodes tied to the current node by active tags are shown.
    pub prune_mode: bool,
    /// The highlighted tag of the current node (cycled with Tab).
    pub highlighted_tag_index: Option<usize>,
    /// The neighbours reachable in rail mode, in the order they are cycled.
    pub rail_edges: Vec<String>,
    /// The selected rail neighbour, by position in `rail_edges`.
    pub rail_selected_index: Option<usize>,
}

/// The mathematical form of an `AppState`.
pub struct AppStateView {
    pub rail_mode: bool,
    pub current_node: Option<Seq<char>>,
    pub depth_context: Option<Seq<char>>,
    pub depth_stack: Seq<Seq<char>>,
    pub transition_direction: i8,
    pub pending_depth_context: Option<Option<Seq<char>>>,
    pub dark_mode: bool,
    pub active_tags: Seq<TagView>,
    pub prune_mode: bool,
    pub highlighted_tag_index: Option<usize>,
    pub rail_edges: Seq<Seq<char>>,
    pub rail_selected_index: Option<usize>,
}

impl View for AppState {
    type V = AppStateView;

    open spec fn view(&self) -> AppStateView {
        AppStateView {
            rail_mode: self.rail_mode,
            current_node: self.current_node.deep_view(),
            depth_context: self.depth_context.deep_view(),
            depth_stack: self.depth_stack.deep_view(),
            transition_direction: self.transition_direction,
            pending_depth_context: self.pending_depth_context.deep_view(),
            dark_mode: self.dark_mode,
            active_tags: self.active_tags.deep_view(),
            prune_mode: self.prune_mode,
            highlighted_tag_index: self.highlighted_tag_index,
            rail_edges: self.rail_edges.deep_view(),
            rail_selected_index: self.rail_selected_index,
        }
    }
}

/// The first position of `t` in `s`.
pub open spec fn first_index(s: Seq<TagView>, t: TagView) -> int {
    choose|i: int| 0 <= i < s.len() && s[i] == t && forall|j: int| 0 <= j < i ==> s[j] != t
}

/// `active` with `t` removed (its first occurrence) if present, or added at
/// the end if not.
pub open spec fn toggled(active: Seq<TagView>, t: TagView) -> Seq<TagView> {
    if active.contains(t) {
        active.remove(first_index(active, t))
    } else {
        active.push(t)
    }
}

/// The state the viewer starts in: at the root level, on the home node.
pub open spec fn initial_state() -> AppStateView {
    AppStateView {
        rail_mode: false,
        current_node: Some("home"@),
        depth_context: None,
        depth_stack: Seq::empty(),
        transition_direction: 0,
        pending_depth_context: None,
        dark_mode: false,
        active_tags: Seq::empty(),
        prune_mode: false,
        highlighted_tag_index: None,
        rail_edges: Seq::empty(),
        rail_selected_index: None,
    }
}

impl AppStateView {
    /// Drilling into `id`: when it has children and no transition is under
    /// way, the current context goes on the stack and a fade-out starts
    /// toward `id`.
    pub open spec fn drilled(self, g: GraphView, id: Seq<char>) -> AppStateView {
        if g.has_children(id) && self.transition_direction == 0 {
            AppStateView {
                depth_stack: match self.depth_context {
                    Some(c) => self.depth_stack.push(c),
                    None => self.depth_stack,
                },
                pending_depth_context: Some(Some(id)),
                transition_direction: -1i8,
                ..self
            }
        } else {
            self
        }
    }

    /// Whether going up a level starts: inside a subgraph, with no
    /// transition under way.
    pub open spec fn can_go_up(self) -> bool {
        self.depth_context is Some && self.transition_direction == 0
    }

    /// Going up a level: the enclosing context is popped from the stack
    /// (the root if it is empty) and a fade-out starts toward it.
    pub open spec fn went_up(self) -> AppStateView {
        if self.can_go_up() {
            AppStateView {
                depth_stack: if self.depth_stack.len() > 0 {
                    self.depth_stack.drop_last()
                } else {
                    self.depth_stack
                },
                pending_depth_context: Some(
                    if self.depth_stack.len() > 0 {
                        Some(self.depth_stack.last())
                    } else {
                        None
                    },
                ),
                transition_direction: -1i8,
                ..self
            }
        } else {
            self
        }
    }

    /// The end of a fade-out: the pending context (if any) takes over, the
    /// selection is dropped outside rail mode, and the fade-in starts.
    pub open spec fn faded_out(self) -> AppStateView {
        match self.pending_depth_context {
            Some(ctx) => AppStateView {
                depth_context: ctx,
                pending_depth_context: None,
                current_node: if self.rail_mode { self.current_node } else { None },
                transition_direction: 1i8,
                ..self
            },
            None => AppStateView { transition_direction: 1i8, ..self },
        }
    }

    /// The end of a fade-in.
    pub open spec fn faded_in(self) -> AppStateView {
        AppStateView { transition_direction: 0i8, ..self }
    }

    /// The trail shown as breadcrumbs: the stack, then the context.
    pub open spec fn breadcrumb_path(self) -> Seq<Seq<char>> {
        match self.depth_context {
            Some(c) => self.depth_stack.push(c),
            None => self.depth_stack,
        }
    }
}

impl AppState {
    /// The starting state.
    pub fn new() -> (r: Self)
        ensures
            r@ == initial_state(),
    {
        let r = AppState {
            rail_mode: false,
            current_node: Some(owned("home")),
            depth_context: None,
            depth_stack: Vec::new(),
            transition_direction: 0,
            pending_depth_context: None,
            dark_mode: false,
            active_tags: Vec::new(),
            prune_mode: false,
            highlighted_tag_index: None,
            rail_edges: Vec::new(),
            rail_selected_index: None,
        };
        assert(r.depth_stack.deep_view() =~= Seq::empty());
        assert(r.active_tags.deep_view() =~= Seq::empty());
        assert(r.rail_edges.deep_view() =~= Seq::empty());
        r
    }

    /// Drills into a node's subgraph, if it has children and no transition
    /// is under way.
    pub fn drill_into(&mut self, graph: &Graph, node_id: &str)
        ensures
            final(self)@ == old(self)@.drilled(graph@, node_id@),
    {
        if graph.has_children(node_id) && self.transition_direction == 0 {
            match &self.depth_context {
                Some(ctx) => {
                    let c = copy_string(ctx);
                    let ghost before = self.depth_stack.deep_view();
                    self.depth_stack.push(c);
                    assert(self.depth_stack.deep_view() =~= before.push(ctx@));
                },
                None => {},
            }
            self.pending_depth_context = Some(Some(owned(node_id)));
            self.transition_direction = -1;
        }
    }

    /// Goes up one depth level; returns whether a transition started.
    pub fn go_up_level(&mut self) -> (r: bool)
        ensures
            r == old(self)@.can_go_up(),
            final(self)@ == old(self)@.went_up(),
    {
        if self.depth_context.is_some() && self.transition_direction == 0 {
            let ghost before = self.depth_stack.deep_view();
            let parent_context = self.depth_stack.pop();
            proof {
                if before.len() > 0 {
                    assert(self.depth_stack.deep_view() =~= before.drop_last());
                } else {
                    assert(self.depth_stack.deep_view() =~= before);
                }
            }
            self.pending_depth_context = Some(parent_context);
            self.transition_direction = -1;
            true
        } else {
            false
        }
    }

    /// Ends a fade-out: switches to the pending context, if there is one
    /// (and returns true), and starts the fade-in.
    pub fn finish_fade_out(&mut self) -> (r: bool)
        ensures
            r == old(self)@.pending_depth_context is Some,
            final(self)@ == old(self)@.faded_out(),
    {
        let switched = match self.pending_depth_context.take() {
            Some(new_context) => {
                self.depth_context = new_context;
                if !self.rail_mode {
                    self.current_node = None;
                }
                true
            },
            None => false,
        };
        self.transition_direction = 1;
        switched
    }

    /// Ends a fade-in.
    pub fn finish_fade_in(&mut self)
        ensures
            final(self)@ == old(self)@.faded_in(),
    {
        self.transition_direction = 0;
    }

    /// Whether the view is inside a subgraph rather than at the root.
    pub fn is_in_subgraph(&self) -> (r: bool)
        ensures
            r == (self@.depth_context is Some),
    {
        self.depth_context.is_some()
    }

    /// The context whose subgraph is shown.
    pub fn get_depth_context(&self) -> (r: Option<String>)
        ensures
            r.deep_view() == self@.depth_context,
    {
        match &self.depth_context {
            Some(c) => Some(copy_string(c)),
            None => None,
        }
    }

    /// The breadcrumb trail: the stack of enclosing contexts, then the
    /// current context.
    pub fn get_breadcrumb_path(&self) -> (r: Vec<String>)
        ensures
            r.deep_view() == self@.breadcrumb_path(),
    {
        let mut path = copy_strings(&self.depth_stack);
        match &self.depth_context {
            Some(ctx) => {
                let ghost before = path.deep_view();
                path.push(copy_string(ctx));
                assert(path.deep_view() =~= before.push(ctx@));
            },
            None => {},
        }
        path
    }

    /// Whether rail mode is on.
    pub fn is_rail_mode(&self) -> (r: bool)
        ensures
            r == self@.rail_mode,
    {
        self.rail_mode
    }

    /// Flips dark mode.
    pub fn toggle_dark_mode(&mut self)
        ensures
            final(self)@ == (AppStateView { dark_mode: !old(self)@.dark_mode, ..old(self)@ }),
    {
        self.dark_mode = !self.dark_mode;
    }

    /// Flips prune mode.
    pub fn toggle_prune_mode(&mut self)
        ensures
            final(self)@ == (AppStateView { prune_mode: !old(self)@.prune_mode, ..old(self)@ }),
    {
        self.prune_mode = !self.prune_mode;
    }

    /// Toggles a tag filter: removed if active, added if not.
    pub fn toggle_tag(&mut self, key: &str, value: &str)
        ensures
            final(self)@ == (AppStateView {
                active_tags: toggled(old(self)@.active_tags, (key@, value@)),
                ..old(self)@
            }),
    {
        let tag = (owned(key), owned(value));
        self.toggle_active(tag);
    }

    fn toggle_active(&mut self, tag: (String, String))
        ensures
            final(self)@ == (AppStateView {
                active_tags: toggled(old(self)@.active_tags, tag.deep_view()),
                ..old(self)@
            }),
    {
        let ghost before = self.active_tags.deep_view();
        let ghost t = tag.deep_view();
        match position_of_tag(&self.active_tags, &tag) {
            Some(pos) => {
                self.active_tags.remove(pos);
                proof {
                    assert(before.contains(t));
                    let k = first_index(before, t);
                    assert(k == pos as int) by {
                        if k < pos {
                            assert(before[k] != t);
                        }
                        if pos < k {
                            assert(before[pos as int] != t);
                        }
                    }
                    assert(self.active_tags.deep_view() =~= before.remove(pos as int));
                }
            },
            None => {
                self.active_tags.push(tag);
                assert(self.active_tags.deep_view() =~= before.push(t));
            },
        }
    }

    /// Clears every tag filter.
    pub fn clear_tags(&mut self)
        ensures
            final(self)@ == (AppStateView { active_tags: Seq::empty(), ..old(self)@ }),
    {
        self.active_tags.clear();
        assert(self.active_tags.deep_view() =~= Seq::empty());
    }

    /// Whether any tag filter is active.
    pub fn has_active_tags(&self) -> (r: bool)
        ensures
            r == (self@.active_tags.len() > 0),
    {
        self.active_tags.len() > 0
    }

    /// The highlighted tag of the current node.
    pub fn get_highlighted_tag_index(&self) -> (r: Option<usize>)
        ensures
            r == self@.highlighted_tag_index,
    {
        self.highlighted_tag_index
    }

    /// Clears the highlighted tag.
    pub fn clear_highlighted_tag(&mut self)
        ensures
            final(self)@ == (AppStateView { highlighted_tag_index: None, ..old(self)@ }),
    {
        self.highlighted_tag_index = None;
    }
}


/// `acc` extended, tag by tag over the first `k` of `tags`, with the ids
/// of the nodes holding the tag that it does not yet hold.
pub open spec fn tag_union(g: GraphView, acc: Seq<Seq<char>>, tags: Seq<TagView>, k: int) -> Seq<Seq<char>>
    decreases k,
{
    if k <= 0 {
        acc
    } else {
        append_new(tag_union(g, acc, tags, k - 1), g.nodes_with_tag(tags[k - 1]))
    }
}

/// The first `k` of `tags` that `active` holds, in order.
pub open spec fn active_among(tags: Seq<TagView>, active: Seq<TagView>, k: int) -> Seq<TagView>
    decreases k,
{
    if k <= 0 {
        Seq::empty()
    } else if active.contains(tags[k - 1]) {
        active_among(tags, active, k - 1).push(tags[k - 1])
    } else {
        active_among(tags, active, k - 1)
    }
}

/// The ids of the given nodes.
pub open spec fn ids_of(nodes: Seq<crate::graph::NodeView>) -> Seq<Seq<char>> {
    nodes.map_values(|n: crate::graph::NodeView| n.id)
}

impl AppStateView {
    /// The nodes holding any active tag, each once, in tag order.
    pub open spec fn tag_filtered(self, g: GraphView) -> Seq<Seq<char>> {
        tag_union(g, Seq::empty(), self.active_tags, self.active_tags.len() as int)
    }

    /// The nodes of the current depth: the context's subgraph, or the roots.
    pub open spec fn depth_nodes(self, g: GraphView) -> Seq<Seq<char>> {
        match self.depth_context {
            Some(c) => g.subgraph(c),
            None => ids_of(g.roots()),
        }
    }

    /// The nodes that are shown: with active tags, the nodes holding one
    /// (in prune mode, only the current node and the nodes sharing one of
    /// its active tags); otherwise the nodes of the current depth.
    pub open spec fn visible(self, g: GraphView) -> Seq<Seq<char>> {
        if self.active_tags.len() > 0 {
            if self.prune_mode {
                match self.current_node {
                    Some(cur) => {
                        let ct = if g.has(cur) {
                            active_among(g.node(cur).tags, self.active_tags, g.node(cur).tags.len() as int)
                        } else {
                            Seq::empty()
                        };
                        tag_union(g, seq![cur], ct, ct.len() as int)
                    },
                    None => Seq::empty(),
                }
            } else {
                self.tag_filtered(g)
            }
        } else {
            self.depth_nodes(g)
        }
    }
}

impl AppState {
    /// Extends `acc` with the nodes holding each of `tags`.
    fn union_of_tagged(graph: &Graph, acc: &mut Vec<String>, tags: &Vec<(String, String)>)
        ensures
            final(acc).deep_view() == tag_union(
                graph@,
                old(acc).deep_view(),
                tags.deep_view(),
                tags@.len() as int,
            ),
    {
        let ghost start = acc.deep_view();
        let mut k: usize = 0;
        while k < tags.len()
            invariant
                0 <= k <= tags@.len(),
                acc.deep_view() == tag_union(graph@, start, tags.deep_view(), k as int),
            decreases tags.len() - k,
        {
            let ids = graph.get_nodes_with_tag(tags[k].0.as_str(), tags[k].1.as_str());
            assert(tags.deep_view()[k as int] == (tags@[k as int].0@, tags@[k as int].1@));
            extend_new(acc, &ids);
            k += 1;
        }
    }

    /// The nodes of the current depth.
    fn depth_node_ids(&self, graph: &Graph) -> (r: Vec<String>)
        requires
            graph@.wf(),
        ensures
            r.deep_view() == self@.depth_nodes(graph@),
    {
        match &self.depth_context {
            Some(ctx) => graph.get_subgraph_nodes(ctx.as_str()),
            None => {
                let roots = graph.get_root_nodes();
                let mut r: Vec<String> = Vec::new();
                let mut k: usize = 0;
                while k < roots.len()
                    invariant
                        0 <= k <= roots@.len(),
                        roots@.len() == graph@.roots().len(),
                        forall|i: int| 0 <= i < roots@.len() ==> #[trigger] roots@[i]@ == graph@.roots()[i],
                        r@.len() == k,
                        forall|i: int| 0 <= i < k ==> #[trigger] r@[i]@ == graph@.roots()[i].id,
                    decreases roots.len() - k,
                {
                    assert(roots@[k as int]@ == graph@.roots()[k as int]);
                    r.push(copy_string(&roots[k].id));
                    k += 1;
                }
                assert(r.deep_view() =~= ids_of(graph@.roots()));
                r
            },
        }
    }

    /// The ids of the nodes that are shown, given the active tags (and prune
    /// mode) or the current depth.
    pub fn get_visible_node_ids(&self, graph: &Graph) -> (r: Vec<String>)
        requires
            graph@.wf(),
        ensures
            r.deep_view() == self@.visible(graph@),
    {
        if self.active_tags.len() > 0 {
            if self.prune_mode {
                match &self.current_node {
                    Some(current_id) => {
                        let mut current_tags: Vec<(String, String)> = Vec::new();
                        match graph.get_node(current_id.as_str()) {
                            Some(node) => {
                                let ghost act = self.active_tags.deep_view();
                                let mut k: usize = 0;
                                assert(current_tags.deep_view() =~= active_among(
                                    node.tags.deep_view(),
                                    act,
                                    0,
                                ));
                                while k < node.tags.len()
                                    invariant
                                        0 <= k <= node.tags@.len(),
                                        act == self.active_tags.deep_view(),
                                        current_tags.deep_view() == active_among(
                                            node.tags.deep_view(),
                                            act,
                                            k as int,
                                        ),
                                    decreases node.tags.len() - k,
                                {
                                    assert(node.tags.deep_view()[k as int] == node.tags@[k as int].deep_view());
                                    if crate::text::contains_tag(&self.active_tags, &node.tags[k]) {
                                        let ghost before = current_tags.deep_view();
                                        current_tags.push(copy_tag(&node.tags[k]));
                                        assert(current_tags.deep_view() =~= before.push(
                                            node.tags@[k as int].deep_view(),
                                        ));
                                    }
                                    k += 1;
                                }
                            },
                            None => {
                                assert(current_tags.deep_view() =~= Seq::empty());
                            },
                        }
                        let mut node_ids: Vec<String> = Vec::new();
                        node_ids.push(copy_string(current_id));
                        assert(node_ids.deep_view() =~= seq![current_id@]);
                        Self::union_of_tagged(graph, &mut node_ids, &current_tags);
                        node_ids
                    },
                    None => {
                        let r: Vec<String> = Vec::new();
                        assert(r.deep_view() =~= Seq::empty());
                        r
                    },
                }
            } else {
                let mut node_ids: Vec<String> = Vec::new();
                assert(node_ids.deep_view() =~= Seq::empty());
                Self::union_of_tagged(graph, &mut node_ids, &self.active_tags);
                node_ids
            }
        } else {
            self.depth_node_ids(graph)
        }
    }
}


/// `acc` with `x` pushed, if `x` is visible and not yet in `acc`.
pub open spec fn offer(acc: Seq<Seq<char>>, x: Seq<char>, vis: Seq<Seq<char>>) -> Seq<Seq<char>> {
    if vis.contains(x) && !acc.contains(x) {
        acc.push(x)
    } else {
        acc
    }
}

/// `acc` after offering each of `xs` in turn.
pub open spec fn offer_all(acc: Seq<Seq<char>>, xs: Seq<Seq<char>>, vis: Seq<Seq<char>>) -> Seq<Seq<char>>
    decreases xs.len(),
{
    if xs.len() == 0 {
        acc
    } else {
        offer(offer_all(acc, xs.drop_last(), vis), xs.last(), vis)
    }
}

/// The other ends of the first `k` edges that touch `cur`: for each edge,
/// its source if it leads into `cur`, then its target if it leaves `cur`.
pub open spec fn edge_offers(g: GraphView, cur: Seq<char>, k: int) -> Seq<Seq<char>>
    decreases k,
{
    if k <= 0 {
        Seq::empty()
    } else {
        let e = g.edges[k - 1];
        let a = edge_offers(g, cur, k - 1);
        let b = if e.to == cur { a.push(e.from) } else { a };
        if e.from == cur { b.push(e.to) } else { b }
    }
}

/// `xs` without the entries equal to `cur`.
pub open spec fn without(xs: Seq<Seq<char>>, cur: Seq<char>) -> Seq<Seq<char>>
    decreases xs.len(),
{
    if xs.len() == 0 {
        Seq::empty()
    } else {
        let p = without(xs.drop_last(), cur);
        if xs.last() != cur { p.push(xs.last()) } else { p }
    }
}

/// For each of the first `k` of `tags` that is active, the other nodes
/// holding it.
pub open spec fn tag_offers(
    g: GraphView,
    cur: Seq<char>,
    tags: Seq<TagView>,
    active: Seq<TagView>,
    k: int,
) -> Seq<Seq<char>>
    decreases k,
{
    if k <= 0 {
        Seq::empty()
    } else {
        let p = tag_offers(g, cur, tags, active, k - 1);
        if active.contains(tags[k - 1]) {
            p + without(g.nodes_with_tag(tags[k - 1]), cur)
        } else {
            p
        }
    }
}

proof fn lemma_offer_all_push(acc: Seq<Seq<char>>, xs: Seq<Seq<char>>, x: Seq<char>, vis: Seq<Seq<char>>)
    ensures
        offer_all(acc, xs.push(x), vis) == offer(offer_all(acc, xs, vis), x, vis),
{
    assert(xs.push(x).drop_last() =~= xs);
}

impl AppStateView {
    /// Going home: back to the root level, with no tag filters, on the home
    /// node.
    pub open spec fn gone_home(self) -> AppStateView {
        AppStateView {
            depth_context: None,
            depth_stack: Seq::empty(),
            active_tags: Seq::empty(),
            prune_mode: false,
            current_node: Some("home"@),
            ..self
        }
    }

    /// Rail mode flipped; leaving it drops the rail neighbours and selection.
    pub open spec fn rail_toggled(self) -> AppStateView {
        if self.rail_mode {
            AppStateView {
                rail_mode: false,
                rail_edges: Seq::empty(),
                rail_selected_index: None,
                ..self
            }
        } else {
            AppStateView { rail_mode: true, ..self }
        }
    }

    /// With active tags, they are cleared (and prune mode with them);
    /// otherwise the current node's tags become the active ones.
    pub open spec fn all_tags_toggled(self, g: GraphView) -> AppStateView {
        if self.active_tags.len() > 0 {
            AppStateView { active_tags: Seq::empty(), prune_mode: false, ..self }
        } else {
            match self.current_node {
                Some(c) => if g.has(c) {
                    AppStateView { active_tags: g.node(c).tags, ..self }
                } else {
                    self
                },
                None => self,
            }
        }
    }

    /// The highlight moved to the next tag of the current node, wrapping
    /// around; none if the node has no tags.
    pub open spec fn highlight_cycled(self, g: GraphView) -> AppStateView {
        match self.current_node {
            Some(c) => if g.has(c) {
                let n = g.node(c).tags.len();
                if n == 0 {
                    AppStateView { highlighted_tag_index: None, ..self }
                } else {
                    AppStateView {
                        highlighted_tag_index: Some(
                            match self.highlighted_tag_index {
                                None => 0usize,
                                Some(i) => if i + 1 >= n { 0usize } else { (i + 1) as usize },
                            },
                        ),
                        ..self
                    }
                }
            } else {
                self
            },
            None => self,
        }
    }

    /// The highlighted tag of the current node toggled among the filters.
    pub open spec fn highlighted_toggled(self, g: GraphView) -> AppStateView {
        match (self.highlighted_tag_index, self.current_node) {
            (Some(i), Some(c)) => if g.has(c) && i < g.node(c).tags.len() {
                AppStateView { active_tags: toggled(self.active_tags, g.node(c).tags[i as int]), ..self }
            } else {
                self
            },
            _ => self,
        }
    }

    /// What the neighbours of `cur` offer to rail mode, in order: its
    /// connections, the other ends of its edges, and, with tag filters on,
    /// the other nodes holding one of its active tags.
    pub open spec fn rail_offers(self, g: GraphView, cur: Seq<char>) -> Seq<Seq<char>> {
        let n = g.node(cur);
        n.connections + edge_offers(g, cur, g.edges.len() as int) + if self.active_tags.len() > 0 {
            tag_offers(g, cur, n.tags, self.active_tags, n.tags.len() as int)
        } else {
            Seq::empty()
        }
    }

    /// The visible neighbours of the current node, each once, in the order
    /// they are offered.
    pub open spec fn rail_candidates(self, g: GraphView) -> Seq<Seq<char>> {
        match self.current_node {
            Some(cur) => if g.has(cur) {
                offer_all(Seq::empty(), self.rail_offers(g, cur), self.visible(g))
            } else {
                Seq::empty()
            },
            None => Seq::empty(),
        }
    }

    /// The selection stepped to the next neighbour (clockwise) or the
    /// previous one, wrapping around; the first if none was selected.
    pub open spec fn rail_cycled(self, clockwise: bool) -> AppStateView {
        if !self.rail_mode || self.rail_edges.len() == 0 {
            self
        } else {
            let len = self.rail_edges.len() as int;
            AppStateView {
                rail_selected_index: Some(
                    match self.rail_selected_index {
                        Some(i) => if clockwise {
                            ((i + 1) % len) as usize
                        } else {
                            ((i + len - 1) % len) as usize
                        },
                        None => 0usize,
                    },
                ),
                ..self
            }
        }
    }

    /// The selection after driving starts: a lone neighbour gets selected.
    pub open spec fn drive_selected(self) -> AppStateView {
        if self.rail_selected_index is None && self.rail_edges.len() == 1 {
            AppStateView { rail_selected_index: Some(0usize), ..self }
        } else {
            self
        }
    }

    /// The neighbour that driving moves to, if any.
    pub open spec fn drive_target(self, g: GraphView) -> Option<Seq<char>> {
        if !self.rail_mode {
            None
        } else {
            let s = self.drive_selected();
            match s.rail_selected_index {
                Some(i) => if i < s.rail_edges.len() && g.has(s.rail_edges[i as int]) {
                    Some(s.rail_edges[i as int])
                } else {
                    None
                },
                None => None,
            }
        }
    }

    /// The state after driving along the selected rail edge: the target
    /// becomes current and the selection and highlight are dropped.
    pub open spec fn driven(self, g: GraphView) -> AppStateView {
        if !self.rail_mode {
            self
        } else {
            let s = self.drive_selected();
            match self.drive_target(g) {
                Some(t) => AppStateView {
                    current_node: Some(t),
                    rail_selected_index: None,
                    highlighted_tag_index: None,
                    ..s
                },
                None => s,
            }
        }
    }

    /// The selected rail neighbour in rail mode.
    pub open spec fn rail_selection(self) -> Option<Seq<char>> {
        if !self.rail_mode {
            None
        } else {
            match self.rail_selected_index {
                Some(i) => if i < self.rail_edges.len() { Some(self.rail_edges[i as int]) } else { None },
                None => None,
            }
        }
    }
}

impl AppState {
    /// Goes back to the root level on the home node, clearing tag filters.
    pub fn go_home(&mut self)
        ensures
            final(self)@ == old(self)@.gone_home(),
    {
        self.depth_context = None;
        self.depth_stack.clear();
        self.active_tags.clear();
        self.prune_mode = false;
        self.current_node = Some(owned("home"));
        assert(self.depth_stack.deep_view() =~= Seq::empty());
        assert(self.active_tags.deep_view() =~= Seq::empty());
    }

    /// Makes `node_id` the current node and drops the highlighted tag, as a
    /// click on it does.
    pub fn select_node(&mut self, node_id: &str)
        ensures
            final(self)@ == (AppStateView {
                current_node: Some(node_id@),
                highlighted_tag_index: None,
                ..old(self)@
            }),
    {
        self.current_node = Some(owned(node_id));
        self.highlighted_tag_index = None;
    }

    /// Sets the current node.
    pub fn set_current_node(&mut self, node_id: Option<&str>)
        ensures
            final(self)@ == (AppStateView {
                current_node: match node_id {
                    Some(id) => Some(id@),
                    None => None,
                },
                ..old(self)@
            }),
    {
        self.current_node = match node_id {
            Some(id) => Some(owned(id)),
            None => None,
        };
    }

    /// Opens a node, as a double-click does: drills into it if it has
    /// children; otherwise makes it current and returns true, for the view
    /// to zoom in to its article.
    pub fn open_node(&mut self, graph: &Graph, node_id: &str) -> (zoom: bool)
        ensures
            zoom == !graph@.has_children(node_id@),
            final(self)@ == if graph@.has_children(node_id@) {
                old(self)@.drilled(graph@, node_id@)
            } else {
                AppStateView { current_node: Some(node_id@), ..old(self)@ }
            },
    {
        if graph.has_children(node_id) {
            self.drill_into(graph, node_id);
            false
        } else {
            self.current_node = Some(owned(node_id));
            true
        }
    }

    /// Zooms in on the current node, as Enter does: drills into it if it has
    /// children; otherwise returns true, for the view to zoom in.
    pub fn zoom_in_current(&mut self, graph: &Graph) -> (zoom: bool)
        ensures
            zoom == match old(self)@.current_node {
                Some(c) => !graph@.has_children(c),
                None => false,
            },
            final(self)@ == match old(self)@.current_node {
                Some(c) => if graph@.has_children(c) {
                    old(self)@.drilled(graph@, c)
                } else {
                    old(self)@
                },
                None => old(self)@,
            },
    {
        match &self.current_node {
            Some(node_id) => {
                let id = copy_string(node_id);
                if graph.has_children(id.as_str()) {
                    self.drill_into(graph, id.as_str());
                    false
                } else {
                    true
                }
            },
            None => false,
        }
    }

    /// Flips rail mode and returns whether it is now on; leaving it drops the
    /// rail neighbours and the selection.
    pub fn toggle_rail_mode(&mut self) -> (r: bool)
        ensures
            r == !old(self)@.rail_mode,
            final(self)@ == old(self)@.rail_toggled(),
    {
        self.rail_mode = !self.rail_mode;
        if !self.rail_mode {
            self.rail_edges.clear();
            self.rail_selected_index = None;
            assert(self.rail_edges.deep_view() =~= Seq::empty());
        }
        self.rail_mode
    }

    /// Clears active tags (and prune mode) if there are any; otherwise
    /// activates every tag of the current node.
    pub fn toggle_all_tags(&mut self, graph: &Graph)
        requires
            graph@.wf(),
        ensures
            final(self)@ == old(self)@.all_tags_toggled(graph@),
    {
        if self.active_tags.len() > 0 {
            self.active_tags.clear();
            self.prune_mode = false;
            assert(self.active_tags.deep_view() =~= Seq::empty());
        } else {
            match &self.current_node {
                Some(node_id) => match graph.get_node(node_id.as_str()) {
                    Some(node) => {
                        let mut all: Vec<(String, String)> = Vec::new();
                        let mut k: usize = 0;
                        while k < node.tags.len()
                            invariant
                                0 <= k <= node.tags@.len(),
                                all@.len() == k,
                                forall|i: int| 0 <= i < k ==> #[trigger] all@[i].deep_view() == node.tags@[i].deep_view(),
                            decreases node.tags.len() - k,
                        {
                            all.push(copy_tag(&node.tags[k]));
                            k += 1;
                        }
                        assert(all.deep_view() =~= node.tags.deep_view());
                        self.active_tags = all;
                    },
                    None => {},
                },
                None => {},
            }
        }
    }

    /// Moves the highlight to the next tag of the current node, wrapping
    /// around.
    pub fn cycle_highlighted_tag(&mut self, graph: &Graph)
        requires
            graph@.wf(),
        ensures
            final(self)@ == old(self)@.highlight_cycled(graph@),
    {
        match &self.current_node {
            Some(node_id) => match graph.get_node(node_id.as_str()) {
                Some(node) => {
                    let tag_count = node.tags.len();
                    if tag_count == 0 {
                        self.highlighted_tag_index = None;
                    } else {
                        self.highlighted_tag_index = match self.highlighted_tag_index {
                            None => Some(0),
                            Some(idx) => if idx >= tag_count - 1 {
                                Some(0)
                            } else {
                                Some(idx + 1)
                            },
                        };
                    }
                },
                None => {},
            },
            None => {},
        }
    }

    /// Toggles the highlighted tag of the current node among the filters.
    pub fn toggle_highlighted_tag(&mut self, graph: &Graph)
        requires
            graph@.wf(),
        ensures
            final(self)@ == old(self)@.highlighted_toggled(graph@),
    {
        match self.highlighted_tag_index {
            Some(idx) => match &self.current_node {
                Some(node_id) => match graph.get_node(node_id.as_str()) {
                    Some(node) => {
                        if idx < node.tags.len() {
                            let tag = copy_tag(&node.tags[idx]);
                            assert(node.tags.deep_view()[idx as int] == node.tags@[idx as int].deep_view());
                            self.toggle_active(tag);
                        }
                    },
                    None => {},
                },
                None => {},
            },
            None => {},
        }
    }
}


/// Offers `x` to `v`: pushed if visible and not yet there.
fn offer_to(v: &mut Vec<String>, x: &String, vis: &Vec<String>)
    ensures
        final(v).deep_view() == offer(old(v).deep_view(), x@, vis.deep_view()),
{
    if crate::text::contains_string(vis, x) && !crate::text::contains_string(v, x) {
        let ghost before = v.deep_view();
        v.push(copy_string(x));
        assert(v.deep_view() =~= before.push(x@));
    }
}

proof fn lemma_offer_step(
    v_old: Seq<Seq<char>>,
    v_new: Seq<Seq<char>>,
    offered: Seq<Seq<char>>,
    x: Seq<char>,
    vis: Seq<Seq<char>>,
)
    requires
        v_old == offer_all(Seq::empty(), offered, vis),
        v_new == offer(v_old, x, vis),
    ensures
        v_new == offer_all(Seq::empty(), offered.push(x), vis),
{
    lemma_offer_all_push(Seq::empty(), offered, x, vis);
}

impl AppState {
    /// The visible neighbours of the current node that rail mode can move
    /// to, each once, in the order they are offered: its connections, the
    /// other ends of its edges, then (with tag filters on) the other nodes
    /// holding one of its active tags. The view orders them by direction.
    pub fn rail_candidates(&self, graph: &Graph) -> (r: Vec<String>)
        requires
            graph@.wf(),
        ensures
            r.deep_view() == self@.rail_candidates(graph@),
    {
        let mut connected: Vec<String> = Vec::new();
        assert(connected.deep_view() =~= Seq::empty());
        let current_id = match &self.current_node {
            Some(id) => copy_string(id),
            None => return connected,
        };
        let node = match graph.get_node(current_id.as_str()) {
            Some(n) => n,
            None => return connected,
        };
        let visible = self.get_visible_node_ids(graph);
        let ghost g = graph@;
        let ghost vis = visible.deep_view();
        let ghost cur = current_id@;
        let ghost conns = node.connections.deep_view();
        let ghost offered: Seq<Seq<char>> = Seq::empty();
        let mut k: usize = 0;
        while k < node.connections.len()
            invariant
                0 <= k <= node.connections@.len(),
                conns == node.connections.deep_view(),
                vis == visible.deep_view(),
                offered == conns.take(k as int),
                connected.deep_view() == offer_all(Seq::empty(), offered, vis),
            decreases node.connections.len() - k,
        {
            let ghost before = connected.deep_view();
            offer_to(&mut connected, &node.connections[k], &visible);
            proof {
                assert(conns[k as int] == node.connections@[k as int]@);
                lemma_offer_step(before, connected.deep_view(), offered, conns[k as int], vis);
                offered = offered.push(conns[k as int]);
                assert(offered =~= conns.take(k + 1));
            }
            k += 1;
        }
        assert(conns.take(conns.len() as int) =~= conns);
        let edges = graph.edges();
        let mut m: usize = 0;
        assert(offered =~= conns + edge_offers(g, cur, 0));
        while m < edges.len()
            invariant
                0 <= m <= edges@.len(),
                g == graph@,
                cur == current_id@,
                vis == visible.deep_view(),
                edges@.len() == g.edges.len(),
                forall|i: int| 0 <= i < edges@.len() ==> #[trigger] edges@[i]@ == g.edges[i],
                offered == conns + edge_offers(g, cur, m as int),
                connected.deep_view() == offer_all(Seq::empty(), offered, vis),
            decreases edges.len() - m,
        {
            assert(edges@[m as int]@ == g.edges[m as int]);
            let ghost a = edge_offers(g, cur, m as int);
            if edges[m].to == current_id {
                let ghost before = connected.deep_view();
                offer_to(&mut connected, &edges[m].from, &visible);
                proof {
                    lemma_offer_step(before, connected.deep_view(), offered, edges@[m as int].from@, vis);
                    offered = offered.push(edges@[m as int].from@);
                }
            }
            if edges[m].from == current_id {
                let ghost before = connected.deep_view();
                offer_to(&mut connected, &edges[m].to, &visible);
                proof {
                    lemma_offer_step(before, connected.deep_view(), offered, edges@[m as int].to@, vis);
                    offered = offered.push(edges@[m as int].to@);
                }
            }
            proof {
                let e = g.edges[m as int];
                let b = if e.to == cur { a.push(e.from) } else { a };
                let c = if e.from == cur { b.push(e.to) } else { b };
                assert(edge_offers(g, cur, m + 1) == c);
                assert(offered =~= conns + c);
            }
            m += 1;
        }
        let ghost base = offered;
        if self.active_tags.len() > 0 {
            let ghost act = self.active_tags.deep_view();
            let ghost tags = node.tags.deep_view();
            let mut t: usize = 0;
            assert(offered =~= base + tag_offers(g, cur, tags, act, 0));
            while t < node.tags.len()
                invariant
                    0 <= t <= node.tags@.len(),
                    g == graph@,
                    cur == current_id@,
                    vis == visible.deep_view(),
                    act == self.active_tags.deep_view(),
                    tags == node.tags.deep_view(),
                    offered == base + tag_offers(g, cur, tags, act, t as int),
                    connected.deep_view() == offer_all(Seq::empty(), offered, vis),
                decreases node.tags.len() - t,
            {
                assert(tags[t as int] == node.tags@[t as int].deep_view());
                let ghost before_tag = offered;
                if crate::text::contains_tag(&self.active_tags, &node.tags[t]) {
                    let ids = graph.get_nodes_with_tag(node.tags[t].0.as_str(), node.tags[t].1.as_str());
                    let ghost idv = ids.deep_view();
                    let mut j: usize = 0;
                    assert(offered =~= before_tag + without(idv.take(0), cur));
                    while j < ids.len()
                        invariant
                            0 <= j <= ids@.len(),
                            cur == current_id@,
                            vis == visible.deep_view(),
                            idv == ids.deep_view(),
                            offered == before_tag + without(idv.take(j as int), cur),
                            connected.deep_view() == offer_all(Seq::empty(), offered, vis),
                        decreases ids.len() - j,
                    {
                        assert(idv[j as int] == ids@[j as int]@);
                        assert(idv.take(j + 1).drop_last() =~= idv.take(j as int));
                        if !(ids[j] == current_id) {
                            let ghost before = connected.deep_view();
                            offer_to(&mut connected, &ids[j], &visible);
                            proof {
                                lemma_offer_step(before, connected.deep_view(), offered, idv[j as int], vis);
                                offered = offered.push(idv[j as int]);
                                assert(offered =~= before_tag + without(idv.take(j + 1), cur));
                            }
                        } else {
                            assert(offered =~= before_tag + without(idv.take(j + 1), cur));
                        }
                        j += 1;
                    }
                    assert(idv.take(idv.len() as int) =~= idv);
                    assert(offered =~= base + tag_offers(g, cur, tags, act, t + 1));
                } else {
                    assert(offered =~= base + tag_offers(g, cur, tags, act, t + 1));
                }
                t += 1;
            }
        } else {
            assert(offered =~= base + Seq::<Seq<char>>::empty());
        }
        assert(offered =~= self@.rail_offers(g, cur));
        connected
    }

    /// Installs the rail neighbours in the order the view cycles them;
    /// the selection is dropped, or set to the only neighbour if there is
    /// one.
    pub fn set_rail_edges(&mut self, edges: Vec<String>)
        ensures
            final(self)@ == (AppStateView {
                rail_edges: edges.deep_view(),
                rail_selected_index: if edges@.len() == 1 { Some(0usize) } else { None },
                ..old(self)@
            }),
    {
        self.rail_selected_index = if edges.len() == 1 { Some(0) } else { None };
        self.rail_edges = edges;
    }

    /// Steps the rail selection clockwise (`n`) or counter-clockwise (`p`).
    pub fn cycle_rail_edge(&mut self, clockwise: bool)
        ensures
            final(self)@ == old(self)@.rail_cycled(clockwise),
    {
        if !self.rail_mode || self.rail_edges.len() == 0 {
            return;
        }
        let len = self.rail_edges.len();
        self.rail_selected_index = Some(
            match self.rail_selected_index {
                Some(idx) => {
                    let r = idx % len;
                    proof {
                        lemma_mod_steps(idx as int, len as int);
                    }
                    if clockwise {
                        if r + 1 == len { 0 } else { r + 1 }
                    } else {
                        if r == 0 { len - 1 } else { r - 1 }
                    }
                },
                None => 0,
            },
        );
    }

    /// Selects the rail neighbour at `index`, as aiming in a direction does.
    pub fn select_rail_edge(&mut self, index: usize)
        ensures
            final(self)@ == if !old(self)@.rail_mode || old(self)@.rail_edges.len() == 0 {
                old(self)@
            } else {
                AppStateView { rail_selected_index: Some(index), ..old(self)@ }
            },
    {
        if !self.rail_mode || self.rail_edges.len() == 0 {
            return;
        }
        self.rail_selected_index = Some(index);
    }

    /// Drives along the selected rail edge (a lone neighbour is selected
    /// first): the neighbour becomes current, and is returned for the view to
    /// move to.
    pub fn drive_rail(&mut self, graph: &Graph) -> (r: Option<String>)
        requires
            graph@.wf(),
        ensures
            r.deep_view() == old(self)@.drive_target(graph@),
            final(self)@ == old(self)@.driven(graph@),
    {
        if !self.rail_mode {
            return None;
        }
        if self.rail_selected_index.is_none() && self.rail_edges.len() == 1 {
            self.rail_selected_index = Some(0);
        }
        let target_id = match self.rail_selected_index {
            Some(idx) => if idx < self.rail_edges.len() {
                assert(self.rail_edges.deep_view()[idx as int] == self.rail_edges@[idx as int]@);
                copy_string(&self.rail_edges[idx])
            } else {
                return None;
            },
            None => return None,
        };
        match graph.find(&target_id) {
            Some(_) => {
                let r = copy_string(&target_id);
                self.current_node = Some(target_id);
                self.rail_selected_index = None;
                self.highlighted_tag_index = None;
                Some(r)
            },
            None => None,
        }
    }

    /// The selected rail neighbour, in rail mode.
    pub fn get_rail_selection(&self) -> (r: Option<String>)
        ensures
            r.deep_view() == self@.rail_selection(),
    {
        if !self.rail_mode {
            return None;
        }
        match self.rail_selected_index {
            Some(idx) => if idx < self.rail_edges.len() {
                assert(self.rail_edges.deep_view()[idx as int] == self.rail_edges@[idx as int]@);
                Some(copy_string(&self.rail_edges[idx]))
            } else {
                None
            },
            None => None,
        }
    }
}

/// Stepping a position by one around a cycle of `len`, from its remainder.
pub(crate) proof fn lemma_mod_steps(i: int, len: int)
    requires
        0 <= i,
        0 < len,
    ensures
        (i + 1) % len == (if i % len + 1 == len { 0 } else { i % len + 1 }),
        (i + len - 1) % len == (if i % len == 0 { len - 1 } else { i % len - 1 }),
{
    vstd::arithmetic::div_mod::lemma_fundamental_div_mod(i, len);
    let q = i / len;
    let r = i % len;
    assert(i == q * len + r) by (nonlinear_arith)
        requires
            i == len * (i / len) + (i % len),
            q == i / len,
            r == i % len,
    ;
    assert(0 <= r < len);
    if r + 1 == len {
        assert(i + 1 == (q + 1) * len + 0) by (nonlinear_arith)
            requires
                i == q * len + r,
                r + 1 == len,
        ;
        vstd::arithmetic::div_mod::lemma_fundamental_div_mod_converse(i + 1, len, q + 1, 0);
    } else {
        vstd::arithmetic::div_mod::lemma_fundamental_div_mod_converse(i + 1, len, q, r + 1);
    }
    if r == 0 {
        vstd::arithmetic::div_mod::lemma_fundamental_div_mod_converse(i + len - 1, len, q, len - 1);
    } else {
        assert(i + len - 1 == (q + 1) * len + (r - 1)) by (nonlinear_arith)
            requires
                i == q * len + r,
        ;
        vstd::arithmetic::div_mod::lemma_fundamental_div_mod_converse(i + len - 1, len, q + 1, r - 1);
    }
}

} // verus!
