//! Tag-based queries: how well a node matches the active tag filters, which
//! tags two nodes share, and the associations inferred from shared tags.
use vstd::prelude::*;
use crate::graph::{Graph, GraphView, Node};
use crate::text::{owned, copy_string, copy_tag, contains_tag, same_tag, TagView, append_new, extend_new};

verus! {

/// How many of the first `k` tags of `active` are held by `tags`.
pub open spec fn matched_upto(tags: Seq<TagView>, active: Seq<TagView>, k: int) -> nat
    decreases k,
{
    if k <= 0 {
        0
    } else {
        matched_upto(tags, active, k - 1) + if tags.contains(active[k - 1]) { 1nat } else { 0nat }
    }
}

/// How often `t` occurs in `s`.
pub open spec fn count_in(s: Seq<TagView>, t: TagView) -> nat
    decreases s.len(),
{
    if s.len() == 0 {
        0
    } else {
        count_in(s.drop_last(), t) + if s.last() == t { 1nat } else { 0nat }
    }
}

/// The first tag of `a`, from index `k` on, that `b` also holds.
pub open spec fn first_shared_from(a: Seq<TagView>, b: Seq<TagView>, k: int) -> Option<TagView>
    decreases a.len() - k,
{
    if k < 0 || k >= a.len() {
        None
    } else if b.contains(a[k]) {
        Some(a[k])
    } else {
        first_shared_from(a, b, k + 1)
    }
}

/// Each tag among the first `k` of `a`, repeated as often as `b` holds it.
pub open spec fn shared_upto(a: Seq<TagView>, b: Seq<TagView>, k: int) -> Seq<TagView>
    decreases k,
{
    if k <= 0 {
        Seq::empty()
    } else {
        shared_upto(a, b, k - 1) + Seq::new(count_in(b, a[k - 1]), |i: int| a[k - 1])
    }
}

/// Whether some tag of `a` is held by `b`.
pub open spec fn shares_any(a: Seq<TagView>, b: Seq<TagView>) -> bool {
    exists|i: int| 0 <= i < a.len() && b.contains(#[trigger] a[i])
}

/// An inferred edge: two node ids and the key and value of a shared tag.
pub type InferredView = (Seq<char>, Seq<char>, Seq<char>, Seq<char>);

impl GraphView {
    /// The score of a node against the active tags: how many of them it
    /// holds, and how many there are.
    pub open spec fn tag_match_score(self, id: Seq<char>, active: Seq<TagView>) -> (nat, nat) {
        if active.len() == 0 {
            (0, 0)
        } else if !self.has(id) {
            (0, active.len())
        } else {
            (matched_upto(self.node(id).tags, active, active.len() as int), active.len())
        }
    }

    /// The first tag of `a` (in `a`'s order) that `b` also holds, if both
    /// nodes exist.
    pub open spec fn shared_tag(self, a: Seq<char>, b: Seq<char>) -> Option<TagView> {
        if self.has(a) && self.has(b) {
            first_shared_from(self.node(a).tags, self.node(b).tags, 0)
        } else {
            None
        }
    }

    /// Every pairing of equal tags of `a` and `b`, in the order of `a`'s
    /// tags and then `b`'s.
    pub open spec fn all_shared_tags(self, a: Seq<char>, b: Seq<char>) -> Seq<TagView> {
        if self.has(a) && self.has(b) {
            let ta = self.node(a).tags;
            shared_upto(ta, self.node(b).tags, ta.len() as int)
        } else {
            Seq::empty()
        }
    }

    /// The inferred edges between `a` and `b`.
    pub open spec fn pair_edges(self, a: Seq<char>, b: Seq<char>) -> Seq<InferredView> {
        self.all_shared_tags(a, b).map_values(|t: TagView| (a, b, t.0, t.1))
    }

    /// The inferred edges from `ids[i]` to `ids[i + 1 .. j]`.
    pub open spec fn row_edges(self, ids: Seq<Seq<char>>, i: int, j: int) -> Seq<InferredView>
        decreases j - i,
    {
        if j <= i + 1 {
            Seq::empty()
        } else {
            self.row_edges(ids, i, j - 1) + self.pair_edges(ids[i], ids[j - 1])
        }
    }

    /// The inferred edges of the first `i` rows.
    pub open spec fn inferred_upto(self, ids: Seq<Seq<char>>, i: int) -> Seq<InferredView>
        decreases i,
    {
        if i <= 0 {
            Seq::empty()
        } else {
            self.inferred_upto(ids, i - 1) + self.row_edges(ids, i - 1, ids.len() as int)
        }
    }

    /// All inferred edges among `ids`: for each pair `i < j`, in order,
    /// one edge per shared tag.
    pub open spec fn inferred_edges(self, ids: Seq<Seq<char>>) -> Seq<InferredView> {
        self.inferred_upto(ids, ids.len() as int)
    }

    /// The ids of the first `k` nodes that hold tag `t`.
    pub open spec fn tagged_upto(self, t: TagView, k: int) -> Seq<Seq<char>>
        decreases k,
    {
        if k <= 0 {
            Seq::empty()
        } else if self.nodes[k - 1].tags.contains(t) {
            self.tagged_upto(t, k - 1).push(self.nodes[k - 1].id)
        } else {
            self.tagged_upto(t, k - 1)
        }
    }

    /// The ids of the nodes that hold tag `t`, in node order.
    pub open spec fn nodes_with_tag(self, t: TagView) -> Seq<Seq<char>> {
        self.tagged_upto(t, self.nodes.len() as int)
    }

    /// The ids, among the first `k` nodes, of those other than `id` that
    /// share a tag with node `id`.
    pub open spec fn sharing_upto(self, id: Seq<char>, k: int) -> Seq<Seq<char>>
        decreases k,
    {
        if k <= 0 {
            Seq::empty()
        } else if self.nodes[k - 1].id != id && shares_any(self.node(id).tags, self.nodes[k - 1].tags) {
            self.sharing_upto(id, k - 1).push(self.nodes[k - 1].id)
        } else {
            self.sharing_upto(id, k - 1)
        }
    }

    /// The ids of the other nodes that share a tag with node `id`, in node
    /// order; none if `id` is missing.
    pub open spec fn nodes_sharing_tags(self, id: Seq<char>) -> Seq<Seq<char>> {
        if self.has(id) {
            self.sharing_upto(id, self.nodes.len() as int)
        } else {
            Seq::empty()
        }
    }

    /// The subgraph after the first `k` children have added the nodes that
    /// share tags with them.
    pub open spec fn subgraph_upto(self, ctx: Seq<char>, k: int) -> Seq<Seq<char>>
        decreases k,
    {
        if k <= 0 {
            self.child_ids(ctx)
        } else {
            append_new(self.subgraph_upto(ctx, k - 1), self.nodes_sharing_tags(self.child_ids(ctx)[k - 1]))
        }
    }

    /// The nodes shown inside `ctx`: its children, then the nodes that
    /// share tags with them, each added once.
    pub open spec fn subgraph(self, ctx: Seq<char>) -> Seq<Seq<char>> {
        self.subgraph_upto(ctx, self.child_ids(ctx).len() as int)
    }
}

proof fn lemma_first_shared_none(a: Seq<TagView>, b: Seq<TagView>, k: int)
    requires
        0 <= k <= a.len(),
        forall|j: int| k <= j < a.len() ==> !b.contains(a[j]),
    ensures
        first_shared_from(a, b, k) is None,
    decreases a.len() - k,
{
    if k < a.len() {
        lemma_first_shared_none(a, b, k + 1);
    }
}

impl Graph {
    /// How many of the active tags the node holds, and how many active tags
    /// there are.
    pub fn tag_match_score(&self, node_id: &str, active_tags: &[(String, String)]) -> (r: (usize, usize))
        requires
            self@.wf(),
        ensures
            r.0 == self@.tag_match_score(node_id@, active_tags.deep_view()).0,
            r.1 == self@.tag_match_score(node_id@, active_tags.deep_view()).1,
    {
        if active_tags.len() == 0 {
            return (0, 0);
        }
        let node = match self.get_node(node_id) {
            Some(n) => n,
            None => return (0, active_tags.len()),
        };
        let ghost act = active_tags.deep_view();
        let mut matches: usize = 0;
        let mut k: usize = 0;
        while k < active_tags.len()
            invariant
                0 <= k <= active_tags@.len(),
                act == active_tags.deep_view(),
                matches == matched_upto(node.tags.deep_view(), act, k as int),
                matches <= k,
            decreases active_tags.len() - k,
        {
            if contains_tag(&node.tags, &active_tags[k]) {
                matches += 1;
            }
            k += 1;
        }
        (matches, active_tags.len())
    }

    /// The first tag that two nodes share (by `node_a`'s tag order), if both
    /// exist and they share one.
    pub fn nodes_share_tag(&self, node_a: &str, node_b: &str) -> (r: Option<(String, String)>)
        requires
            self@.wf(),
        ensures
            match r {
                Some(t) => self@.shared_tag(node_a@, node_b@) == Some(t.deep_view()),
                None => self@.shared_tag(node_a@, node_b@) is None,
            },
    {
        let a: &Node = match self.get_node(node_a) {
            Some(n) => n,
            None => return None,
        };
        let b: &Node = match self.get_node(node_b) {
            Some(n) => n,
            None => return None,
        };
        let ghost ta = a.tags.deep_view();
        let ghost tb = b.tags.deep_view();
        let mut i: usize = 0;
        while i < a.tags.len()
            invariant
                0 <= i <= a.tags@.len(),
                ta == a.tags.deep_view(),
                tb == b.tags.deep_view(),
                first_shared_from(ta, tb, 0) == first_shared_from(ta, tb, i as int),
                self@.has(node_a@) && self@.has(node_b@),
                a@ == self@.node(node_a@),
                b@ == self@.node(node_b@),
            decreases a.tags.len() - i,
        {
            if contains_tag(&b.tags, &a.tags[i]) {
                assert(ta[i as int] == a.tags@[i as int].deep_view());
                assert(tb.contains(ta[i as int]));
                assert(first_shared_from(ta, tb, i as int) == Some(ta[i as int]));
                return Some(copy_tag(&a.tags[i]));
            }
            i += 1;
        }
        proof {
            lemma_first_shared_none(ta, tb, a.tags@.len() as int);
        }
        None
    }

    /// Every tag shared between two nodes: for each tag of `node_a`, one
    /// copy per equal tag of `node_b`.
    pub fn get_all_shared_tags(&self, node_a: &str, node_b: &str) -> (r: Vec<(String, String)>)
        requires
            self@.wf(),
        ensures
            r.deep_view() == self@.all_shared_tags(node_a@, node_b@),
    {
        let a: &Node = match self.get_node(node_a) {
            Some(n) => n,
            None => {
                let r: Vec<(String, String)> = Vec::new();
                assert(r.deep_view() =~= Seq::empty());
                return r;
            },
        };
        let b: &Node = match self.get_node(node_b) {
            Some(n) => n,
            None => {
                let r: Vec<(String, String)> = Vec::new();
                assert(r.deep_view() =~= Seq::empty());
                return r;
            },
        };
        let ghost ta = a.tags.deep_view();
        let ghost tb = b.tags.deep_view();
        let mut shared: Vec<(String, String)> = Vec::new();
        let mut i: usize = 0;
        assert(shared.deep_view() =~= shared_upto(ta, tb, 0));
        while i < a.tags.len()
            invariant
                0 <= i <= a.tags@.len(),
                ta == a.tags.deep_view(),
                tb == b.tags.deep_view(),
                shared.deep_view() == shared_upto(ta, tb, i as int),
            decreases a.tags.len() - i,
        {
            let ghost before = shared.deep_view();
            let ghost t = ta[i as int];
            let mut j: usize = 0;
            assert(tb.take(0) =~= Seq::<TagView>::empty());
            assert(shared.deep_view() =~= before + Seq::new(count_in(tb.take(0), t), |m: int| t));
            while j < b.tags.len()
                invariant
                    0 <= i < a.tags@.len(),
                    0 <= j <= b.tags@.len(),
                    ta == a.tags.deep_view(),
                    tb == b.tags.deep_view(),
                    t == ta[i as int],
                    shared.deep_view() == before + Seq::new(count_in(tb.take(j as int), t), |m: int| t),
                decreases b.tags.len() - j,
            {
                assert(tb.take(j + 1).drop_last() =~= tb.take(j as int));
                assert(tb.take(j + 1).last() == tb[j as int]);
                let ghost s0 = shared.deep_view();
                if same_tag(&a.tags[i], &b.tags[j]) {
                    shared.push(copy_tag(&a.tags[i]));
                    assert(shared.deep_view() =~= s0.push(t));
                    assert(shared.deep_view() =~= before + Seq::new(
                        count_in(tb.take(j + 1), t),
                        |m: int| t,
                    ));
                } else {
                    assert(shared.deep_view() =~= before + Seq::new(
                        count_in(tb.take(j + 1), t),
                        |m: int| t,
                    ));
                }
                j += 1;
            }
            assert(tb.take(tb.len() as int) =~= tb);
            i += 1;
        }
        shared
    }

    /// The ids of the nodes that hold the tag `(key, value)`, in node order.
    pub fn get_nodes_with_tag(&self, key: &str, value: &str) -> (r: Vec<String>)
        ensures
            r.deep_view() == self@.nodes_with_tag((key@, value@)),
    {
        let t = (owned(key), owned(value));
        let nodes = self.nodes();
        let mut r: Vec<String> = Vec::new();
        let mut k: usize = 0;
        assert(r.deep_view() =~= Seq::empty());
        while k < nodes.len()
            invariant
                0 <= k <= nodes@.len(),
                t.deep_view() == (key@, value@),
                nodes@.len() == self@.nodes.len(),
                forall|i: int| 0 <= i < nodes@.len() ==> #[trigger] nodes@[i]@ == self@.nodes[i],
                r.deep_view() == self@.tagged_upto((key@, value@), k as int),
            decreases nodes.len() - k,
        {
            assert(nodes@[k as int]@ == self@.nodes[k as int]);
            if contains_tag(&nodes[k].tags, &t) {
                let ghost before = r.deep_view();
                r.push(copy_string(&nodes[k].id));
                assert(r.deep_view() =~= before.push(self@.nodes[k as int].id));
            }
            k += 1;
        }
        r
    }

    /// Whether some tag of `a` is held by `b`.
    fn share_any(a: &Vec<(String, String)>, b: &Vec<(String, String)>) -> (r: bool)
        ensures
            r == shares_any(a.deep_view(), b.deep_view()),
    {
        let mut i: usize = 0;
        while i < a.len()
            invariant
                0 <= i <= a@.len(),
                forall|j: int| 0 <= j < i ==> !b.deep_view().contains(#[trigger] a.deep_view()[j]),
            decreases a.len() - i,
        {
            if contains_tag(b, &a[i]) {
                assert(a.deep_view()[i as int] == a@[i as int].deep_view());
                return true;
            }
            i += 1;
        }
        false
    }

    /// The ids of the other nodes that share any tag with the node, in node
    /// order.
    pub fn get_nodes_with_shared_tags(&self, node_id: &str) -> (r: Vec<String>)
        requires
            self@.wf(),
        ensures
            r.deep_view() == self@.nodes_sharing_tags(node_id@),
    {
        let node: &Node = match self.get_node(node_id) {
            Some(n) => n,
            None => {
                let r: Vec<String> = Vec::new();
                assert(r.deep_view() =~= Seq::empty());
                return r;
            },
        };
        let key = owned(node_id);
        let nodes = self.nodes();
        let mut r: Vec<String> = Vec::new();
        let mut k: usize = 0;
        assert(r.deep_view() =~= Seq::empty());
        while k < nodes.len()
            invariant
                0 <= k <= nodes@.len(),
                key@ == node_id@,
                node@ == self@.node(node_id@),
                nodes@.len() == self@.nodes.len(),
                forall|i: int| 0 <= i < nodes@.len() ==> #[trigger] nodes@[i]@ == self@.nodes[i],
                r.deep_view() == self@.sharing_upto(node_id@, k as int),
            decreases nodes.len() - k,
        {
            assert(nodes@[k as int]@ == self@.nodes[k as int]);
            if !(nodes[k].id == key) && Self::share_any(&node.tags, &nodes[k].tags) {
                let ghost before = r.deep_view();
                r.push(copy_string(&nodes[k].id));
                assert(r.deep_view() =~= before.push(self@.nodes[k as int].id));
            }
            k += 1;
        }
        r
    }

    /// The nodes shown inside a context node: the targets of its directed
    /// edges, then each node that shares a tag with one of them, once.
    pub fn get_subgraph_nodes(&self, context_id: &str) -> (r: Vec<String>)
        requires
            self@.wf(),
        ensures
            r.deep_view() == self@.subgraph(context_id@),
    {
        let ctx = owned(context_id);
        let children = self.child_ids(&ctx);
        let mut result = crate::text::copy_strings(&children);
        let mut k: usize = 0;
        while k < children.len()
            invariant
                0 <= k <= children@.len(),
                self@.wf(),
                ctx@ == context_id@,
                children.deep_view() == self@.child_ids(context_id@),
                result.deep_view() == self@.subgraph_upto(context_id@, k as int),
            decreases children.len() - k,
        {
            let shared = self.get_nodes_with_shared_tags(children[k].as_str());
            assert(children.deep_view()[k as int] == children@[k as int]@);
            extend_new(&mut result, &shared);
            k += 1;
        }
        result
    }

    /// The associations inferred among the visible nodes: for each pair
    /// `i < j` of them, in order, one entry per tag they share.
    pub fn get_inferred_edges(&self, visible_node_ids: &[String]) -> (r: Vec<(String, String, String, String)>)
        requires
            self@.wf(),
        ensures
            r.deep_view() == self@.inferred_edges(visible_node_ids.deep_view()),
    {
        let ghost ids = visible_node_ids.deep_view();
        let n = visible_node_ids.len();
        let mut edges: Vec<(String, String, String, String)> = Vec::new();
        assert(edges.deep_view() =~= self@.inferred_upto(ids, 0));
        let mut i: usize = 0;
        while i < n
            invariant
                0 <= i <= n,
                n == visible_node_ids@.len(),
                ids == visible_node_ids.deep_view(),
                self@.wf(),
                edges.deep_view() == self@.inferred_upto(ids, i as int),
            decreases n - i,
        {
            let ghost row_start = edges.deep_view();
            let mut j: usize = i + 1;
            assert(edges.deep_view() =~= row_start + self@.row_edges(ids, i as int, j as int));
            while j < n
                invariant
                    0 <= i < n,
                    i + 1 <= j <= n,
                    n == visible_node_ids@.len(),
                    ids == visible_node_ids.deep_view(),
                    self@.wf(),
                    row_start == self@.inferred_upto(ids, i as int),
                    edges.deep_view() == row_start + self@.row_edges(ids, i as int, j as int),
                decreases n - j,
            {
                let id_a = &visible_node_ids[i];
                let id_b = &visible_node_ids[j];
                assert(ids[i as int] == id_a@ && ids[j as int] == id_b@);
                let shared = self.get_all_shared_tags(id_a.as_str(), id_b.as_str());
                let ghost pair = self@.pair_edges(ids[i as int], ids[j as int]);
                let ghost before = edges.deep_view();
                let mut m: usize = 0;
                assert(edges.deep_view() =~= before + pair.take(0));
                while m < shared.len()
                    invariant
                        0 <= m <= shared@.len(),
                        shared.deep_view() == self@.all_shared_tags(id_a@, id_b@),
                        pair == self@.pair_edges(id_a@, id_b@),
                        pair.len() == shared@.len(),
                        edges.deep_view() == before + pair.take(m as int),
                    decreases shared.len() - m,
                {
                    let ghost e0 = edges.deep_view();
                    edges.push((
                        copy_string(id_a),
                        copy_string(id_b),
                        copy_string(&shared[m].0),
                        copy_string(&shared[m].1),
                    ));
                    assert(shared.deep_view()[m as int] == shared@[m as int].deep_view());
                    assert(pair[m as int] == (id_a@, id_b@, shared@[m as int].0@, shared@[m as int].1@));
                    assert(pair.take(m + 1) =~= pair.take(m as int).push(pair[m as int]));
                    assert(edges.deep_view() =~= e0.push(pair[m as int]));
                    m += 1;
                }
                assert(pair.take(pair.len() as int) =~= pair);
                assert(edges.deep_view() =~= row_start + self@.row_edges(ids, i as int, j + 1));
                j += 1;
            }
            assert(edges.deep_view() =~= self@.inferred_upto(ids, i + 1));
            i += 1;
        }
        edges
    }
}

} // verus!
