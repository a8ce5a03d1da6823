//! Structural queries on the graph: children, associations, parents,
//! roots, subgraphs and the edges among a set of visible nodes.
use vstd::prelude::*;
use crate::graph::{Graph, GraphView, NodeView, EdgeType, Edge};
use crate::text::{owned, copy_string, contains_string};

verus! {

impl GraphView {
    /// The nodes that the first `k` edges lead to from `id` as directed
    /// edges, skipping edges to missing nodes.
    pub open spec fn children_upto(self, id: Seq<char>, k: int) -> Seq<NodeView>
        decreases k,
    {
        if k <= 0 {
            Seq::empty()
        } else {
            let prev = self.children_upto(id, k - 1);
            let e = self.edges[k - 1];
            if e.from == id && e.edge_type == EdgeType::Directed && self.has(e.to) {
                prev.push(self.node(e.to))
            } else {
                prev
            }
        }
    }

    /// The children of `id`: the targets of directed edges from it, in
    /// edge order.
    pub open spec fn children(self, id: Seq<char>) -> Seq<NodeView> {
        self.children_upto(id, self.edges.len() as int)
    }

    /// The node across an undirected edge `e` from `id`, if any.
    pub open spec fn across(self, e: crate::graph::EdgeView, id: Seq<char>) -> Option<NodeView> {
        if e.edge_type != EdgeType::Undirected {
            None
        } else if e.from == id {
            if self.has(e.to) { Some(self.node(e.to)) } else { None }
        } else if e.to == id {
            if self.has(e.from) { Some(self.node(e.from)) } else { None }
        } else {
            None
        }
    }

    /// The associated nodes across the first `k` edges.
    pub open spec fn associations_upto(self, id: Seq<char>, k: int) -> Seq<NodeView>
        decreases k,
    {
        if k <= 0 {
            Seq::empty()
        } else {
            let prev = self.associations_upto(id, k - 1);
            match self.across(self.edges[k - 1], id) {
                Some(n) => prev.push(n),
                None => prev,
            }
        }
    }

    /// The nodes joined to `id` by undirected edges, in edge order.
    pub open spec fn associations(self, id: Seq<char>) -> Seq<NodeView> {
        self.associations_upto(id, self.edges.len() as int)
    }

    /// The source of the last directed edge among the first `k` that leads
    /// to `id`.
    pub open spec fn parent_id_upto(self, id: Seq<char>, k: int) -> Option<Seq<char>>
        decreases k,
    {
        if k <= 0 {
            None
        } else {
            let e = self.edges[k - 1];
            if e.to == id && e.edge_type == EdgeType::Directed {
                Some(e.from)
            } else {
                self.parent_id_upto(id, k - 1)
            }
        }
    }

    /// The parent of `id`: the source of the last directed edge leading to
    /// it, if `id` and that source are both nodes of the graph.
    pub open spec fn parent_of(self, id: Seq<char>) -> Option<NodeView> {
        if self.has(id) {
            match self.parent_id_upto(id, self.edges.len() as int) {
                Some(p) => if self.has(p) { Some(self.node(p)) } else { None },
                None => None,
            }
        } else {
            None
        }
    }

    /// Whether a directed edge leads to `id`.
    pub open spec fn has_incoming(self, id: Seq<char>) -> bool {
        exists|k: int|
            #![trigger self.edges[k]]
            0 <= k < self.edges.len() && self.edges[k].to == id && self.edges[k].edge_type
                == EdgeType::Directed
    }

    /// The nodes among the first `k` that no directed edge leads to.
    pub open spec fn roots_upto(self, k: int) -> Seq<NodeView>
        decreases k,
    {
        if k <= 0 {
            Seq::empty()
        } else {
            let prev = self.roots_upto(k - 1);
            if !self.has_incoming(self.nodes[k - 1].id) {
                prev.push(self.nodes[k - 1])
            } else {
                prev
            }
        }
    }

    /// The nodes that no directed edge leads to, in node order.
    pub open spec fn roots(self) -> Seq<NodeView> {
        self.roots_upto(self.nodes.len() as int)
    }

    /// Whether a directed edge leads from `id`.
    pub open spec fn has_children(self, id: Seq<char>) -> bool {
        exists|k: int|
            #![trigger self.edges[k]]
            0 <= k < self.edges.len() && self.edges[k].from == id && self.edges[k].edge_type
                == EdgeType::Directed
    }

    /// The target ids of the directed edges among the first `k` that leave
    /// `id`, whether or not the targets exist.
    pub open spec fn child_ids_upto(self, id: Seq<char>, k: int) -> Seq<Seq<char>>
        decreases k,
    {
        if k <= 0 {
            Seq::empty()
        } else {
            let prev = self.child_ids_upto(id, k - 1);
            let e = self.edges[k - 1];
            if e.from == id && e.edge_type == EdgeType::Directed {
                prev.push(e.to)
            } else {
                prev
            }
        }
    }

    /// The target ids of all directed edges from `id`, in edge order.
    pub open spec fn child_ids(self, id: Seq<char>) -> Seq<Seq<char>> {
        self.child_ids_upto(id, self.edges.len() as int)
    }

    /// The indices of the edges among the first `k` whose two ends are
    /// both in `visible`.
    pub open spec fn visible_edges_upto(self, visible: Seq<Seq<char>>, k: int) -> Seq<int>
        decreases k,
    {
        if k <= 0 {
            Seq::empty()
        } else {
            let prev = self.visible_edges_upto(visible, k - 1);
            let e = self.edges[k - 1];
            if visible.contains(e.from) && visible.contains(e.to) {
                prev.push(k - 1)
            } else {
                prev
            }
        }
    }

    /// The indices of the edges whose two ends are both visible.
    pub open spec fn visible_edges(self, visible: Seq<Seq<char>>) -> Seq<int> {
        self.visible_edges_upto(visible, self.edges.len() as int)
    }
}

impl Graph {
    /// The children of a node: the targets of directed edges from it that
    /// exist, in edge order.
    pub fn get_children(&self, node_id: &str) -> (r: Vec<&crate::graph::Node>)
        requires
            self@.wf(),
        ensures
            r@.len() == self@.children(node_id@).len(),
            forall|i: int| 0 <= i < r@.len() ==> #[trigger] r@[i]@ == self@.children(node_id@)[i],
    {
        let key = owned(node_id);
        let edges = self.edges();
        let nodes = self.nodes();
        let mut r: Vec<&crate::graph::Node> = Vec::new();
        let mut k: usize = 0;
        while k < edges.len()
            invariant
                0 <= k <= edges@.len(),
                self@.wf(),
                edges@.len() == self@.edges.len(),
                forall|i: int| 0 <= i < edges@.len() ==> #[trigger] edges@[i]@ == self@.edges[i],
                nodes@.len() == self@.nodes.len(),
                forall|i: int| 0 <= i < nodes@.len() ==> #[trigger] nodes@[i]@ == self@.nodes[i],
                r@.len() == self@.children_upto(key@, k as int).len(),
                forall|i: int| 0 <= i < r@.len() ==> #[trigger] r@[i]@ == self@.children_upto(key@, k as int)[i],
            decreases edges.len() - k,
        {
            let e: &Edge = &edges[k];
            assert(e@ == self@.edges[k as int]);
            if e.from == key && e.edge_type == EdgeType::Directed {
                match self.find(&e.to) {
                    Some(idx) => {
                        r.push(&nodes[idx]);
                    },
                    None => {},
                }
            }
            k += 1;
        }
        r
    }

    /// The nodes joined to a node by undirected edges, in edge order.
    pub fn get_associations(&self, node_id: &str) -> (r: Vec<&crate::graph::Node>)
        requires
            self@.wf(),
        ensures
            r@.len() == self@.associations(node_id@).len(),
            forall|i: int| 0 <= i < r@.len() ==> #[trigger] r@[i]@ == self@.associations(node_id@)[i],
    {
        let key = owned(node_id);
        let edges = self.edges();
        let nodes = self.nodes();
        let mut r: Vec<&crate::graph::Node> = Vec::new();
        let mut k: usize = 0;
        while k < edges.len()
            invariant
                0 <= k <= edges@.len(),
                self@.wf(),
                edges@.len() == self@.edges.len(),
                forall|i: int| 0 <= i < edges@.len() ==> #[trigger] edges@[i]@ == self@.edges[i],
                nodes@.len() == self@.nodes.len(),
                forall|i: int| 0 <= i < nodes@.len() ==> #[trigger] nodes@[i]@ == self@.nodes[i],
                r@.len() == self@.associations_upto(key@, k as int).len(),
                forall|i: int|
                    0 <= i < r@.len() ==> #[trigger] r@[i]@ == self@.associations_upto(key@, k as int)[i],
            decreases edges.len() - k,
        {
            let e: &Edge = &edges[k];
            assert(e@ == self@.edges[k as int]);
            if e.edge_type == EdgeType::Undirected {
                if e.from == key {
                    match self.find(&e.to) {
                        Some(idx) => {
                            r.push(&nodes[idx]);
                        },
                        None => {},
                    }
                } else if e.to == key {
                    match self.find(&e.from) {
                        Some(idx) => {
                            r.push(&nodes[idx]);
                        },
                        None => {},
                    }
                }
            }
            k += 1;
        }
        r
    }

    /// The parent of a node: the source of the last directed edge leading
    /// to it.
    pub fn get_parent(&self, node_id: &str) -> (r: Option<&crate::graph::Node>)
        requires
            self@.wf(),
        ensures
            match r {
                Some(n) => self@.parent_of(node_id@) == Some(n@),
                None => self@.parent_of(node_id@) is None,
            },
    {
        let key = owned(node_id);
        let nodes = self.nodes();
        let edges = self.edges();
        match self.find(&key) {
            Some(_) => {},
            None => {
                return None;
            },
        }
        let mut k: usize = edges.len();
        while k > 0
            invariant
                0 <= k <= edges@.len(),
                self@.wf(),
                key@ == node_id@,
                self@.has(key@),
                nodes@.len() == self@.nodes.len(),
                forall|i: int| 0 <= i < nodes@.len() ==> #[trigger] nodes@[i]@ == self@.nodes[i],
                edges@.len() == self@.edges.len(),
                forall|i: int| 0 <= i < edges@.len() ==> #[trigger] edges@[i]@ == self@.edges[i],
                self@.parent_id_upto(key@, self@.edges.len() as int) == self@.parent_id_upto(
                    key@,
                    k as int,
                ),
            decreases k,
        {
            let e: &Edge = &edges[k - 1];
            assert(e@ == self@.edges[k - 1]);
            if e.to == key && e.edge_type == EdgeType::Directed {
                return match self.find(&e.from) {
                    Some(j) => Some(&nodes[j]),
                    None => None,
                };
            }
            k -= 1;
        }
        None
    }

    /// Whether a directed edge leads to the node.
    fn has_incoming(&self, id: &String) -> (r: bool)
        ensures
            r == self@.has_incoming(id@),
    {
        let edges = self.edges();
        let mut k: usize = 0;
        while k < edges.len()
            invariant
                0 <= k <= edges@.len(),
                edges@.len() == self@.edges.len(),
                forall|i: int| 0 <= i < edges@.len() ==> #[trigger] edges@[i]@ == self@.edges[i],
                forall|i: int|
                    0 <= i < k ==> !(self@.edges[i].to == id@ && self@.edges[i].edge_type
                        == EdgeType::Directed),
            decreases edges.len() - k,
        {
            let e: &Edge = &edges[k];
            assert(e@ == self@.edges[k as int]);
            if e.to == *id && e.edge_type == EdgeType::Directed {
                assert(self@.edges[k as int].to == id@ && self@.edges[k as int].edge_type
                    == EdgeType::Directed);
                return true;
            }
            k += 1;
        }
        false
    }

    /// The nodes that no directed edge leads to, in node order.
    pub fn get_root_nodes(&self) -> (r: Vec<&crate::graph::Node>)
        requires
            self@.wf(),
        ensures
            r@.len() == self@.roots().len(),
            forall|i: int| 0 <= i < r@.len() ==> #[trigger] r@[i]@ == self@.roots()[i],
    {
        let nodes = self.nodes();
        let mut r: Vec<&crate::graph::Node> = Vec::new();
        let mut k: usize = 0;
        while k < nodes.len()
            invariant
                0 <= k <= nodes@.len(),
                nodes@.len() == self@.nodes.len(),
                forall|i: int| 0 <= i < nodes@.len() ==> #[trigger] nodes@[i]@ == self@.nodes[i],
                r@.len() == self@.roots_upto(k as int).len(),
                forall|i: int| 0 <= i < r@.len() ==> #[trigger] r@[i]@ == self@.roots_upto(k as int)[i],
            decreases nodes.len() - k,
        {
            assert(nodes@[k as int]@ == self@.nodes[k as int]);
            if !self.has_incoming(&nodes[k].id) {
                r.push(&nodes[k]);
            }
            k += 1;
        }
        r
    }

    /// Whether a directed edge leads from the node.
    pub fn has_children(&self, node_id: &str) -> (r: bool)
        ensures
            r == self@.has_children(node_id@),
    {
        let key = owned(node_id);
        let edges = self.edges();
        let mut k: usize = 0;
        while k < edges.len()
            invariant
                0 <= k <= edges@.len(),
                key@ == node_id@,
                edges@.len() == self@.edges.len(),
                forall|i: int| 0 <= i < edges@.len() ==> #[trigger] edges@[i]@ == self@.edges[i],
                forall|i: int|
                    0 <= i < k ==> !(self@.edges[i].from == key@ && self@.edges[i].edge_type
                        == EdgeType::Directed),
            decreases edges.len() - k,
        {
            let e: &Edge = &edges[k];
            assert(e@ == self@.edges[k as int]);
            if e.from == key && e.edge_type == EdgeType::Directed {
                assert(self@.edges[k as int].from == key@ && self@.edges[k as int].edge_type
                    == EdgeType::Directed);
                assert(self@.has_children(node_id@));
                return true;
            }
            k += 1;
        }
        false
    }

    /// The target ids of the directed edges from a node, in edge order.
    pub fn child_ids(&self, node_id: &String) -> (r: Vec<String>)
        ensures
            r.deep_view() == self@.child_ids(node_id@),
    {
        let edges = self.edges();
        let mut r: Vec<String> = Vec::new();
        let mut k: usize = 0;
        while k < edges.len()
            invariant
                0 <= k <= edges@.len(),
                edges@.len() == self@.edges.len(),
                forall|i: int| 0 <= i < edges@.len() ==> #[trigger] edges@[i]@ == self@.edges[i],
                r.deep_view() == self@.child_ids_upto(node_id@, k as int),
            decreases edges.len() - k,
        {
            let e: &Edge = &edges[k];
            assert(e@ == self@.edges[k as int]);
            if e.from == *node_id && e.edge_type == EdgeType::Directed {
                let ghost before = r.deep_view();
                r.push(copy_string(&e.to));
                assert(r.deep_view() =~= before.push(e.to@));
            }
            k += 1;
        }
        r
    }

    /// The edges whose two ends are both among the visible ids.
    pub fn get_visible_edges(&self, visible_node_ids: &[String]) -> (r: Vec<&Edge>)
        ensures
            r@.len() == self@.visible_edges(visible_node_ids.deep_view()).len(),
            forall|i: int|
                0 <= i < r@.len() ==> #[trigger] r@[i]@ == self@.edges[self@.visible_edges(
                    visible_node_ids.deep_view(),
                )[i]],
    {
        let edges = self.edges();
        let ghost vis = visible_node_ids.deep_view();
        let mut r: Vec<&Edge> = Vec::new();
        let mut k: usize = 0;
        while k < edges.len()
            invariant
                0 <= k <= edges@.len(),
                vis == visible_node_ids.deep_view(),
                edges@.len() == self@.edges.len(),
                forall|i: int| 0 <= i < edges@.len() ==> #[trigger] edges@[i]@ == self@.edges[i],
                r@.len() == self@.visible_edges_upto(vis, k as int).len(),
                forall|j: int| 0 <= j < self@.visible_edges_upto(vis, k as int).len()
                    ==> 0 <= #[trigger] self@.visible_edges_upto(vis, k as int)[j] < k,
                forall|i: int|
                    0 <= i < r@.len() ==> #[trigger] r@[i]@ == self@.edges[self@.visible_edges_upto(
                        vis,
                        k as int,
                    )[i]],
            decreases edges.len() - k,
        {
            let e: &Edge = &edges[k];
            assert(e@ == self@.edges[k as int]);
            if contains_string(visible_node_ids, &e.from) && contains_string(visible_node_ids, &e.to) {
                r.push(e);
            }
            k += 1;
        }
        r
    }
}

} // verus!
