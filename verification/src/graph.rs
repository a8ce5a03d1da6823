//! The content graph: collections and posts joined by directed (parent to
//! child) and undirected (association) edges, with key/value tags.
use vstd::prelude::*;
use crate::text::{owned, copy_string, TagView};

verus! {

/// The kind of a node, which decides what content it can have.
pub enum NodeKind {
    /// A node that holds other nodes and has no article.
    Collection,
    /// A post with its full article text.
    Post { article: String },
}

/// The mathematical form of a `NodeKind`.
pub enum NodeKindView {
    Collection,
    Post { article: Seq<char> },
}

impl View for NodeKind {
    type V = NodeKindView;

    open spec fn view(&self) -> NodeKindView {
        match self {
            NodeKind::Collection => NodeKindView::Collection,
            NodeKind::Post { article } => NodeKindView::Post { article: article@ },
        }
    }
}

impl NodeKind {
    /// The article text of a post; a collection has none.
    pub fn article(&self) -> (r: Option<&str>)
        ensures
            match self@ {
                NodeKindView::Post { article } => r is Some && r->0@ == article,
                NodeKindView::Collection => r is None,
            },
    {
        match self {
            NodeKind::Post { article } => Some(article.as_str()),
            _ => None,
        }
    }

    /// Whether this is a collection.
    pub fn is_collection(&self) -> (r: bool)
        ensures
            r == (self@ is Collection),
    {
        match self {
            NodeKind::Collection => true,
            _ => false,
        }
    }

    /// The name of the kind, as shown in tags and views.
    pub fn kind_name(&self) -> (r: &'static str)
        ensures
            r@ == (if self@ is Collection { "collection"@ } else { "post"@ }),
    {
        match self {
            NodeKind::Collection => "collection",
            NodeKind::Post { .. } => "post",
        }
    }
}

/// Whether an edge is a parent-to-child link or an association.
#[derive(Clone, Copy, Debug, PartialEq, Eq, Structural)]
pub enum EdgeType {
    /// Parent to child (hierarchy).
    Directed,
    /// Association between two nodes (topic, vibe, ...).
    Undirected,
}

/// An edge of the graph.
pub struct Edge {
    pub from: String,
    pub to: String,
    pub edge_type: EdgeType,
    /// An optional label such as "topic".
    pub label: Option<String>,
}

/// The mathematical form of an `Edge`.
pub struct EdgeView {
    pub from: Seq<char>,
    pub to: Seq<char>,
    pub edge_type: EdgeType,
    pub label: Option<Seq<char>>,
}

impl View for Edge {
    type V = EdgeView;

    open spec fn view(&self) -> EdgeView {
        EdgeView {
            from: self.from@,
            to: self.to@,
            edge_type: self.edge_type,
            label: self.label.deep_view(),
        }
    }
}

/// A node of the graph: what the graph logic reads of it. Where the node
/// is drawn, and how it moves, is kept by the view layer.
pub struct Node {
    pub id: String,
    pub kind: NodeKind,
    pub title: String,
    /// A brief description shown in the graph view.
    pub summary: String,
    /// Nodes that this node is laid out next to.
    pub connections: Vec<String>,
    /// Whether the node has a home position it is pulled back to.
    pub anchored: bool,
    /// Whether the node is held by the pointer.
    pub is_dragged: bool,
    /// The primary parent (from a directed edge), for breadcrumbs.
    pub parent: Option<String>,
    /// Key/value tags from which connections are inferred.
    pub tags: Vec<(String, String)>,
}

/// The mathematical form of a `Node`.
pub struct NodeView {
    pub id: Seq<char>,
    pub kind: NodeKindView,
    pub title: Seq<char>,
    pub summary: Seq<char>,
    pub connections: Seq<Seq<char>>,
    pub anchored: bool,
    pub is_dragged: bool,
    pub parent: Option<Seq<char>>,
    pub tags: Seq<TagView>,
}

impl View for Node {
    type V = NodeView;

    open spec fn view(&self) -> NodeView {
        NodeView {
            id: self.id@,
            kind: self.kind@,
            title: self.title@,
            summary: self.summary@,
            connections: self.connections.deep_view(),
            anchored: self.anchored,
            is_dragged: self.is_dragged,
            parent: self.parent.deep_view(),
            tags: self.tags.deep_view(),
        }
    }
}

impl Node {
    /// Whether the node stays at its home position: it has one and is not
    /// being dragged.
    pub fn is_fixed(&self) -> (r: bool)
        ensures
            r == (self.anchored && !self.is_dragged),
    {
        self.anchored && !self.is_dragged
    }

    /// The article text of a post node.
    pub fn article(&self) -> (r: Option<&str>)
        ensures
            match self.kind@ {
                NodeKindView::Post { article } => r is Some && r->0@ == article,
                NodeKindView::Collection => r is None,
            },
    {
        self.kind.article()
    }
}


/// The mathematical form of a `Graph`: its nodes and edges, in order.
pub struct GraphView {
    pub nodes: Seq<NodeView>,
    pub edges: Seq<EdgeView>,
}

impl GraphView {
    /// Whether a node with this id is in the graph.
    pub open spec fn has(self, id: Seq<char>) -> bool {
        exists|i: int| 0 <= i < self.nodes.len() && self.nodes[i].id == id
    }

    /// The position of the node with this id.
    pub open spec fn index_of(self, id: Seq<char>) -> int {
        choose|i: int| 0 <= i < self.nodes.len() && self.nodes[i].id == id
    }

    /// The node with this id.
    pub open spec fn node(self, id: Seq<char>) -> NodeView {
        self.nodes[self.index_of(id)]
    }

    /// No two nodes share an id.
    pub open spec fn wf(self) -> bool {
        forall|i: int, j: int|
            0 <= i < self.nodes.len() && 0 <= j < self.nodes.len() && i != j
                ==> self.nodes[i].id != self.nodes[j].id
    }

    /// The nodes after inserting `n`: it takes the place of the node with
    /// the same id, or comes last if there is none.
    pub open spec fn with_node(self, n: NodeView) -> Seq<NodeView> {
        if self.has(n.id) {
            self.nodes.update(self.index_of(n.id), n)
        } else {
            self.nodes.push(n)
        }
    }
}

impl GraphView {
    /// The graph with the drag flag of node `at` set to `dragged`, if the
    /// node exists.
    pub open spec fn with_dragged(self, at: Seq<char>, dragged: bool) -> GraphView {
        if self.has(at) {
            let n = self.node(at);
            GraphView {
                nodes: self.nodes.update(self.index_of(at), NodeView { is_dragged: dragged, ..n }),
                edges: self.edges,
            }
        } else {
            self
        }
    }

    /// The ids of the first `k` nodes that are being dragged.
    pub open spec fn dragged_upto(self, k: int) -> Seq<Seq<char>>
        decreases k,
    {
        if k <= 0 {
            Seq::empty()
        } else if self.nodes[k - 1].is_dragged {
            self.dragged_upto(k - 1).push(self.nodes[k - 1].id)
        } else {
            self.dragged_upto(k - 1)
        }
    }

    /// The ids of the nodes being dragged, in node order.
    pub open spec fn dragged(self) -> Seq<Seq<char>> {
        self.dragged_upto(self.nodes.len() as int)
    }

    /// The nodes after `other` is added to the connections of node `at`,
    /// unless `at` is missing or already lists `other`.
    pub open spec fn with_connection(self, at: Seq<char>, other: Seq<char>) -> GraphView {
        if self.has(at) && !self.node(at).connections.contains(other) {
            let n = self.node(at);
            GraphView {
                nodes: self.nodes.update(
                    self.index_of(at),
                    NodeView { connections: n.connections.push(other), ..n },
                ),
                edges: self.edges,
            }
        } else {
            self
        }
    }

    /// The graph after the tag `t` is added to node `at`, if it exists.
    pub open spec fn with_tag(self, at: Seq<char>, t: TagView) -> GraphView {
        if self.has(at) {
            let n = self.node(at);
            GraphView {
                nodes: self.nodes.update(self.index_of(at), NodeView { tags: n.tags.push(t), ..n }),
                edges: self.edges,
            }
        } else {
            self
        }
    }
}

/// The content graph.
pub struct Graph {
    nodes: Vec<Node>,
    edges: Vec<Edge>,
}

impl View for Graph {
    type V = GraphView;

    closed spec fn view(&self) -> GraphView {
        GraphView {
            nodes: self.nodes@.map_values(|n: Node| n@),
            edges: self.edges@.map_values(|e: Edge| e@),
        }
    }
}

/// A fresh collection or post node with no connections and no tags.
pub open spec fn fresh_node(
    id: Seq<char>,
    kind: NodeKindView,
    title: Seq<char>,
    summary: Seq<char>,
    anchored: bool,
    parent: Option<Seq<char>>,
) -> NodeView {
    NodeView {
        id,
        kind,
        title,
        summary,
        connections: match parent {
            Some(p) => seq![p],
            None => Seq::empty(),
        },
        anchored,
        is_dragged: false,
        parent,
        tags: Seq::empty(),
    }
}

/// The directed edge from a parent to its child.
pub open spec fn child_edge(parent: Seq<char>, child: Seq<char>) -> EdgeView {
    EdgeView { from: parent, to: child, edge_type: EdgeType::Directed, label: None }
}

impl Graph {
    proof fn lemma_view(&self)
        ensures
            self@.nodes.len() == self.nodes@.len(),
            self@.edges.len() == self.edges@.len(),
            forall|i: int| 0 <= i < self.nodes@.len() ==> #[trigger] self@.nodes[i] == self.nodes@[i]@,
            forall|i: int| 0 <= i < self.edges@.len() ==> #[trigger] self@.edges[i] == self.edges@[i]@,
    {
    }

    /// An empty graph.
    pub fn new() -> (g: Self)
        ensures
            g@.nodes.len() == 0,
            g@.edges.len() == 0,
            g@.wf(),
    {
        Graph { nodes: Vec::new(), edges: Vec::new() }
    }

    /// The nodes, in order.
    pub fn nodes(&self) -> (r: &Vec<Node>)
        ensures
            r@.len() == self@.nodes.len(),
            forall|i: int| 0 <= i < r@.len() ==> #[trigger] r@[i]@ == self@.nodes[i],
    {
        proof {
            self.lemma_view();
        }
        &self.nodes
    }

    /// The edges, in the order they were added.
    pub fn edges(&self) -> (r: &Vec<Edge>)
        ensures
            r@.len() == self@.edges.len(),
            forall|i: int| 0 <= i < r@.len() ==> #[trigger] r@[i]@ == self@.edges[i],
    {
        proof {
            self.lemma_view();
        }
        &self.edges
    }

    /// The number of nodes.
    pub fn node_count(&self) -> (r: usize)
        ensures
            r == self@.nodes.len(),
    {
        proof {
            self.lemma_view();
        }
        self.nodes.len()
    }

    /// The position of the node with id `id`.
    pub fn find(&self, id: &String) -> (r: Option<usize>)
        requires
            self@.wf(),
        ensures
            match r {
                Some(i) => self@.has(id@) && i == self@.index_of(id@) && i < self@.nodes.len(),
                None => !self@.has(id@),
            },
    {
        proof {
            self.lemma_view();
        }
        let mut i: usize = 0;
        while i < self.nodes.len()
            invariant
                0 <= i <= self.nodes@.len(),
                self@.wf(),
                self@.nodes.len() == self.nodes@.len(),
                forall|k: int| 0 <= k < self.nodes@.len() ==> #[trigger] self@.nodes[k] == self.nodes@[k]@,
                forall|j: int| 0 <= j < i ==> self@.nodes[j].id != id@,
            decreases self.nodes.len() - i,
        {
            if self.nodes[i].id == *id {
                assert(self@.nodes[i as int].id == id@);
                assert(self@.has(id@));
                let ghost k = self@.index_of(id@);
                assert(self@.nodes[k].id == id@);
                assert(k == i);
                return Some(i);
            }
            i += 1;
        }
        None
    }

    /// The node with id `id`.
    pub fn get_node(&self, id: &str) -> (r: Option<&Node>)
        requires
            self@.wf(),
        ensures
            match r {
                Some(n) => self@.has(id@) && n@ == self@.node(id@),
                None => !self@.has(id@),
            },
    {
        let key = owned(id);
        match self.find(&key) {
            Some(i) => {
                proof {
                    self.lemma_view();
                }
                Some(&self.nodes[i])
            },
            None => None,
        }
    }

    /// Inserts `node`, replacing the node with the same id if there is one.
    fn insert_node(&mut self, node: Node)
        requires
            old(self)@.wf(),
        ensures
            final(self)@.wf(),
            final(self)@.nodes == old(self)@.with_node(node@),
            final(self)@.edges == old(self)@.edges,
    {
        proof {
            self.lemma_view();
        }
        let ghost nv = node@;
        match self.find(&node.id) {
            Some(i) => {
                self.nodes[i] = node;
                proof {
                    self.lemma_view();
                    assert(self@.nodes =~= old(self)@.with_node(nv));
                }
            },
            None => {
                self.nodes.push(node);
                proof {
                    self.lemma_view();
                    assert(self@.nodes =~= old(self)@.with_node(nv));
                }
            },
        }
    }

    /// Adds a root-level collection: no parent, anchored at its home
    /// position, it holds other nodes.
    pub fn add_collection(&mut self, id: &str, title: &str, summary: &str)
        requires
            old(self)@.wf(),
        ensures
            final(self)@.wf(),
            final(self)@.nodes == old(self)@.with_node(
                fresh_node(id@, NodeKindView::Collection, title@, summary@, true, None),
            ),
            final(self)@.edges == old(self)@.edges,
    {
        let node = Node {
            id: owned(id),
            kind: NodeKind::Collection,
            title: owned(title),
            summary: owned(summary),
            connections: Vec::new(),
            anchored: true,
            is_dragged: false,
            parent: None,
            tags: Vec::new(),
        };
        proof {
            assert(node.connections.deep_view() =~= Seq::empty());
            assert(node.tags.deep_view() =~= Seq::empty());
            assert(node@ == fresh_node(id@, NodeKindView::Collection, title@, summary@, true, None));
        }
        self.insert_node(node);
    }

    /// Adds a root-level post: no parent, anchored, with its article.
    pub fn add_post(&mut self, id: &str, title: &str, summary: &str, article: &str)
        requires
            old(self)@.wf(),
        ensures
            final(self)@.wf(),
            final(self)@.nodes == old(self)@.with_node(
                fresh_node(id@, NodeKindView::Post { article: article@ }, title@, summary@, true, None),
            ),
            final(self)@.edges == old(self)@.edges,
    {
        let node = Node {
            id: owned(id),
            kind: NodeKind::Post { article: owned(article) },
            title: owned(title),
            summary: owned(summary),
            connections: Vec::new(),
            anchored: true,
            is_dragged: false,
            parent: None,
            tags: Vec::new(),
        };
        proof {
            assert(node.connections.deep_view() =~= Seq::empty());
            assert(node.tags.deep_view() =~= Seq::empty());
        }
        self.insert_node(node);
    }

    /// Inserts a child node of `parent_id` and the directed edge to it.
    fn add_child(&mut self, id: &str, parent_id: &str, title: &str, summary: &str, kind: NodeKind)
        requires
            old(self)@.wf(),
        ensures
            final(self)@.wf(),
            final(self)@.nodes == old(self)@.with_node(
                fresh_node(id@, kind@, title@, summary@, false, Some(parent_id@)),
            ),
            final(self)@.edges == old(self)@.edges.push(child_edge(parent_id@, id@)),
    {
        let mut connections: Vec<String> = Vec::new();
        connections.push(owned(parent_id));
        let ghost kv = kind@;
        let node = Node {
            id: owned(id),
            kind,
            title: owned(title),
            summary: owned(summary),
            connections,
            anchored: false,
            is_dragged: false,
            parent: Some(owned(parent_id)),
            tags: Vec::new(),
        };
        proof {
            assert(node.connections.deep_view() =~= seq![parent_id@]);
            assert(node.tags.deep_view() =~= Seq::empty());
            assert(node@ == fresh_node(id@, kv, title@, summary@, false, Some(parent_id@)));
        }
        self.insert_node(node);
        let edge = Edge { from: owned(parent_id), to: owned(id), edge_type: EdgeType::Directed, label: None };
        let ghost mid = self@;
        self.edges.push(edge);
        proof {
            self.lemma_view();
            assert(self@.nodes =~= mid.nodes);
            assert(self@.edges =~= mid.edges.push(child_edge(parent_id@, id@)));
        }
    }

    /// Adds a collection under a parent: it holds other nodes, and a
    /// directed edge runs from the parent to it.
    pub fn add_child_collection(&mut self, id: &str, parent_id: &str, title: &str, summary: &str)
        requires
            old(self)@.wf(),
        ensures
            final(self)@.wf(),
            final(self)@.nodes == old(self)@.with_node(
                fresh_node(id@, NodeKindView::Collection, title@, summary@, false, Some(parent_id@)),
            ),
            final(self)@.edges == old(self)@.edges.push(child_edge(parent_id@, id@)),
    {
        self.add_child(id, parent_id, title, summary, NodeKind::Collection);
    }

    /// Adds a post under a parent, with a directed edge from the parent.
    pub fn add_child_post(
        &mut self,
        id: &str,
        parent_id: &str,
        title: &str,
        summary: &str,
        article: &str,
    )
        requires
            old(self)@.wf(),
        ensures
            final(self)@.wf(),
            final(self)@.nodes == old(self)@.with_node(
                fresh_node(
                    id@,
                    NodeKindView::Post { article: article@ },
                    title@,
                    summary@,
                    false,
                    Some(parent_id@),
                ),
            ),
            final(self)@.edges == old(self)@.edges.push(child_edge(parent_id@, id@)),
    {
        self.add_child(id, parent_id, title, summary, NodeKind::Post { article: owned(article) });
    }

    /// Adds `other` to the connections of node `at`, unless it is missing or
    /// already lists it.
    fn connect(&mut self, at: &String, other: &String)
        requires
            old(self)@.wf(),
        ensures
            final(self)@ == old(self)@.with_connection(at@, other@),
            final(self)@.wf(),
    {
        match self.find(at) {
            Some(i) => {
                proof {
                    self.lemma_view();
                }
                if !crate::text::contains_string(&self.nodes[i].connections, other) {
                    let ghost n = old(self)@.node(at@);
                    self.nodes[i].connections.push(copy_string(other));
                    proof {
                        self.lemma_view();
                        assert(self.nodes@[i as int].connections.deep_view() =~= n.connections.push(other@));
                        assert(self@.nodes =~= old(self)@.with_connection(at@, other@).nodes);
                        assert(self@.edges =~= old(self)@.edges);
                    }
                }
            },
            None => {},
        }
    }

    /// Adds an undirected association edge between two nodes, and lists
    /// each in the other's connections.
    pub fn add_association(&mut self, node_a: &str, node_b: &str, label: Option<&str>)
        requires
            old(self)@.wf(),
        ensures
            final(self)@.wf(),
            final(self)@.nodes == old(self)@.with_connection(node_a@, node_b@).with_connection(
                node_b@,
                node_a@,
            ).nodes,
            final(self)@.edges == old(self)@.edges.push(
                EdgeView {
                    from: node_a@,
                    to: node_b@,
                    edge_type: EdgeType::Undirected,
                    label: match label {
                        Some(l) => Some(l@),
                        None => None,
                    },
                },
            ),
    {
        let a = owned(node_a);
        let b = owned(node_b);
        self.connect(&a, &b);
        self.connect(&b, &a);
        let label_owned = match label {
            Some(l) => Some(owned(l)),
            None => None,
        };
        let edge = Edge { from: a, to: b, edge_type: EdgeType::Undirected, label: label_owned };
        let ghost mid = self@;
        self.edges.push(edge);
        proof {
            self.lemma_view();
            assert(self@.nodes =~= mid.nodes);
        }
    }

    /// Adds the tag `(key, value)` to a node, if the node exists.
    pub fn tag(&mut self, node_id: &str, key: &str, value: &str)
        requires
            old(self)@.wf(),
        ensures
            final(self)@.wf(),
            final(self)@ == old(self)@.with_tag(node_id@, (key@, value@)),
    {
        let id = owned(node_id);
        match self.find(&id) {
            Some(i) => {
                proof {
                    self.lemma_view();
                }
                let ghost n = old(self)@.node(id@);
                self.nodes[i].tags.push((owned(key), owned(value)));
                proof {
                    self.lemma_view();
                    assert(self.nodes@[i as int].tags.deep_view() =~= n.tags.push((key@, value@)));
                    assert(self@.nodes =~= old(self)@.with_tag(node_id@, (key@, value@)).nodes);
                    assert(self@.edges =~= old(self)@.edges);
                }
            },
            None => {},
        }
    }

    /// Marks a node as held by the pointer, or not.
    pub fn set_dragged(&mut self, node_id: &str, dragged: bool)
        requires
            old(self)@.wf(),
        ensures
            final(self)@.wf(),
            final(self)@ == old(self)@.with_dragged(node_id@, dragged),
    {
        let id = owned(node_id);
        match self.find(&id) {
            Some(i) => {
                proof {
                    self.lemma_view();
                }
                self.nodes[i].is_dragged = dragged;
                proof {
                    self.lemma_view();
                    assert(self@.nodes =~= old(self)@.with_dragged(node_id@, dragged).nodes);
                    assert(self@.edges =~= old(self)@.edges);
                }
            },
            None => {},
        }
    }

    /// The ids of the nodes held by the pointer, in node order.
    pub fn dragged_node_ids(&self) -> (r: Vec<String>)
        ensures
            r.deep_view() == self@.dragged(),
    {
        proof {
            self.lemma_view();
        }
        let mut r: Vec<String> = Vec::new();
        let mut k: usize = 0;
        assert(r.deep_view() =~= Seq::empty());
        while k < self.nodes.len()
            invariant
                0 <= k <= self.nodes@.len(),
                self@.nodes.len() == self.nodes@.len(),
                forall|i: int| 0 <= i < self.nodes@.len() ==> #[trigger] self@.nodes[i] == self.nodes@[i]@,
                r.deep_view() == self@.dragged_upto(k as int),
            decreases self.nodes.len() - k,
        {
            assert(self@.nodes[k as int] == self.nodes@[k as int]@);
            if self.nodes[k].is_dragged {
                let ghost before = r.deep_view();
                r.push(copy_string(&self.nodes[k].id));
                assert(r.deep_view() =~= before.push(self@.nodes[k as int].id));
            }
            k += 1;
        }
        r
    }

    /// Releases every node held by the pointer and returns their ids, in
    /// node order.
    pub fn end_drags(&mut self) -> (r: Vec<String>)
        requires
            old(self)@.wf(),
        ensures
            final(self)@.wf(),
            r.deep_view() == old(self)@.dragged(),
            final(self)@.edges == old(self)@.edges,
            final(self)@.nodes.len() == old(self)@.nodes.len(),
            forall|i: int| 0 <= i < old(self)@.nodes.len() ==> #[trigger] final(self)@.nodes[i] == (NodeView {
                is_dragged: false,
                ..old(self)@.nodes[i]
            }),
    {
        let r = self.dragged_node_ids();
        proof {
            self.lemma_view();
        }
        let mut k: usize = 0;
        while k < self.nodes.len()
            invariant
                0 <= k <= self.nodes@.len(),
                self.nodes@.len() == old(self)@.nodes.len(),
                self.edges@ == old(self).edges@,
                forall|i: int| 0 <= i < k ==> #[trigger] self.nodes@[i]@ == (NodeView {
                    is_dragged: false,
                    ..old(self)@.nodes[i]
                }),
                forall|i: int| k <= i < self.nodes@.len() ==> #[trigger] self.nodes@[i]@ == old(self)@.nodes[i],
            decreases self.nodes.len() - k,
        {
            let ghost prev = self.nodes@;
            self.nodes[k].is_dragged = false;
            proof {
                assert(self.nodes@ == prev.update(k as int, Node { is_dragged: false, ..prev[k as int] }));
                assert(self.nodes@[k as int]@ == (NodeView { is_dragged: false, ..prev[k as int]@ }));
            }
            k += 1;
        }
        proof {
            self.lemma_view();
            old(self).lemma_view();
            assert(self@.edges =~= old(self)@.edges);
            assert forall|i: int, j: int|
                0 <= i < self@.nodes.len() && 0 <= j < self@.nodes.len() && i != j
                    implies self@.nodes[i].id != self@.nodes[j].id by {
                assert(self@.nodes[i].id == old(self)@.nodes[i].id);
                assert(self@.nodes[j].id == old(self)@.nodes[j].id);
            }
        }
        r
    }
}

} // verus!
