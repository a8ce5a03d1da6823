//! What the force layout reads of the graph: which nodes pull on a node
//! along its edges.
use vstd::prelude::*;
use crate::graph::{Graph, GraphView, Edge, Node};
use vstd::utf8::encode_utf8;
use crate::text::{owned, copy_string, contains_string};

verus! {

impl GraphView {
    /// The connections among the first `k` of node `id` that exist.
    pub open spec fn linked_upto(self, id: Seq<char>, k: int) -> Seq<Seq<char>>
        decreases k,
    {
        if k <= 0 {
            Seq::empty()
        } else {
            let c = self.node(id).connections[k - 1];
            if self.has(c) {
                self.linked_upto(id, k - 1).push(c)
            } else {
                self.linked_upto(id, k - 1)
            }
        }
    }

    /// The sources, among the first `k` edges, of edges into `id` that it
    /// does not list among its connections, where the source exists.
    pub open spec fn back_linked_upto(self, id: Seq<char>, k: int) -> Seq<Seq<char>>
        decreases k,
    {
        if k <= 0 {
            Seq::empty()
        } else {
            let e = self.edges[k - 1];
            if e.to == id && !self.node(id).connections.contains(e.from) && self.has(e.from) {
                self.back_linked_upto(id, k - 1).push(e.from)
            } else {
                self.back_linked_upto(id, k - 1)
            }
        }
    }

    /// The nodes that pull on node `id`: its existing connections, then the
    /// existing sources of the other edges into it, one entry per edge.
    pub open spec fn attraction_partners(self, id: Seq<char>) -> Seq<Seq<char>> {
        if self.has(id) {
            self.linked_upto(id, self.node(id).connections.len() as int)
                + self.back_linked_upto(id, self.edges.len() as int)
        } else {
            Seq::empty()
        }
    }
}

impl Graph {
    /// The ids of the nodes that pull on a node along edges, in the order the
    /// layout applies their pulls: each connection that exists, then the
    /// source of each edge into the node that is not a connection.
    pub fn attraction_partners(&self, node_id: &str) -> (r: Vec<String>)
        requires
            self@.wf(),
        ensures
            r.deep_view() == self@.attraction_partners(node_id@),
    {
        let node = match self.get_node(node_id) {
            Some(n) => n,
            None => {
                let r: Vec<String> = Vec::new();
                assert(r.deep_view() =~= Seq::empty());
                return r;
            },
        };
        let key = owned(node_id);
        let ghost g = self@;
        let mut r: Vec<String> = Vec::new();
        let mut k: usize = 0;
        assert(r.deep_view() =~= g.linked_upto(key@, 0));
        while k < node.connections.len()
            invariant
                0 <= k <= node.connections@.len(),
                g == self@,
                g.wf(),
                key@ == node_id@,
                node@ == g.node(key@),
                r.deep_view() == g.linked_upto(key@, k as int),
            decreases node.connections.len() - k,
        {
            assert(node.connections.deep_view()[k as int] == node.connections@[k as int]@);
            let ghost before = r.deep_view();
            match self.find(&node.connections[k]) {
                Some(_) => {
                    r.push(copy_string(&node.connections[k]));
                    assert(r.deep_view() =~= before.push(node.connections@[k as int]@));
                },
                None => {},
            }
            k += 1;
        }
        let ghost linked = r.deep_view();
        let edges = self.edges();
        let mut m: usize = 0;
        assert(r.deep_view() =~= linked + g.back_linked_upto(key@, 0));
        while m < edges.len()
            invariant
                0 <= m <= edges@.len(),
                g == self@,
                g.wf(),
                key@ == node_id@,
                node@ == g.node(key@),
                edges@.len() == g.edges.len(),
                forall|i: int| 0 <= i < edges@.len() ==> #[trigger] edges@[i]@ == g.edges[i],
                r.deep_view() == linked + g.back_linked_upto(key@, m as int),
            decreases edges.len() - m,
        {
            let e: &Edge = &edges[m];
            assert(e@ == g.edges[m as int]);
            let ghost before = r.deep_view();
            if e.to == key && !contains_string(&node.connections, &e.from) {
                match self.find(&e.from) {
                    Some(_) => {
                        r.push(copy_string(&e.from));
                        assert(r.deep_view() =~= before.push(e.from@));
                    },
                    None => {},
                }
            }
            m += 1;
        }
        r
    }
}


/// The pieces of `b` between line feeds (one more than there are line
/// feeds).
pub open spec fn split_lines(b: Seq<u8>) -> Seq<Seq<u8>>
    decreases b.len(),
{
    if b.len() == 0 {
        seq![Seq::empty()]
    } else {
        let p = split_lines(b.drop_last());
        if b.last() == 10u8 {
            p.push(Seq::empty())
        } else {
            p.update(p.len() - 1, p.last().push(b.last()))
        }
    }
}

/// A line without the carriage return that ended it.
pub open spec fn strip_cr(l: Seq<u8>) -> Seq<u8> {
    if l.len() > 0 && l.last() == 13u8 { l.drop_last() } else { l }
}

/// The lines of a text, as its `lines()` yields them: split at line feeds,
/// each line that a line feed ends losing a carriage return before it, and
/// the piece after the last line feed counted only if it is not empty.
pub open spec fn text_lines(b: Seq<u8>) -> Seq<Seq<u8>> {
    let parts = split_lines(b);
    let full = parts.drop_last().map_values(|p: Seq<u8>| strip_cr(p));
    if parts.last().len() == 0 { full } else { full.push(parts.last()) }
}

/// The length of the longest of `ls` (0 if none).
pub open spec fn longest(ls: Seq<Seq<u8>>) -> nat
    decreases ls.len(),
{
    if ls.len() == 0 {
        0
    } else {
        let m = longest(ls.drop_last());
        if ls.last().len() > m { ls.last().len() } else { m }
    }
}

/// The estimated width of a node's text box: 8 pixels per byte of the
/// title or of the longest summary line, each capped at 280, plus 12.
pub open spec fn box_width(title: Seq<char>, summary: Seq<char>) -> nat {
    let tw = if 8 * encode_utf8(title).len() < 280 { 8 * encode_utf8(title).len() } else { 280 };
    let l = longest(text_lines(encode_utf8(summary)));
    let sw = if 8 * l < 280 { 8 * l } else { 280 };
    (if tw > sw { tw } else { sw }) + 12
}

/// The estimated height of a node's text box: 21 pixels for the title and
/// for each summary line, plus 12.
pub open spec fn box_height(summary: Seq<char>) -> nat {
    21 + 21 * text_lines(encode_utf8(summary)).len() + 12
}

proof fn lemma_split_step(b: Seq<u8>, i: int)
    requires
        0 <= i < b.len(),
    ensures
        split_lines(b.take(i + 1)) == if b[i] == 10u8 {
            split_lines(b.take(i)).push(Seq::empty())
        } else {
            split_lines(b.take(i)).update(
                split_lines(b.take(i)).len() - 1,
                split_lines(b.take(i)).last().push(b[i]),
            )
        },
{
    assert(b.take(i + 1).drop_last() =~= b.take(i));
    assert(b.take(i + 1).last() == b[i]);
}

proof fn lemma_split_len(b: Seq<u8>)
    ensures
        split_lines(b).len() >= 1,
    decreases b.len(),
{
    if b.len() > 0 {
        lemma_split_len(b.drop_last());
    }
}

/// The number of lines of a byte text and the length of its longest line.
fn line_metrics(b: &[u8]) -> (r: (usize, usize))
    ensures
        r.0 == text_lines(b@).len(),
        r.1 == longest(text_lines(b@)),
{
    let ghost bs = b@;
    let mut count: usize = 0;
    let mut max: usize = 0;
    let mut cur: usize = 0;
    let mut i: usize = 0;
    assert(bs.take(0) =~= Seq::<u8>::empty());
    while i < b.len()
        invariant
            0 <= i <= b@.len(),
            bs == b@,
            split_lines(bs.take(i as int)).len() >= 1,
            count == split_lines(bs.take(i as int)).len() - 1,
            cur == split_lines(bs.take(i as int)).last().len(),
            cur <= i,
            count <= i,
            count + cur <= i,
            max == longest(split_lines(bs.take(i as int)).drop_last().map_values(|p: Seq<u8>| strip_cr(p))),
            cur > 0 ==> split_lines(bs.take(i as int)).last().last() == bs[i - 1],
        decreases b.len() - i,
    {
        let ghost parts = split_lines(bs.take(i as int));
        proof {
            lemma_split_step(bs, i as int);
        }
        if b[i] == 10u8 {
            let l = if cur > 0 && b[i - 1] == 13u8 { cur - 1 } else { cur };
            proof {
                let np = parts.push(Seq::empty());
                assert(split_lines(bs.take(i + 1)) == np);
                assert(l == strip_cr(parts.last()).len());
                let full = parts.drop_last().map_values(|p: Seq<u8>| strip_cr(p));
                let nfull = np.drop_last().map_values(|p: Seq<u8>| strip_cr(p));
                assert(np.drop_last() =~= parts);
                assert(nfull.drop_last() =~= full);
                assert(nfull.last() == strip_cr(parts.last()));
            }
            if l > max {
                max = l;
            }
            count += 1;
            cur = 0;
        } else {
            proof {
                let last = parts.last();
                let np = parts.update(parts.len() - 1, last.push(bs[i as int]));
                assert(split_lines(bs.take(i + 1)) == np);
                assert(np.drop_last() =~= parts.drop_last());
                assert(np.last() == last.push(bs[i as int]));
            }
            cur += 1;
        }
        i += 1;
    }
    assert(bs.take(b@.len() as int) =~= bs);
    let ghost parts = split_lines(bs);
    let ghost full = parts.drop_last().map_values(|p: Seq<u8>| strip_cr(p));
    if cur > 0 {
        proof {
            let lines = full.push(parts.last());
            assert(lines.drop_last() =~= full);
        }
        if cur > max {
            max = cur;
        }
        count += 1;
    }
    (count, max)
}

impl Node {
    /// The estimated size of the node's text box, in pixels: the width
    /// from the byte length of the title and of the longest summary line,
    /// the height from the number of summary lines.
    pub fn estimate_bounds(&self) -> (r: (u128, u128))
        ensures
            r.0 == box_width(self.title@, self.summary@),
            r.1 == box_height(self.summary@),
            r.0 <= 292,
            r.1 <= 21 * (usize::MAX as int) + 33,
    {
        let title_len = self.title.as_str().as_bytes().len();
        let (lines, longest_line) = line_metrics(self.summary.as_str().as_bytes());
        let title_width: u128 = if title_len < 35 { 8 * (title_len as u128) } else { 280 };
        let summary_width: u128 = if longest_line < 35 { 8 * (longest_line as u128) } else { 280 };
        let width = if title_width > summary_width { title_width } else { summary_width } + 12;
        let height: u128 = 21 + 21 * (lines as u128) + 12;
        (width, height)
    }

    /// The corners of the text box relative to the node's position, as
    /// `(min_x, min_y, max_x, max_y)`: the box starts 15 pixels right of and
    /// 10 pixels above the node.
    pub fn bounds_offsets(&self) -> (r: (i128, i128, i128, i128))
        ensures
            r.0 == 15,
            r.1 == -10,
            r.2 == 15 + box_width(self.title@, self.summary@),
            r.3 == -10 + box_height(self.summary@),
    {
        let (width, height) = self.estimate_bounds();
        (15, -10, 15 + (width as i128), -10 + (height as i128))
    }
}

} // verus!
