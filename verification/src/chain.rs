//! The walk up the parent chain that the breadcrumb shows: taking as many
//! steps as the graph has nodes never cuts a walk that ends short.
use vstd::prelude::*;
use crate::graph::GraphView;
use crate::render::ancestry;

verus! {

/// The node one step up from `cur`: its parent, if `cur` exists.
pub open spec fn next_up(g: GraphView, cur: Option<Seq<char>>) -> Option<Seq<char>> {
    match cur {
        Some(id) => if g.has(id) { g.node(id).parent } else { None },
        None => None,
    }
}

/// The node `k` steps up from `cur`.
pub open spec fn up_n(g: GraphView, cur: Option<Seq<char>>, k: nat) -> Option<Seq<char>>
    decreases k,
{
    if k == 0 {
        cur
    } else {
        up_n(g, next_up(g, cur), (k - 1) as nat)
    }
}

/// The ids met walking up from `cur` for at most `fuel` steps.
pub open spec fn ancestor_ids(g: GraphView, cur: Option<Seq<char>>, fuel: nat) -> Seq<Seq<char>>
    decreases fuel,
{
    if fuel == 0 {
        Seq::empty()
    } else {
        match cur {
            Some(id) => if g.has(id) {
                seq![id] + ancestor_ids(g, g.node(id).parent, (fuel - 1) as nat)
            } else {
                Seq::empty()
            },
            None => Seq::empty(),
        }
    }
}

proof fn lemma_len_eq(g: GraphView, cur: Option<Seq<char>>, f: nat)
    ensures
        ancestry(g, cur, f).len() == ancestor_ids(g, cur, f).len(),
        ancestor_ids(g, cur, f).len() <= f,
    decreases f,
{
    if f > 0 {
        match cur {
            Some(id) => if g.has(id) {
                lemma_len_eq(g, g.node(id).parent, (f - 1) as nat);
            },
            None => {},
        }
    }
}

proof fn lemma_prefix_titles(g: GraphView, cur: Option<Seq<char>>, a: nat, b: nat)
    requires
        a <= b,
    ensures
        ancestry(g, cur, a).len() <= ancestry(g, cur, b).len(),
        ancestry(g, cur, b).take(ancestry(g, cur, a).len() as int) == ancestry(g, cur, a),
        ancestry(g, cur, a).len() < a ==> ancestry(g, cur, b) == ancestry(g, cur, a),
    decreases a,
{
    if a == 0 {
        assert(ancestry(g, cur, b).take(0) =~= ancestry(g, cur, a));
    } else {
        match cur {
            Some(id) => if g.has(id) {
                let p = g.node(id).parent;
                lemma_prefix_titles(g, p, (a - 1) as nat, (b - 1) as nat);
                let x = ancestry(g, p, (b - 1) as nat);
                let y = ancestry(g, p, (a - 1) as nat);
                let t = seq![g.node(id).title];
                assert((t + x).take((1 + y.len()) as int) =~= t + x.take(y.len() as int));
            } else {
                assert(ancestry(g, cur, b).take(0) =~= ancestry(g, cur, a));
            },
            None => {
                assert(ancestry(g, cur, b).take(0) =~= ancestry(g, cur, a));
            },
        }
    }
}

proof fn lemma_prefix_ids(g: GraphView, cur: Option<Seq<char>>, a: nat, b: nat)
    requires
        a <= b,
    ensures
        ancestor_ids(g, cur, a).len() <= ancestor_ids(g, cur, b).len(),
        ancestor_ids(g, cur, a).len() < a ==> ancestor_ids(g, cur, b) == ancestor_ids(g, cur, a),
    decreases a,
{
    if a > 0 {
        match cur {
            Some(id) => if g.has(id) {
                lemma_prefix_ids(g, g.node(id).parent, (a - 1) as nat, (b - 1) as nat);
            },
            None => {},
        }
    }
}

proof fn lemma_ids_index(g: GraphView, cur: Option<Seq<char>>, f: nat, k: int)
    requires
        0 <= k < ancestor_ids(g, cur, f).len(),
    ensures
        up_n(g, cur, k as nat) == Some(ancestor_ids(g, cur, f)[k]),
        g.has(ancestor_ids(g, cur, f)[k]),
    decreases f,
{
    let id = cur->0;
    let p = g.node(id).parent;
    let rest = ancestor_ids(g, p, (f - 1) as nat);
    assert(ancestor_ids(g, cur, f) == seq![id] + rest);
    if k > 0 {
        lemma_ids_index(g, p, (f - 1) as nat, k - 1);
        assert(ancestor_ids(g, cur, f)[k] == rest[k - 1]);
    }
}

proof fn lemma_ids_split(g: GraphView, cur: Option<Seq<char>>, a: nat, b: nat)
    requires
        ancestor_ids(g, cur, a).len() == a,
    ensures
        ancestor_ids(g, cur, a + b) == ancestor_ids(g, cur, a) + ancestor_ids(g, up_n(g, cur, a), b),
    decreases a,
{
    if a == 0 {
        assert(ancestor_ids(g, cur, a + b) =~= ancestor_ids(g, cur, a) + ancestor_ids(g, up_n(g, cur, a), b));
    } else {
        let id = cur->0;
        let p = g.node(id).parent;
        lemma_ids_split(g, p, (a - 1) as nat, b);
        assert(((a + b) - 1) as nat == ((a - 1) as nat + b) as nat);
        assert(ancestor_ids(g, cur, a + b) =~= ancestor_ids(g, cur, a) + ancestor_ids(g, up_n(g, cur, a), b));
    }
}

proof fn lemma_up_compose(g: GraphView, cur: Option<Seq<char>>, a: nat, b: nat)
    ensures
        up_n(g, cur, a + b) == up_n(g, up_n(g, cur, a), b),
    decreases a,
{
    if a > 0 {
        lemma_up_compose(g, next_up(g, cur), (a - 1) as nat, b);
        assert(((a + b) - 1) as nat == ((a - 1) as nat + b) as nat);
    }
}

proof fn lemma_full_prefix(g: GraphView, cur: Option<Seq<char>>, a: nat, b: nat)
    requires
        a <= b,
        ancestor_ids(g, cur, b).len() == b,
    ensures
        ancestor_ids(g, cur, a).len() == a,
{
    lemma_prefix_ids(g, cur, a, b);
    lemma_len_eq(g, cur, a);
}

proof fn lemma_cycle_infinite(g: GraphView, x: Option<Seq<char>>, p: nat, f: nat)
    requires
        p >= 1,
        up_n(g, x, p) == x,
        ancestor_ids(g, x, p).len() == p,
    ensures
        ancestor_ids(g, x, f).len() == f,
    decreases f,
{
    lemma_len_eq(g, x, f);
    if f < p {
        lemma_prefix_ids(g, x, f, p);
    } else {
        lemma_cycle_infinite(g, x, p, (f - p) as nat);
        lemma_ids_split(g, x, p, (f - p) as nat);
        assert((p + (f - p) as nat) as nat == f);
    }
}

proof fn lemma_pigeon(g: GraphView, ids: Seq<Seq<char>>)
    requires
        g.wf(),
        forall|k: int| 0 <= k < ids.len() ==> g.has(#[trigger] ids[k]),
        ids.len() > g.nodes.len(),
    ensures
        exists|i: int, j: int| 0 <= i < j < ids.len() && ids[i] == ids[j],
{
    let n = g.nodes.len() as int;
    let idx = Seq::new(ids.len(), |k: int| g.index_of(ids[k]));
    if idx.no_duplicates() {
        idx.unique_seq_to_set();
        vstd::set_lib::lemma_int_range(0, n);
        assert(idx.to_set().subset_of(vstd::set_lib::set_int_range(0, n))) by {
            assert forall|v: int| idx.to_set().contains(v) implies vstd::set_lib::set_int_range(0, n).contains(v) by {
                let k = choose|k: int| 0 <= k < idx.len() && idx[k] == v;
                assert(g.has(ids[k]));
            }
        }
        vstd::set_lib::lemma_len_subset(idx.to_set(), vstd::set_lib::set_int_range(0, n));
        assert(false);
    } else {
        let (i, j) = choose|i: int, j: int| 0 <= i < idx.len() && 0 <= j < idx.len() && i != j && idx[i] == idx[j];
        assert(g.has(ids[i]) && g.has(ids[j]));
        assert(g.nodes[idx[i]].id == ids[i]);
        assert(g.nodes[idx[j]].id == ids[j]);
        if i < j {
            assert(ids[i] == ids[j]);
        } else {
            assert(ids[j] == ids[i]);
        }
    }
}

/// Whenever the walk up the parent chain from `ctx` ends, the breadcrumb
/// (which walks at most as many steps as the graph has nodes) shows all of
/// it: the walk ends within that many steps, or never.
pub proof fn breadcrumb_walk_complete(g: GraphView, ctx: Seq<char>, f: nat)
    requires
        g.wf(),
        ancestry(g, Some(ctx), f).len() < f,
    ensures
        ancestry(g, Some(ctx), g.nodes.len()) == ancestry(g, Some(ctx), f),
{
    let n = g.nodes.len();
    let cur = Some(ctx);
    lemma_len_eq(g, cur, (n + 1) as nat);
    if ancestor_ids(g, cur, (n + 1) as nat).len() == n + 1 {
        let ids = ancestor_ids(g, cur, (n + 1) as nat);
        assert forall|k: int| 0 <= k < ids.len() implies g.has(#[trigger] ids[k]) by {
            lemma_ids_index(g, cur, (n + 1) as nat, k);
        }
        lemma_pigeon(g, ids);
        let (i, j) = choose|i: int, j: int| 0 <= i < j < ids.len() && ids[i] == ids[j];
        lemma_ids_index(g, cur, (n + 1) as nat, i);
        lemma_ids_index(g, cur, (n + 1) as nat, j);
        let x = up_n(g, cur, i as nat);
        let p = (j - i) as nat;
        lemma_up_compose(g, cur, i as nat, p);
        assert((i as nat + p) as nat == j as nat);
        assert(up_n(g, x, p) == x);
        lemma_full_prefix(g, cur, i as nat, (n + 1) as nat);
        lemma_ids_split(g, cur, i as nat, (n + 1 - i) as nat);
        assert((i as nat + (n + 1 - i) as nat) as nat == (n + 1) as nat);
        lemma_full_prefix(g, x, p, (n + 1 - i) as nat);
        let big = if f > i { f } else { i as nat };
        lemma_cycle_infinite(g, x, p, (big - i) as nat);
        lemma_ids_split(g, cur, i as nat, (big - i) as nat);
        assert((i as nat + (big - i) as nat) as nat == big);
        lemma_len_eq(g, cur, big);
        lemma_prefix_titles(g, cur, f, big);
        assert(false);
    }
    lemma_prefix_titles(g, cur, n, (n + 1) as nat);
    if ancestry(g, cur, n).len() == n {
        assert(ancestry(g, cur, (n + 1) as nat).take(n as int) =~= ancestry(g, cur, (n + 1) as nat));
    }
    if f <= n + 1 {
        lemma_prefix_titles(g, cur, f, (n + 1) as nat);
    } else {
        lemma_prefix_titles(g, cur, (n + 1) as nat, f);
    }
}

} // verus!
