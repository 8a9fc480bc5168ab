//! The dependency graph of the node set: who consumes whom. It is held in a
//! `petgraph` graph whose nodes carry the ids; the rules ask it for the
//! consumers and producers of a node and whether one node reaches another.

use vstd::prelude::*;
use petgraph::graph::Graph;
use petgraph::graph::NodeIndex;
use petgraph::Directed;
use petgraph::Direction;
use crate::text::position;
use crate::text::lemma_position;
use crate::text::lemma_position_is;
use crate::manifest::Manifest;
use crate::manifest::ChildEntryView;

verus! {

/// `petgraph::graph::Graph`, the graph that holds the nodes and edges.
/// Nothing of its inside is known here.
#[verifier::external_type_specification]
#[verifier::external_body]
#[verifier::reject_recursive_types(N)]
#[verifier::reject_recursive_types(E)]
#[verifier::reject_recursive_types(Ty)]
#[verifier::reject_recursive_types(Ix)]
pub struct ExGraph<N, E, Ty, Ix>(Graph<N, E, Ty, Ix>);

/// `petgraph::Directed`, the marker of graphs whose edges have a direction.
#[verifier::external_type_specification]
#[verifier::external_body]
pub struct ExDirected(Directed);

/// The ids that the nodes of a graph carry, by node index.
pub uninterp spec fn graph_ids(g: Graph<String, (), Directed, usize>) -> Seq<Seq<char>>;

/// The edges of a graph as pairs of node indices, tail first, in the order
/// in which they were added.
pub uninterp spec fn graph_edges(g: Graph<String, (), Directed, usize>) -> Seq<(int, int)>;

/// The heads of the edges that leave `a`, the edge added last first.
pub open spec fn out_neighbors(edges: Seq<(int, int)>, a: int) -> Seq<int>
    decreases edges.len(),
{
    if edges.len() == 0 {
        Seq::<int>::empty()
    } else if edges.last().0 == a {
        seq![edges.last().1] + out_neighbors(edges.drop_last(), a)
    } else {
        out_neighbors(edges.drop_last(), a)
    }
}

/// The tails of the edges that enter `a`, the edge added last first.
pub open spec fn in_neighbors(edges: Seq<(int, int)>, a: int) -> Seq<int>
    decreases edges.len(),
{
    if edges.len() == 0 {
        Seq::<int>::empty()
    } else if edges.last().1 == a {
        seq![edges.last().0] + in_neighbors(edges.drop_last(), a)
    } else {
        in_neighbors(edges.drop_last(), a)
    }
}

/// A walk: one node, or several with an edge from each to the next.
pub open spec fn is_walk(edges: Seq<(int, int)>, walk: Seq<int>) -> bool {
    &&& walk.len() >= 1
    &&& forall|k: int|
        0 <= k < walk.len() - 1 ==> edges.contains((#[trigger] walk[k], walk[k + 1]))
}

/// Whether a walk leads from `from` to `to`. Every node reaches itself.
pub open spec fn reachable(edges: Seq<(int, int)>, from: int, to: int) -> bool {
    exists|walk: Seq<int>| #[trigger]
        is_walk(edges, walk) && walk.first() == from && walk.last() == to
}

/// Node indices as numbers.
pub open spec fn as_ints(v: Seq<usize>) -> Seq<int> {
    Seq::new(v.len(), |i: int| v[i] as int)
}

/// Calls `Graph::with_capacity(0, 0)`, which makes a graph without nodes
/// and edges.
#[verifier::external_body]
fn graph_new() -> (g: Graph<String, (), Directed, usize>)
    ensures
        graph_ids(g) == Seq::<Seq<char>>::empty(),
        graph_edges(g) == Seq::<(int, int)>::empty(),
{
    Graph::with_capacity(0, 0)
}

/// Calls `Graph::node_count`, the number of nodes.
#[verifier::external_body]
fn graph_node_count(g: &Graph<String, (), Directed, usize>) -> (n: usize)
    ensures
        n == graph_ids(*g).len(),
{
    g.node_count()
}

/// Calls `Graph::add_node`, which appends a node that carries `id` and
/// returns its index, the number of nodes before the call. With `usize`
/// indices it has no limit of its own.
#[verifier::external_body]
fn graph_add_node(g: &mut Graph<String, (), Directed, usize>, id: String) -> (i: usize)
    ensures
        graph_ids(*final(g)) == graph_ids(*old(g)).push(id@),
        graph_edges(*final(g)) == graph_edges(*old(g)),
        i == graph_ids(*old(g)).len(),
{
    g.add_node(id).index()
}

/// Calls `Graph::add_edge`, which appends an edge from `a` to `b`. It
/// panics when one of the two nodes does not exist, so both must.
#[verifier::external_body]
fn graph_add_edge(g: &mut Graph<String, (), Directed, usize>, a: usize, b: usize)
    requires
        a < graph_ids(*old(g)).len(),
        b < graph_ids(*old(g)).len(),
    ensures
        graph_ids(*final(g)) == graph_ids(*old(g)),
        graph_edges(*final(g)) == graph_edges(*old(g)).push((a as int, b as int)),
{
    g.add_edge(NodeIndex::new(a), NodeIndex::new(b), ());
}

/// Calls `Graph::node_weight`, which gives the id that node `i` carries,
/// and nothing when the graph has no node `i`.
#[verifier::external_body]
fn graph_node_weight(g: &Graph<String, (), Directed, usize>, i: usize) -> (w: Option<&String>)
    ensures
        match w {
            Some(id) => i < graph_ids(*g).len() && id@ == graph_ids(*g)[i as int],
            None => i >= graph_ids(*g).len(),
        },
{
    g.node_weight(NodeIndex::new(i))
}

/// Calls `Graph::neighbors`, which for a directed graph lists the nodes at
/// the head of the edges that leave `a`, the edge added last first, and
/// nothing for a node that the graph lacks.
#[verifier::external_body]
fn graph_successors(g: &Graph<String, (), Directed, usize>, a: usize) -> (r: Vec<usize>)
    ensures
        as_ints(r@) == out_neighbors(graph_edges(*g), a as int),
{
    g.neighbors(NodeIndex::new(a)).map(|n| n.index()).collect()
}

/// Calls `Graph::neighbors_directed` with `Direction::Incoming`, which for
/// a directed graph lists the nodes at the tail of the edges that enter
/// `a`, the edge added last first, and nothing for a node that the graph
/// lacks.
#[verifier::external_body]
fn graph_predecessors(g: &Graph<String, (), Directed, usize>, a: usize) -> (r: Vec<usize>)
    ensures
        as_ints(r@) == in_neighbors(graph_edges(*g), a as int),
{
    g.neighbors_directed(NodeIndex::new(a), Direction::Incoming).map(|n| n.index()).collect()
}

/// Calls `petgraph::algo::has_path_connecting`, which tells whether a path
/// along the edges leads from `from` to `to`, and holds a node to reach
/// itself. Both nodes must exist: its search marks `from` in a table that
/// has one place per node.
#[verifier::external_body]
fn graph_has_path(g: &Graph<String, (), Directed, usize>, from: usize, to: usize) -> (r: bool)
    requires
        from < graph_ids(*g).len(),
        to < graph_ids(*g).len(),
    ensures
        r == reachable(graph_edges(*g), from as int, to as int),
{
    petgraph::algo::has_path_connecting(g, NodeIndex::new(from), NodeIndex::new(to), None)
}

/// What a dependency graph holds: the ids of its nodes and its edges, each
/// from a producer to a consumer.
pub struct GraphView {
    pub ids: Seq<Seq<char>>,
    pub edges: Seq<(int, int)>,
}

impl GraphView {
    /// No id names two nodes, every edge joins two nodes of the graph, and
    /// no edge occurs twice.
    pub open spec fn well_formed(self) -> bool {
        &&& self.ids.no_duplicates()
        &&& forall|k: int|
            0 <= k < self.edges.len() ==> 0 <= (#[trigger] self.edges[k]).0 < self.ids.len() && 0
                <= self.edges[k].1 < self.ids.len()
        &&& self.edges.no_duplicates()
    }

    /// The ids at the node indices `nodes`.
    pub open spec fn ids_at(self, nodes: Seq<int>) -> Seq<Seq<char>> {
        Seq::new(nodes.len(), |k: int| self.ids[nodes[k]])
    }

    /// The direct consumers of `id`; none for an id that the graph lacks.
    pub open spec fn children(self, id: Seq<char>) -> Seq<Seq<char>> {
        if position(self.ids, id) < self.ids.len() {
            self.ids_at(out_neighbors(self.edges, position(self.ids, id)))
        } else {
            Seq::empty()
        }
    }

    /// The direct producers of `id`; none for an id that the graph lacks.
    pub open spec fn parents(self, id: Seq<char>) -> Seq<Seq<char>> {
        if position(self.ids, id) < self.ids.len() {
            self.ids_at(in_neighbors(self.edges, position(self.ids, id)))
        } else {
            Seq::empty()
        }
    }

    /// The graph without nodes and edges.
    pub open spec fn empty() -> GraphView {
        GraphView { ids: Seq::empty(), edges: Seq::empty() }
    }

    /// The graph with a node for `id`, which is appended when it is new.
    pub open spec fn with_node(self, id: Seq<char>) -> GraphView {
        if self.ids.contains(id) {
            self
        } else {
            GraphView { ids: self.ids.push(id), ..self }
        }
    }

    /// The graph with an edge from node `a` to node `b`, which is appended
    /// when it is new.
    pub open spec fn with_link(self, a: int, b: int) -> GraphView {
        if self.edges.contains((a, b)) {
            self
        } else {
            GraphView { edges: self.edges.push((a, b)), ..self }
        }
    }

    /// The graph with nodes for `p` and `c` and an edge from `p` to `c`.
    pub open spec fn with_edge(self, p: Seq<char>, c: Seq<char>) -> GraphView {
        let g = self.with_node(p).with_node(c);
        g.with_link(position(g.ids, p), position(g.ids, c))
    }

    /// The graph with a node for `parent` and an edge from it to each of
    /// `children`.
    pub open spec fn with_children(self, parent: Seq<char>, children: Seq<Seq<char>>) -> GraphView
        decreases children.len(),
    {
        if children.len() == 0 {
            self.with_node(parent)
        } else {
            self.with_children(parent, children.drop_last()).with_edge(parent, children.last())
        }
    }

    /// Whether both ids are nodes of the graph and a walk leads from the
    /// first to the second.
    pub open spec fn reaches(self, from: Seq<char>, to: Seq<char>) -> bool {
        &&& position(self.ids, from) < self.ids.len()
        &&& position(self.ids, to) < self.ids.len()
        &&& reachable(self.edges, position(self.ids, from), position(self.ids, to))
    }
}

pub open spec fn view_of(g: Graph<String, (), Directed, usize>) -> GraphView {
    GraphView { ids: graph_ids(g), edges: graph_edges(g) }
}

/// An edge from `a` exists to exactly the nodes listed as its out-neighbours.
pub proof fn lemma_out_neighbors(edges: Seq<(int, int)>, a: int, b: int)
    ensures
        out_neighbors(edges, a).contains(b) <==> edges.contains((a, b)),
    decreases edges.len(),
{
    if edges.len() > 0 {
        let rest = edges.drop_last();
        lemma_out_neighbors(rest, a, b);
        let tail = out_neighbors(rest, a);
        if edges.contains((a, b)) {
            let k = choose|k: int| 0 <= k < edges.len() && edges[k] == (a, b);
            if k < rest.len() {
                assert(rest[k] == (a, b));
                let j = choose|j: int| 0 <= j < tail.len() && tail[j] == b;
                if edges.last().0 == a {
                    assert(out_neighbors(edges, a)[j + 1] == b);
                }
            } else {
                assert(out_neighbors(edges, a)[0] == b);
            }
        }
        if out_neighbors(edges, a).contains(b) {
            let j = choose|j: int|
                0 <= j < out_neighbors(edges, a).len() && out_neighbors(edges, a)[j] == b;
            if edges.last().0 == a && j == 0 {
                assert(edges[edges.len() - 1] == (a, b));
            } else {
                if edges.last().0 == a {
                    assert(tail[j - 1] == b);
                }
                assert(tail.contains(b));
                let k = choose|k: int| 0 <= k < rest.len() && rest[k] == (a, b);
                assert(edges[k] == (a, b));
            }
        }
    }
}

/// The out-neighbours of a node of a well-formed graph are nodes of it.
pub proof fn lemma_neighbors_in_range(edges: Seq<(int, int)>, a: int, n: int)
    requires
        forall|k: int|
            0 <= k < edges.len() ==> 0 <= (#[trigger] edges[k]).0 < n && 0 <= edges[k].1 < n,
    ensures
        forall|j: int|
            0 <= j < out_neighbors(edges, a).len() ==> 0 <= #[trigger] out_neighbors(edges, a)[j]
                < n,
        forall|j: int|
            0 <= j < in_neighbors(edges, a).len() ==> 0 <= #[trigger] in_neighbors(edges, a)[j]
                < n,
    decreases edges.len(),
{
    if edges.len() > 0 {
        let rest = edges.drop_last();
        assert forall|k: int| 0 <= k < rest.len() implies 0 <= (#[trigger] rest[k]).0 < n && 0
            <= rest[k].1 < n by {
            assert(rest[k] == edges[k]);
        }
        lemma_neighbors_in_range(rest, a, n);
        assert(0 <= edges[edges.len() - 1].0 < n);
        let outs = out_neighbors(edges, a);
        assert forall|j: int| 0 <= j < outs.len() implies 0 <= #[trigger] outs[j] < n by {
            if edges.last().0 == a {
                if j > 0 {
                    assert(outs[j] == out_neighbors(rest, a)[j - 1]);
                }
            }
        }
        let ins = in_neighbors(edges, a);
        assert forall|j: int| 0 <= j < ins.len() implies 0 <= #[trigger] ins[j] < n by {
            if edges.last().1 == a {
                if j > 0 {
                    assert(ins[j] == in_neighbors(rest, a)[j - 1]);
                }
            }
        }
    }
}

/// Where `id` stands among the nodes of `g`.
fn find_id(g: &Graph<String, (), Directed, usize>, id: &String) -> (r: Option<usize>)
    ensures
        match r {
            Some(i) => i == position(graph_ids(*g), id@) && i < graph_ids(*g).len(),
            None => position(graph_ids(*g), id@) == graph_ids(*g).len(),
        },
{
    let n = graph_node_count(g);
    let mut i: usize = 0;
    while i < n
        invariant
            i <= n,
            n == graph_ids(*g).len(),
            forall|j: int| 0 <= j < i ==> graph_ids(*g)[j] != id@,
        decreases n - i,
    {
        match graph_node_weight(g, i) {
            Some(w) => {
                if *w == *id {
                    proof {
                        lemma_position_is(graph_ids(*g), id@, i as int);
                    }
                    return Some(i);
                }
            },
            None => {},
        }
        i = i + 1;
    }
    proof {
        lemma_position_is(graph_ids(*g), id@, i as int);
    }
    None
}

/// The index of the node `id`, which is added when the graph lacks it.
fn ensure_node(g: &mut Graph<String, (), Directed, usize>, id: &String) -> (k: usize)
    requires
        view_of(*old(g)).well_formed(),
    ensures
        view_of(*final(g)).well_formed(),
        view_of(*final(g)) == view_of(*old(g)).with_node(id@),
        k == position(graph_ids(*final(g)), id@),
        k < graph_ids(*final(g)).len(),
{
    proof {
        lemma_position(graph_ids(*g), id@);
    }
    match find_id(g, id) {
        Some(k) => k,
        None => {
            let ghost before = graph_ids(*g);
            let k = graph_add_node(g, id.clone());
            proof {
                let after = graph_ids(*g);
                assert forall|i: int, j: int|
                    0 <= i < after.len() && 0 <= j < after.len() && i != j implies after[i]
                    != after[j] by {
                    if i < before.len() && j < before.len() {
                        assert(before[i] != before[j]);
                    } else if i < before.len() {
                        assert(before[i] != id@);
                    } else {
                        assert(before[j] != id@);
                    }
                }
                assert forall|j: int| 0 <= j < k implies after[j] != id@ by {
                    assert(before[j] != id@);
                }
                lemma_position_is(after, id@, k as int);
            }
            k
        },
    }
}

/// Whether `items` holds `x`.
fn contains_index(items: &Vec<usize>, x: usize) -> (r: bool)
    ensures
        r == as_ints(items@).contains(x as int),
{
    let mut i: usize = 0;
    while i < items.len()
        invariant
            i <= items.len(),
            forall|j: int| 0 <= j < i ==> as_ints(items@)[j] != x as int,
        decreases items.len() - i,
    {
        if items[i] == x {
            assert(as_ints(items@)[i as int] == x as int);
            return true;
        }
        i = i + 1;
    }
    false
}

/// Adds the edge from `a` to `b` unless the graph has it.
fn connect(g: &mut Graph<String, (), Directed, usize>, a: usize, b: usize)
    requires
        view_of(*old(g)).well_formed(),
        a < graph_ids(*old(g)).len(),
        b < graph_ids(*old(g)).len(),
    ensures
        view_of(*final(g)).well_formed(),
        view_of(*final(g)) == view_of(*old(g)).with_link(a as int, b as int),
{
    let heads = graph_successors(g, a);
    proof {
        lemma_out_neighbors(graph_edges(*g), a as int, b as int);
    }
    if !contains_index(&heads, b) {
        let ghost before = graph_edges(*g);
        graph_add_edge(g, a, b);
        proof {
            let after = graph_edges(*g);
            assert forall|i: int, j: int|
                0 <= i < after.len() && 0 <= j < after.len() && i != j implies after[i]
                != after[j] by {
                if i < before.len() && j < before.len() {
                    assert(before[i] != before[j]);
                } else if i < before.len() {
                    assert(before[i] != (a as int, b as int));
                } else {
                    assert(before[j] != (a as int, b as int));
                }
            }
            assert forall|k: int| 0 <= k < after.len() implies 0 <= (#[trigger] after[k]).0
                < graph_ids(*g).len() && 0 <= after[k].1 < graph_ids(*g).len() by {
                if k < before.len() {
                    assert(after[k] == before[k]);
                }
            }
        }
    }
}

/// Appending a key does not move the first position of a key that was there.
pub proof fn lemma_position_push(keys: Seq<Seq<char>>, extra: Seq<char>, key: Seq<char>)
    requires
        position(keys, key) < keys.len(),
    ensures
        position(keys.push(extra), key) == position(keys, key),
{
    lemma_position(keys, key);
    let p = position(keys, key);
    assert forall|j: int| 0 <= j < p implies keys.push(extra)[j] != key by {
        assert(keys[j] != key);
    }
    assert(keys.push(extra)[p] == keys[p]);
    lemma_position_is(keys.push(extra), key, p);
}

/// Records that `child` consumes `parent`.
fn add_pair(g: &mut Graph<String, (), Directed, usize>, parent: &String, child: &String)
    requires
        view_of(*old(g)).well_formed(),
    ensures
        view_of(*final(g)).well_formed(),
        view_of(*final(g)) == view_of(*old(g)).with_edge(parent@, child@),
{
    let ghost g0 = view_of(*g);
    let a = ensure_node(g, parent);
    let ghost g1 = view_of(*g);
    let b = ensure_node(g, child);
    let ghost g2 = view_of(*g);
    proof {
        if g1.ids.contains(child@) {
        } else {
            lemma_position_push(g1.ids, child@, parent@);
        }
        assert(a == position(g2.ids, parent@));
    }
    connect(g, a, b);
}

/// Records one producer with all of its consumers.
fn add_entry(g: &mut Graph<String, (), Directed, usize>, parent: &String, children: &Vec<String>)
    requires
        view_of(*old(g)).well_formed(),
    ensures
        view_of(*final(g)).well_formed(),
        view_of(*final(g)) == view_of(*old(g)).with_children(parent@, children.deep_view()),
{
    let ghost g0 = view_of(*g);
    let ghost kids = children.deep_view();
    let _ = ensure_node(g, parent);
    assert(kids.take(0) =~= Seq::empty());
    let mut j: usize = 0;
    while j < children.len()
        invariant
            j <= children.len(),
            kids == children.deep_view(),
            view_of(*g).well_formed(),
            view_of(*g) == g0.with_children(parent@, kids.take(j as int)),
        decreases children.len() - j,
    {
        proof {
            assert(kids.take(j + 1).drop_last() =~= kids.take(j as int));
            assert(kids.take(j + 1).last() == children@[j as int]@);
        }
        add_pair(g, parent, &children[j]);
        j = j + 1;
    }
    assert(kids.take(children.len() as int) =~= kids);
}

/// The graph of the consumers that `entries` record: one node for every
/// id that occurs there, in the order of first occurrence, and one edge
/// from each producer to each of its consumers, in recorded order.
pub open spec fn graph_of(entries: Seq<ChildEntryView>) -> GraphView
    decreases entries.len(),
{
    if entries.len() == 0 {
        GraphView::empty()
    } else {
        graph_of(entries.drop_last()).with_children(
            entries.last().parent,
            entries.last().children,
        )
    }
}

/// The dependency graph of a node set.
pub struct DbtGraph {
    graph: Graph<String, (), Directed, usize>,
}

impl View for DbtGraph {
    type V = GraphView;

    closed spec fn view(&self) -> GraphView {
        view_of(self.graph)
    }
}

impl DbtGraph {
    #[verifier::type_invariant]
    spec fn sound(&self) -> bool {
        view_of(self.graph).well_formed()
    }

    /// The graph of the consumers that `manifest` records.
    pub fn from(manifest: &Manifest) -> (r: DbtGraph)
        ensures
            r@.well_formed(),
            r@ == graph_of(manifest@.child_map),
    {
        let mut g = graph_new();
        let ghost entries = manifest@.child_map;
        let mut i: usize = 0;
        assert(entries.take(0) =~= Seq::empty());
        assert(view_of(g) == GraphView::empty());
        while i < manifest.child_map.len()
            invariant
                i <= manifest.child_map.len(),
                entries == manifest@.child_map,
                view_of(g).well_formed(),
                view_of(g) == graph_of(entries.take(i as int)),
            decreases manifest.child_map.len() - i,
        {
            let entry = &manifest.child_map[i];
            proof {
                assert(entries.take(i + 1).drop_last() =~= entries.take(i as int));
                assert(entries.take(i + 1).last() == entry@);
            }
            add_entry(&mut g, &entry.parent, &entry.children);
            i = i + 1;
        }
        assert(entries.take(manifest.child_map.len() as int) =~= entries);
        DbtGraph { graph: g }
    }

    /// The ids at the node indices `nodes`, which must be nodes of the graph.
    fn ids_of(&self, nodes: &Vec<usize>) -> (r: Vec<String>)
        requires
            forall|k: int| 0 <= k < nodes.len() ==> 0 <= #[trigger] as_ints(nodes@)[k] < self@.ids.len(),
        ensures
            r.deep_view() == self@.ids_at(as_ints(nodes@)),
    {
        let mut out: Vec<String> = Vec::new();
        let mut k: usize = 0;
        while k < nodes.len()
            invariant
                k <= nodes.len(),
                out@.len() == k,
                forall|j: int|
                    0 <= j < nodes.len() ==> 0 <= #[trigger] as_ints(nodes@)[j] < self@.ids.len(),
                forall|j: int| 0 <= j < k ==> (#[trigger] out@[j])@ == self@.ids[nodes@[j] as int],
            decreases nodes.len() - k,
        {
            assert(0 <= as_ints(nodes@)[k as int] < self@.ids.len());
            match graph_node_weight(&self.graph, nodes[k]) {
                Some(id) => {
                    out.push(id.clone());
                },
                None => {
                    assert(false);
                },
            }
            k = k + 1;
        }
        assert(out.deep_view() =~= self@.ids_at(as_ints(nodes@)));
        out
    }

    /// The direct consumers of `uid`, the one recorded last first; none for
    /// an id that the graph lacks.
    pub fn children(&self, uid: &str) -> (r: Vec<String>)
        ensures
            r.deep_view() == self@.children(uid@),
    {
        proof {
            use_type_invariant(self);
        }
        let key = uid.to_owned();
        match find_id(&self.graph, &key) {
            Some(a) => {
                let heads = graph_successors(&self.graph, a);
                proof {
                    lemma_neighbors_in_range(
                        graph_edges(self.graph),
                        a as int,
                        graph_ids(self.graph).len() as int,
                    );
                }
                self.ids_of(&heads)
            },
            None => {
                let out: Vec<String> = Vec::new();
                assert(out.deep_view() =~= self@.children(uid@));
                out
            },
        }
    }

    /// The direct producers of `uid`, the one recorded last first; none for
    /// an id that the graph lacks.
    pub fn parents(&self, uid: &str) -> (r: Vec<String>)
        ensures
            r.deep_view() == self@.parents(uid@),
    {
        proof {
            use_type_invariant(self);
        }
        let key = uid.to_owned();
        match find_id(&self.graph, &key) {
            Some(a) => {
                let tails = graph_predecessors(&self.graph, a);
                proof {
                    lemma_neighbors_in_range(
                        graph_edges(self.graph),
                        a as int,
                        graph_ids(self.graph).len() as int,
                    );
                }
                self.ids_of(&tails)
            },
            None => {
                let out: Vec<String> = Vec::new();
                assert(out.deep_view() =~= self@.parents(uid@));
                out
            },
        }
    }

    /// Whether both ids are nodes of the graph and a walk along the edges
    /// leads from `from` to `to`.
    pub fn reaches(&self, from: &str, to: &str) -> (r: bool)
        ensures
            r == self@.reaches(from@, to@),
    {
        let a = find_id(&self.graph, &from.to_owned());
        let b = find_id(&self.graph, &to.to_owned());
        match (a, b) {
            (Some(x), Some(y)) => graph_has_path(&self.graph, x, y),
            _ => false,
        }
    }
}

} // verus!
