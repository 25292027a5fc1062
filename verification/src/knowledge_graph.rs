//! Directed labeled multigraph of segment-carrying nodes.
//!
//! Nodes live in a petgraph arena in insertion order; a node's index,
//! once assigned, is stable for the life of the store and is the
//! identity that a [`Segment::Link`] carries. Edges are directed,
//! labeled, kept in insertion order, and may be parallel or self
//! edges. The store optionally holds a handle to a durable byte-store
//! opened by the caller; opening it is the caller's concern and a
//! failure there is fatal to construction, never silently downgraded.
use vstd::prelude::*;
use petgraph::graph::Graph;
use petgraph::Directed;
use crate::segment::{Segment, SegmentError, process_segment, seg_leaves, seg_ok};
use crate::dedup::{canon_key, segment_to_key};

verus! {

#[verifier::external_type_specification]
#[verifier::external_body]
#[verifier::reject_recursive_types(N)]
#[verifier::reject_recursive_types(E)]
#[verifier::reject_recursive_types(Ty)]
#[verifier::reject_recursive_types(Ix)]
pub struct ExGraph<N, E, Ty, Ix>(Graph<N, E, Ty, Ix>);

#[verifier::external_type_specification]
#[verifier::external_body]
pub struct ExDirected(Directed);

#[verifier::external_type_specification]
#[verifier::external_body]
pub struct ExDb(sled::Db);

/// The node weights of a petgraph graph, in insertion order.
pub uninterp spec fn graph_nodes(g: Graph<Segment, String, Directed, u32>) -> Seq<Segment>;

/// The edges of a petgraph graph as (source, target, label) triples,
/// in insertion order.
pub uninterp spec fn graph_edges(g: Graph<Segment, String, Directed, u32>) -> Seq<
    (usize, usize, Seq<char>),
>;

/// Relies on petgraph's Graph::new: an empty directed graph.
#[verifier::external_body]
fn pg_new() -> (g: Graph<Segment, String, Directed, u32>)
    ensures
        graph_nodes(g) == Seq::<Segment>::empty(),
        graph_edges(g) == Seq::<(usize, usize, Seq<char>)>::empty(),
{
    Graph::new()
}

/// Relies on petgraph's Graph::add_node: appends a node in O(1) and
/// returns its index, the previous node count; panics only at the
/// index-type limit, which the precondition rules out.
#[verifier::external_body]
fn pg_add_node(g: &mut Graph<Segment, String, Directed, u32>, weight: Segment) -> (ix: usize)
    requires
        graph_nodes(*old(g)).len() < 0xffff_ffff,
    ensures
        graph_nodes(*final(g)) == graph_nodes(*old(g)).push(weight),
        graph_edges(*final(g)) == graph_edges(*old(g)),
        ix == graph_nodes(*old(g)).len(),
{
    g.add_node(weight).index()
}

/// Relies on petgraph's Graph::add_edge: appends a directed edge
/// `a -> b` without deduplicating parallel edges; panics if an
/// endpoint does not exist or at the index-type limit, both ruled out
/// by the preconditions.
#[verifier::external_body]
fn pg_add_edge(g: &mut Graph<Segment, String, Directed, u32>, a: usize, b: usize, label: String)
    requires
        a < graph_nodes(*old(g)).len(),
        b < graph_nodes(*old(g)).len(),
        graph_edges(*old(g)).len() < 0xffff_ffff,
    ensures
        graph_nodes(*final(g)) == graph_nodes(*old(g)),
        graph_edges(*final(g)) == graph_edges(*old(g)).push((a, b, label@)),
{
    g.add_edge(
        petgraph::graph::NodeIndex::new(a),
        petgraph::graph::NodeIndex::new(b),
        label,
    );
}

/// Relies on petgraph's Graph::node_count.
#[verifier::external_body]
fn pg_node_count(g: &Graph<Segment, String, Directed, u32>) -> (n: usize)
    ensures
        n == graph_nodes(*g).len(),
{
    g.node_count()
}

/// Relies on petgraph's Graph::edge_count.
#[verifier::external_body]
fn pg_edge_count(g: &Graph<Segment, String, Directed, u32>) -> (n: usize)
    ensures
        n == graph_edges(*g).len(),
{
    g.edge_count()
}

/// Relies on petgraph's Graph::node_weight: the weight stored at a
/// live index.
#[verifier::external_body]
fn pg_node_get<'a>(g: &'a Graph<Segment, String, Directed, u32>, i: usize) -> (r: &'a Segment)
    requires
        i < graph_nodes(*g).len(),
    ensures
        *r == graph_nodes(*g)[i as int],
{
    g.node_weight(petgraph::graph::NodeIndex::new(i)).unwrap()
}

/// Relies on petgraph's Graph::edge_endpoints: source and target of
/// the i-th edge in insertion order.
#[verifier::external_body]
fn pg_edge_endpoints(g: &Graph<Segment, String, Directed, u32>, i: usize) -> (r: (usize, usize))
    requires
        i < graph_edges(*g).len(),
    ensures
        r.0 == graph_edges(*g)[i as int].0,
        r.1 == graph_edges(*g)[i as int].1,
{
    let (a, b) = g.edge_endpoints(petgraph::graph::EdgeIndex::new(i)).unwrap();
    (a.index(), b.index())
}

/// Relies on petgraph's Graph::edge_weight: the label of the i-th edge
/// in insertion order.
#[verifier::external_body]
fn pg_edge_label(g: &Graph<Segment, String, Directed, u32>, i: usize) -> (r: String)
    requires
        i < graph_edges(*g).len(),
    ensures
        r@ == graph_edges(*g)[i as int].2,
{
    g.edge_weight(petgraph::graph::EdgeIndex::new(i)).unwrap().clone()
}

/// A reference into the store that does not exist.
#[derive(Debug, PartialEq, Eq)]
pub enum GraphError {
    InvalidReference,
}

/// Stable-order export of a store: node string representations in
/// insertion order, and (source, target, label) triples in edge
/// insertion order.
#[derive(Debug, PartialEq)]
pub struct GraphExport {
    pub nodes: Vec<String>,
    pub edges: Vec<(usize, usize, String)>,
}

/// The knowledge graph: a petgraph node arena of segments plus an
/// optional durable byte-store handle for write-behind mirroring.
/// The in-memory structure is authoritative.
pub struct KnowledgeGraph {
    pub graph: Graph<Segment, String, Directed, u32>,
    pub db: sled::Db,
}

impl KnowledgeGraph {
    /// Node payloads in insertion order.
    pub open spec fn nodes(self) -> Seq<Segment> {
        graph_nodes(self.graph)
    }

    /// Edges as (source, target, label) triples in insertion order.
    pub open spec fn edges(self) -> Seq<(usize, usize, Seq<char>)> {
        graph_edges(self.graph)
    }

    /// An empty store over an already-open durable handle. A store
    /// whose durable backing failed to open cannot be constructed at
    /// all: the caller propagates that failure instead of passing a
    /// handle here.
    pub fn new(db: sled::Db) -> (r: KnowledgeGraph)
        ensures
            r.nodes() == Seq::<Segment>::empty(),
            r.edges() == Seq::<(usize, usize, Seq<char>)>::empty(),
    {
        KnowledgeGraph { graph: pg_new(), db }
    }

    /// Number of nodes in the store.
    pub fn node_count(&self) -> (n: usize)
        ensures
            n == self.nodes().len(),
    {
        pg_node_count(&self.graph)
    }

    /// Number of edges in the store.
    pub fn edge_count(&self) -> (n: usize)
        ensures
            n == self.edges().len(),
    {
        pg_edge_count(&self.graph)
    }

    /// Appends a node and assigns it the next insertion-order index,
    /// its stable identity for the life of the store.
    pub fn add_node(&mut self, segment: Segment) -> (ix: usize)
        requires
            old(self).nodes().len() < 0xffff_ffff,
        ensures
            final(self).nodes() == old(self).nodes().push(segment),
            final(self).edges() == old(self).edges(),
            ix == old(self).nodes().len(),
    {
        pg_add_node(&mut self.graph, segment)
    }

    /// Appends a directed labeled edge `a -> b`, keeping parallel and
    /// self edges; fails exactly when an endpoint does not exist, and
    /// then leaves the store unchanged.
    pub fn add_edge(&mut self, a: usize, b: usize, label: String) -> (r: Result<(), GraphError>)
        requires
            old(self).edges().len() < 0xffff_ffff,
        ensures
            r is Ok <==> (a < old(self).nodes().len() && b < old(self).nodes().len()),
            r is Ok ==> final(self).nodes() == old(self).nodes() && final(self).edges() == old(
                self,
            ).edges().push((a, b, label@)),
            r is Err ==> *final(self) == *old(self) && r == Err::<(), GraphError>(
                GraphError::InvalidReference,
            ),
    {
        let n = pg_node_count(&self.graph);
        if a >= n || b >= n {
            return Err(GraphError::InvalidReference);
        }
        pg_add_edge(&mut self.graph, a, b, label);
        Ok(())
    }

    /// Linear scan in insertion order: the first node whose payload
    /// satisfies the predicate, or none when the predicate rejected
    /// every node.
    #[verifier::loop_isolation(false)]
    pub fn find_node_by<F: Fn(&Segment) -> bool>(&self, pred: F) -> (r: Option<usize>)
        requires
            forall|i: int|
                0 <= i < self.nodes().len() ==> call_requires(pred, (&self.nodes()[i],)),
        ensures
            match r {
                Some(ix) => {
                    &&& ix < self.nodes().len()
                    &&& call_ensures(pred, (&self.nodes()[ix as int],), true)
                    &&& forall|j: int|
                        0 <= j < ix ==> call_ensures(pred, (&self.nodes()[j],), false)
                },
                None => forall|j: int|
                    0 <= j < self.nodes().len() ==> call_ensures(pred, (&self.nodes()[j],), false),
            },
    {
        let n = pg_node_count(&self.graph);
        let mut i: usize = 0;
        while i < n
            invariant
                i <= n,
                forall|j: int| 0 <= j < i ==> call_ensures(pred, (&self.nodes()[j],), false),
            decreases n - i,
        {
            let node = pg_node_get(&self.graph, i);
            proof {
                assert(call_requires(pred, (&self.nodes()[i as int],)));
            }
            if pred(node) {
                return Some(i);
            }
            i += 1;
        }
        None
    }

    /// Depth-bounded traversal of the payload at a live index: the
    /// pre-order primitive leaves of that node's segment, or the
    /// depth-cap rejection; `None` exactly when the index is not a
    /// node.
    pub fn traverse_segment(&self, idx: usize) -> (r: Option<Result<Vec<String>, SegmentError>>)
        ensures
            r is None <==> idx >= self.nodes().len(),
            match r {
                Some(Ok(leaves)) => seg_ok(self.nodes()[idx as int], 0) && leaves.deep_view()
                    == seg_leaves(self.nodes()[idx as int]),
                Some(Err(e)) => e == SegmentError::RecursionLimitExceeded && !seg_ok(
                    self.nodes()[idx as int],
                    0,
                ),
                None => true,
            },
    {
        let n = pg_node_count(&self.graph);
        if idx >= n {
            return None;
        }
        let node = pg_node_get(&self.graph, idx);
        Some(process_segment(node, 0))
    }

    /// Stable-order export: node representations (canonical keys) in
    /// node insertion order and edge triples in edge insertion order,
    /// so that an unmodified store exports identically across calls.
    #[verifier::loop_isolation(false)]
    pub fn export(&self) -> (r: GraphExport)
        ensures
            r.nodes@.len() == self.nodes().len(),
            forall|i: int|
                0 <= i < self.nodes().len() ==> (#[trigger] r.nodes@[i])@ == canon_key(
                    self.nodes()[i],
                ),
            r.edges@.len() == self.edges().len(),
            forall|i: int|
                0 <= i < self.edges().len() ==> (#[trigger] r.edges@[i]).0 == self.edges()[i].0
                    && r.edges@[i].1 == self.edges()[i].1 && r.edges@[i].2@ == self.edges()[i].2,
    {
        let n = pg_node_count(&self.graph);
        let mut nodes: Vec<String> = Vec::new();
        let mut i: usize = 0;
        while i < n
            invariant
                i <= n,
                nodes@.len() == i,
                forall|j: int|
                    0 <= j < i ==> (#[trigger] nodes@[j])@ == canon_key(self.nodes()[j]),
            decreases n - i,
        {
            let node = pg_node_get(&self.graph, i);
            nodes.push(segment_to_key(node));
            i += 1;
        }
        let m = pg_edge_count(&self.graph);
        let mut edges: Vec<(usize, usize, String)> = Vec::new();
        let mut k: usize = 0;
        while k < m
            invariant
                k <= m,
                edges@.len() == k,
                forall|j: int|
                    0 <= j < k ==> (#[trigger] edges@[j]).0 == self.edges()[j].0 && edges@[j].1
                        == self.edges()[j].1 && edges@[j].2@ == self.edges()[j].2,
            decreases m - k,
        {
            let (a, b) = pg_edge_endpoints(&self.graph, k);
            let label = pg_edge_label(&self.graph, k);
            edges.push((a, b, label));
            k += 1;
        }
        GraphExport { nodes, edges }
    }
}

} // verus!
