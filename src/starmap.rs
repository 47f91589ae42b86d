//! The star graph: one node per system record, and one undirected edge per
//! pair of records joined by at least one declared connection.

use petgraph::graph::Graph;
use petgraph::Undirected;
use vstd::prelude::*;
use vstd::relations::injective_on;
use vstd::set_lib::{lemma_int_range, lemma_len_subset, lemma_map_size, set_int_range};

use crate::graph::{
    graph_add_edge, graph_add_node, graph_contains_edge, graph_edge_count, graph_edge_endpoints,
    graph_edges, graph_neighbors, graph_new, graph_node_count, graph_node_weight, graph_nodes,
    joins,
};
use crate::text::{is_substring, lower_of, lowercase, matches_folded};
use crate::records::StarSystem;
use crate::star::{star_type_of, StarNode, StarType};

verus! {

/// The record IDs of a list of records, in order.
pub open spec fn record_ids(systems: Seq<StarSystem>) -> Seq<Seq<char>> {
    systems.map_values(|s: StarSystem| s.system_id@)
}

/// `id` resolves to index `k`: the last entry equal to `id` is at `k`
/// (an index keyed by ID keeps the last record inserted under it).
pub open spec fn resolves_to(ids: Seq<Seq<char>>, id: Seq<char>, k: int) -> bool {
    &&& 0 <= k < ids.len()
    &&& ids[k] == id
    &&& forall|j: int| k < j < ids.len() ==> ids[j] != id
}

/// Connection `c` of record `i` joins node `a` to node `b`: `a` is where the
/// record's own ID resolves and `b` where the connection's target resolves.
pub open spec fn declares_at(systems: Seq<StarSystem>, i: int, c: int, a: int, b: int) -> bool {
    &&& 0 <= i < systems.len()
    &&& 0 <= c < systems[i].connections@.len()
    &&& resolves_to(record_ids(systems), systems[i].system_id@, a)
    &&& resolves_to(record_ids(systems), systems[i].connections@[c].connecting_id@, b)
}

/// Some connection before connection `lc` of record `li` joins `a` to `b`.
pub open spec fn declares_before(systems: Seq<StarSystem>, li: int, lc: int, a: int, b: int) -> bool {
    exists|i: int, c: int|
        (i < li || (i == li && c < lc)) && #[trigger] declares_at(systems, i, c, a, b)
}

/// Some connection of the records joins `a` to `b`.
pub open spec fn declares(systems: Seq<StarSystem>, a: int, b: int) -> bool {
    declares_before(systems, systems.len() as int, 0, a, b)
}

/// The number of connections declared by the first `n` records.
pub open spec fn connections_in(systems: Seq<StarSystem>, n: int) -> int
    decreases n,
{
    if n <= 0 {
        0
    } else {
        connections_in(systems, n - 1) + systems[n - 1].connections@.len()
    }
}

/// The number of connections declared by all records.
pub open spec fn total_connections(systems: Seq<StarSystem>) -> int {
    connections_in(systems, systems.len() as int)
}

/// Two edges join the same pair of nodes.
pub open spec fn same_pair(p: (usize, usize), q: (usize, usize)) -> bool {
    p == q || (p.0 == q.1 && p.1 == q.0)
}

/// No two edges join the same pair of nodes.
pub open spec fn no_parallel_edges(edges: Seq<(usize, usize)>) -> bool {
    forall|e: int, f: int|
        0 <= e < edges.len() && 0 <= f < edges.len() && e != f ==> !same_pair(
            #[trigger] edges[e],
            #[trigger] edges[f],
        )
}

/// Every edge joins two nodes of the graph.
pub open spec fn edges_within(edges: Seq<(usize, usize)>, n: int) -> bool {
    forall|e: int| 0 <= e < edges.len() ==> (#[trigger] edges[e]).0 < n && edges[e].1 < n
}

/// The node that a record becomes.
pub open spec fn node_of(s: StarSystem) -> StarNode {
    StarNode {
        name: s.name,
        natural_id: s.natural_id,
        star_type: star_type_of(s.star_type@),
        sector_id: s.sector_id,
    }
}

/// The star graph, with the record ID of each node under the node's index.
pub struct StarMap {
    pub graph: Graph<StarNode, (), Undirected, u32>,
    pub record_ids: Vec<String>,
}

impl StarMap {
    /// The nodes, in index order.
    pub open spec fn nodes(&self) -> Seq<StarNode> {
        graph_nodes(self.graph)
    }

    /// The edges, in insertion order.
    pub open spec fn edges(&self) -> Seq<(usize, usize)> {
        graph_edges(self.graph)
    }

    /// Nodes `a` and `b` are adjacent.
    pub open spec fn adjacent(&self, a: int, b: int) -> bool {
        joins(self.edges(), a, b)
    }

    /// The record IDs, in node order.
    pub open spec fn ids(&self) -> Seq<Seq<char>> {
        self.record_ids@.map_values(|s: String| s@)
    }

    /// The map is a graph: one record ID per node, edges between its nodes,
    /// no two edges between the same pair.
    pub open spec fn wf(&self) -> bool {
        &&& self.record_ids@.len() == self.nodes().len()
        &&& self.nodes().len() < u32::MAX
        &&& self.edges().len() < u32::MAX
        &&& edges_within(self.edges(), self.nodes().len() as int)
        &&& no_parallel_edges(self.edges())
    }

    /// The map is the graph of `systems`: node `i` is record `i`, and two
    /// nodes are adjacent exactly when a connection of some record joins them.
    pub open spec fn built_from(&self, systems: Seq<StarSystem>) -> bool {
        &&& self.wf()
        &&& self.nodes().len() == systems.len()
        &&& forall|i: int| 0 <= i < systems.len() ==> self.nodes()[i] == node_of(#[trigger] systems[i])
        &&& self.ids() == record_ids(systems)
        &&& forall|a: int, b: int|
            0 <= a < systems.len() && 0 <= b < systems.len() ==> (#[trigger] self.adjacent(a, b)
                <==> declares(systems, a, b) || declares(systems, b, a))
    }
}

proof fn lemma_resolves_unique(ids: Seq<Seq<char>>, id: Seq<char>, k1: int, k2: int)
    requires
        resolves_to(ids, id, k1),
        resolves_to(ids, id, k2),
    ensures
        k1 == k2,
{
    if k1 < k2 {
        assert(ids[k2] != id);
    } else if k2 < k1 {
        assert(ids[k1] != id);
    }
}

proof fn lemma_declares_step(systems: Seq<StarSystem>, li: int, lc: int, a: int, b: int)
    ensures
        declares_before(systems, li, lc + 1, a, b) <==> declares_before(systems, li, lc, a, b)
            || declares_at(systems, li, lc, a, b),
{
    if declares_before(systems, li, lc + 1, a, b) {
        let (i, c) = choose|i: int, c: int|
            (i < li || (i == li && c < lc + 1)) && #[trigger] declares_at(systems, i, c, a, b);
        if !(i == li && c == lc) {
            assert(declares_before(systems, li, lc, a, b));
        }
    }
    if declares_at(systems, li, lc, a, b) {
        assert(declares_before(systems, li, lc + 1, a, b));
    }
    if declares_before(systems, li, lc, a, b) {
        let (i, c) = choose|i: int, c: int|
            (i < li || (i == li && c < lc)) && #[trigger] declares_at(systems, i, c, a, b);
        assert(declares_before(systems, li, lc + 1, a, b));
    }
}

proof fn lemma_declares_next_record(systems: Seq<StarSystem>, li: int, a: int, b: int)
    requires
        0 <= li < systems.len(),
    ensures
        declares_before(systems, li, systems[li].connections@.len() as int, a, b)
            <==> declares_before(systems, li + 1, 0, a, b),
{
    let lc = systems[li].connections@.len() as int;
    if declares_before(systems, li + 1, 0, a, b) {
        let (i, c) = choose|i: int, c: int|
            (i < li + 1 || (i == li + 1 && c < 0)) && #[trigger] declares_at(systems, i, c, a, b);
        assert(declares_before(systems, li, lc, a, b));
    }
    if declares_before(systems, li, lc, a, b) {
        let (i, c) = choose|i: int, c: int|
            (i < li || (i == li && c < lc)) && #[trigger] declares_at(systems, i, c, a, b);
        assert(declares_before(systems, li + 1, 0, a, b));
    }
}

proof fn lemma_connections_monotone(systems: Seq<StarSystem>, k: int, n: int)
    requires
        0 <= k <= n,
    ensures
        connections_in(systems, k) <= connections_in(systems, n),
    decreases n - k,
{
    if k < n {
        lemma_connections_monotone(systems, k, n - 1);
    }
}

/// The last index of `ids` that holds `id`, if any.
fn find_last(ids: &Vec<String>, id: &String) -> (r: Option<usize>)
    ensures
        match r {
            Some(k) => resolves_to(ids@.map_values(|s: String| s@), id@, k as int),
            None => forall|j: int| 0 <= j < ids@.len() ==> ids@[j]@ != id@,
        },
{
    let ghost v = ids@.map_values(|s: String| s@);
    let mut i: usize = ids.len();
    while i > 0
        invariant
            i <= ids@.len(),
            v == ids@.map_values(|s: String| s@),
            forall|j: int| i <= j < ids@.len() ==> ids@[j]@ != id@,
        decreases i,
    {
        i = i - 1;
        if ids[i] == *id {
            return Some(i);
        }
    }
    None
}

impl StarMap {
    /// Builds the graph of `systems`: first one node per record, in order;
    /// then, for each declared connection whose target ID is known, an edge
    /// between the two records unless one already joins them. Connections to
    /// unknown IDs are dropped.
    pub fn from_systems(systems: Vec<StarSystem>) -> (m: StarMap)
        requires
            systems@.len() < u32::MAX,
            total_connections(systems@) < u32::MAX,
        ensures
            m.built_from(systems@),
            m.edges().len() <= total_connections(systems@),
    {
        let n = systems.len();
        let mut graph = graph_new();
        let mut ids: Vec<String> = Vec::new();
        let mut i: usize = 0;
        while i < n
            invariant
                n == systems@.len(),
                n < u32::MAX,
                i <= n,
                graph_nodes(graph).len() == i,
                graph_edges(graph).len() == 0,
                forall|j: int| 0 <= j < i ==> graph_nodes(graph)[j] == node_of(#[trigger] systems@[j]),
                ids@.len() == i,
                forall|j: int| 0 <= j < i ==> (#[trigger] ids@[j])@ == systems@[j].system_id@,
            decreases n - i,
        {
            let sys = &systems[i];
            let node = StarNode {
                name: sys.name.clone(),
                natural_id: sys.natural_id.clone(),
                star_type: StarType::from_str(sys.star_type.as_str()),
                sector_id: sys.sector_id.clone(),
            };
            graph_add_node(&mut graph, node);
            ids.push(sys.system_id.clone());
            i = i + 1;
        }
        let ghost nodes = graph_nodes(graph);
        let ghost rids = record_ids(systems@);
        assert(ids@.map_values(|s: String| s@) =~= rids);

        let mut i: usize = 0;
        while i < n
            invariant
                n == systems@.len(),
                n < u32::MAX,
                i <= n,
                graph_nodes(graph) == nodes,
                nodes.len() == n,
                rids == record_ids(systems@),
                ids@.map_values(|s: String| s@) == rids,
                ids@.len() == n,
                edges_within(graph_edges(graph), n as int),
                no_parallel_edges(graph_edges(graph)),
                graph_edges(graph).len() <= connections_in(systems@, i as int),
                connections_in(systems@, n as int) < u32::MAX,
                forall|a: int, b: int|
                    0 <= a < n && 0 <= b < n ==> (joins(graph_edges(graph), a, b) <==> (
                    declares_before(systems@, i as int, 0, a, b) || declares_before(
                        systems@,
                        i as int,
                        0,
                        b,
                        a,
                    ))),
            decreases n - i,
        {
            let sys = &systems[i];
            let m = sys.connections.len();
            let from_opt = find_last(&ids, &sys.system_id);
            proof {
                lemma_connections_monotone(systems@, i as int + 1, n as int);
            }
            match from_opt {
                Some(from) => {
                    let mut c: usize = 0;
                    while c < m
                        invariant
                            n == systems@.len(),
                            n < u32::MAX,
                            i < n,
                            c <= m,
                            *sys == systems@[i as int],
                            m == sys.connections@.len(),
                            from < n,
                            resolves_to(rids, sys.system_id@, from as int),
                            graph_nodes(graph) == nodes,
                            nodes.len() == n,
                            rids == record_ids(systems@),
                            ids@.map_values(|s: String| s@) == rids,
                ids@.len() == n,
                            edges_within(graph_edges(graph), n as int),
                            no_parallel_edges(graph_edges(graph)),
                            graph_edges(graph).len() <= connections_in(systems@, i as int) + c,
                            connections_in(systems@, i as int + 1) < u32::MAX,
                            forall|a: int, b: int|
                                0 <= a < n && 0 <= b < n ==> (joins(graph_edges(graph), a, b) <==> (
                                declares_before(systems@, i as int, c as int, a, b)
                                    || declares_before(systems@, i as int, c as int, b, a))),
                        decreases m - c,
                    {
                        let to_opt = find_last(&ids, &sys.connections[c].connecting_id);
                        let ghost old_edges = graph_edges(graph);
                        match to_opt {
                            Some(to) => {
                                if !graph_contains_edge(&graph, from, to) {
                                    graph_add_edge(&mut graph, from, to);
                                    proof {
                                        let e2 = graph_edges(graph);
                                        assert forall|e: int, f: int|
                                            0 <= e < e2.len() && 0 <= f < e2.len() && e != f
                                                implies !same_pair(
                                            #[trigger] e2[e],
                                            #[trigger] e2[f],
                                        ) by {
                                            if e < old_edges.len() && f < old_edges.len() {
                                                assert(e2[e] == old_edges[e]);
                                                assert(e2[f] == old_edges[f]);
                                            } else if e < old_edges.len() {
                                                assert(e2[e] == old_edges[e]);
                                            } else {
                                                assert(e2[f] == old_edges[f]);
                                            }
                                        }
                                        assert forall|a: int, b: int|
                                            0 <= a < n && 0 <= b < n implies joins(e2, a, b)
                                            <==> (joins(old_edges, a, b) || (a == from && b == to)
                                            || (a == to && b == from)) by {
                                            if joins(old_edges, a, b) {
                                                let e = choose|e: int|
                                                    0 <= e < old_edges.len() && ((old_edges[e].0 == a
                                                        && old_edges[e].1 == b) || (old_edges[e].0
                                                        == b && old_edges[e].1 == a));
                                                assert(e2[e] == old_edges[e]);
                                            }
                                            if (a == from && b == to) || (a == to && b == from) {
                                                assert(e2[old_edges.len() as int] == (from, to));
                                            }
                                            if joins(e2, a, b) {
                                                let e = choose|e: int|
                                                    0 <= e < e2.len() && ((e2[e].0 == a && e2[e].1
                                                        == b) || (e2[e].0 == b && e2[e].1 == a));
                                                if e < old_edges.len() {
                                                    assert(e2[e] == old_edges[e]);
                                                }
                                            }
                                        }
                                    }
                                }
                            },
                            None => {},
                        }
                        proof {
                            let e2 = graph_edges(graph);
                            assert forall|a: int, b: int|
                                0 <= a < n && 0 <= b < n implies (joins(e2, a, b) <==> (
                                declares_before(systems@, i as int, c as int + 1, a, b)
                                    || declares_before(systems@, i as int, c as int + 1, b, a))) by {
                                lemma_declares_step(systems@, i as int, c as int, a, b);
                                lemma_declares_step(systems@, i as int, c as int, b, a);
                                let tid = systems@[i as int].connections@[c as int].connecting_id@;
                                if declares_at(systems@, i as int, c as int, a, b) {
                                    lemma_resolves_unique(rids, sys.system_id@, a, from as int);
                                    assert(rids[b] == tid);
                                    assert(ids@[b]@ == rids[b]);
                                    lemma_resolves_unique(rids, tid, b, to_opt->0 as int);
                                }
                                if declares_at(systems@, i as int, c as int, b, a) {
                                    lemma_resolves_unique(rids, sys.system_id@, b, from as int);
                                    assert(rids[a] == tid);
                                    assert(ids@[a]@ == rids[a]);
                                    lemma_resolves_unique(rids, tid, a, to_opt->0 as int);
                                }
                                if to_opt is Some {
                                    let to = to_opt->0 as int;
                                    if a == from && b == to {
                                        assert(declares_at(systems@, i as int, c as int, a, b));
                                    }
                                    if a == to && b == from {
                                        assert(declares_at(systems@, i as int, c as int, b, a));
                                    }
                                }
                            }
                        }
                        c = c + 1;
                    }
                },
                None => {
                    assert(ids@.map_values(|s: String| s@)[i as int] == ids@[i as int]@);
                    assert(rids[i as int] == systems@[i as int].system_id@);
                },
            }
            proof {
                assert forall|a: int, b: int|
                    0 <= a < n && 0 <= b < n implies (joins(graph_edges(graph), a, b) <==> (
                    declares_before(systems@, i as int + 1, 0, a, b) || declares_before(
                        systems@,
                        i as int + 1,
                        0,
                        b,
                        a,
                    ))) by {
                    lemma_declares_next_record(systems@, i as int, a, b);
                    lemma_declares_next_record(systems@, i as int, b, a);
                }
            }
            i = i + 1;
        }
        proof {
            lemma_connections_monotone(systems@, n as int, n as int);
        }
        let m = StarMap { graph, record_ids: ids };
        assert(m.ids() == rids);
        m
    }
}

/// Node `n` matches the query: the lower-cased query occurs in the
/// lower-cased name or natural ID.
pub open spec fn node_matches(n: StarNode, query: Seq<char>) -> bool {
    is_substring(lower_of(query), lower_of(n.name@)) || is_substring(
        lower_of(query),
        lower_of(n.natural_id@),
    )
}

/// The most results a search gives.
pub const SEARCH_LIMIT: usize = 10;

/// `r` is the search result for `query` over `nodes`: the first matching
/// node indices in node order, at most `SEARCH_LIMIT` of them.
pub open spec fn first_matches(nodes: Seq<StarNode>, query: Seq<char>, r: Seq<usize>) -> bool {
    &&& r.len() <= SEARCH_LIMIT
    &&& forall|j: int| 0 <= j < r.len() ==> #[trigger] r[j] < nodes.len() && node_matches(nodes[r[j] as int], query)
    &&& forall|j: int, l: int| 0 <= j < l < r.len() ==> #[trigger] r[j] < #[trigger] r[l]
    &&& forall|i: int|
        0 <= i < nodes.len() && node_matches(nodes[i], query) && (r.len() < SEARCH_LIMIT || i
            < r.last()) ==> #[trigger] r.contains(i as usize)
}

impl StarMap {
    /// The number of nodes.
    pub fn node_count(&self) -> (r: usize)
        ensures
            r == self.nodes().len(),
    {
        graph_node_count(&self.graph)
    }

    /// The number of edges.
    pub fn edge_count(&self) -> (r: usize)
        ensures
            r == self.edges().len(),
    {
        graph_edge_count(&self.graph)
    }

    /// Node `i`.
    pub fn node(&self, i: usize) -> (r: &StarNode)
        requires
            self.wf(),
            i < self.nodes().len(),
        ensures
            *r == self.nodes()[i as int],
    {
        match graph_node_weight(&self.graph, i) {
            Some(n) => n,
            None => unreached(),
        }
    }

    /// The two nodes that edge `e` joins.
    pub fn edge(&self, e: usize) -> (r: (usize, usize))
        requires
            self.wf(),
            e < self.edges().len(),
        ensures
            r == self.edges()[e as int],
    {
        match graph_edge_endpoints(&self.graph, e) {
            Some(p) => p,
            None => unreached(),
        }
    }

    /// The nodes adjacent to node `i`: every node in the result is adjacent,
    /// and every adjacent node is in it.
    pub fn neighbors(&self, i: usize) -> (r: Vec<usize>)
        requires
            self.wf(),
            i < self.nodes().len(),
        ensures
            forall|j: int| 0 <= j < r@.len() ==> self.adjacent(i as int, #[trigger] r@[j] as int),
            forall|b: int| #[trigger] self.adjacent(i as int, b) ==> r@.contains(b as usize),
    {
        let r = graph_neighbors(&self.graph, i);
        assert forall|b: int| #[trigger] self.adjacent(i as int, b) implies r@.contains(b as usize) by {
            let e = choose|e: int|
                0 <= e < self.edges().len() && ((self.edges()[e].0 == i && self.edges()[e].1 == b)
                    || (self.edges()[e].0 == b && self.edges()[e].1 == i));
            if self.edges()[e].0 == i as usize {
                assert(r@.contains(self.edges()[e].1));
            } else {
                assert(r@.contains(self.edges()[e].0));
            }
        }
        r
    }

    /// The node whose record ID is `id`: the last record that carries it.
    pub fn find_by_record_id(&self, id: &str) -> (r: Option<usize>)
        requires
            self.wf(),
        ensures
            match r {
                Some(k) => resolves_to(self.ids(), id@, k as int),
                None => forall|j: int| 0 <= j < self.ids().len() ==> self.ids()[j] != id@,
            },
    {
        let key = id.to_owned();
        let r = find_last(&self.record_ids, &key);
        proof {
            assert forall|j: int| 0 <= j < self.ids().len() implies self.ids()[j] == self.record_ids@[j]@ by {}
        }
        r
    }

    /// The node whose natural ID is `id`: the last node that carries it.
    pub fn find_by_natural_id(&self, id: &str) -> (r: Option<usize>)
        requires
            self.wf(),
        ensures
            match r {
                Some(k) => resolves_to(natural_ids(self.nodes()), id@, k as int),
                None => forall|j: int| 0 <= j < self.nodes().len() ==> self.nodes()[j].natural_id@ != id@,
            },
    {
        let key = id.to_owned();
        let ghost nids = natural_ids(self.nodes());
        let mut i: usize = self.node_count();
        while i > 0
            invariant
                self.wf(),
                i <= self.nodes().len(),
                nids == natural_ids(self.nodes()),
                key@ == id@,
                forall|j: int| i <= j < self.nodes().len() ==> self.nodes()[j].natural_id@ != key@,
            decreases i,
        {
            i = i - 1;
            if self.node(i).natural_id == key {
                proof {
                    assert(nids[i as int] == key@);
                    assert forall|j: int| i < j < nids.len() implies nids[j] != id@ by {
                        assert(nids[j] == self.nodes()[j].natural_id@);
                    }
                }
                return Some(i);
            }
        }
        None
    }

    /// The nodes whose name or natural ID holds `query`, ignoring case: the
    /// first `SEARCH_LIMIT` of them in node order. An empty query finds
    /// nothing.
    pub fn search(&self, query: &str) -> (r: Vec<usize>)
        requires
            self.wf(),
        ensures
            query@.len() == 0 ==> r@.len() == 0,
            query@.len() > 0 ==> first_matches(self.nodes(), query@, r@),
    {
        let mut r: Vec<usize> = Vec::new();
        if query.unicode_len() == 0 {
            return r;
        }
        let q = lowercase(query);
        let n = self.node_count();
        let mut i: usize = 0;
        while i < n && r.len() < SEARCH_LIMIT
            invariant
                self.wf(),
                n == self.nodes().len(),
                i <= n,
                q@ == lower_of(query@),
                r@.len() <= SEARCH_LIMIT,
                forall|j: int| 0 <= j < r@.len() ==> #[trigger] r@[j] < i && node_matches(self.nodes()[r@[j] as int], query@),
                forall|j: int, l: int| 0 <= j < l < r@.len() ==> #[trigger] r@[j] < #[trigger] r@[l],
                forall|k: int| 0 <= k < i && node_matches(self.nodes()[k], query@) ==> #[trigger] r@.contains(k as usize),
            decreases n - i,
        {
            let node = self.node(i);
            let name = lowercase(node.name.as_str());
            let nid = lowercase(node.natural_id.as_str());
            let ghost before = r@;
            if matches_folded(q.as_str(), name.as_str(), nid.as_str()) {
                r.push(i);
                proof {
                    assert(r@[before.len() as int] == i);
                    assert forall|k: int| 0 <= k < i + 1 && node_matches(self.nodes()[k], query@) implies #[trigger] r@.contains(k as usize) by {
                        if k < i {
                            assert(before.contains(k as usize));
                            let j = choose|j: int| 0 <= j < before.len() && before[j] == k as usize;
                            assert(r@[j] == before[j]);
                        } else {
                            assert(r@[before.len() as int] == k as usize);
                        }
                    }
                }
            }
            i = i + 1;
        }
        proof {
            assert forall|k: int|
                0 <= k < n && node_matches(self.nodes()[k], query@) && (r@.len() < SEARCH_LIMIT || k
                    < r@.last()) implies #[trigger] r@.contains(k as usize) by {
                if r@.len() >= SEARCH_LIMIT {
                    assert(r@.last() < i);
                }
            }
        }
        r
    }
}

/// The natural IDs of the nodes, in node order.
pub open spec fn natural_ids(nodes: Seq<StarNode>) -> Seq<Seq<char>> {
    nodes.map_values(|n: StarNode| n.natural_id@)
}

/// Building twice from the same records gives the same graph: the same
/// nodes with the same attributes and record IDs, and the same pairs of
/// adjacent nodes.
pub proof fn lemma_rebuild_same(systems: Seq<StarSystem>, m1: StarMap, m2: StarMap)
    requires
        m1.built_from(systems),
        m2.built_from(systems),
    ensures
        m1.nodes() == m2.nodes(),
        m1.ids() == m2.ids(),
        forall|a: int, b: int| m1.adjacent(a, b) <==> m2.adjacent(a, b),
{
    let n = systems.len() as int;
    assert forall|i: int| 0 <= i < n implies m1.nodes()[i] == m2.nodes()[i] by {
        assert(m1.nodes()[i] == node_of(systems[i]));
        assert(m2.nodes()[i] == node_of(systems[i]));
    }
    assert(m1.nodes() =~= m2.nodes());
    assert forall|a: int, b: int| m1.adjacent(a, b) <==> m2.adjacent(a, b) by {
        if !(0 <= a < n && 0 <= b < n) {
            if m1.adjacent(a, b) {
                let e = choose|e: int|
                    0 <= e < m1.edges().len() && ((m1.edges()[e].0 == a && m1.edges()[e].1 == b) || (
                    m1.edges()[e].0 == b && m1.edges()[e].1 == a));
                assert(m1.edges()[e].0 < n && m1.edges()[e].1 < n);
            }
            if m2.adjacent(a, b) {
                let e = choose|e: int|
                    0 <= e < m2.edges().len() && ((m2.edges()[e].0 == a && m2.edges()[e].1 == b) || (
                    m2.edges()[e].0 == b && m2.edges()[e].1 == a));
                assert(m2.edges()[e].0 < n && m2.edges()[e].1 < n);
            }
        }
    }
}

/// Every declared connection joins two different nodes, and is answered by
/// a connection declared the other way.
pub open spec fn declarations_symmetric(systems: Seq<StarSystem>) -> bool {
    forall|i: int, c: int, a: int, b: int|
        #[trigger] declares_at(systems, i, c, a, b) ==> a != b && exists|i2: int, c2: int|
            #[trigger] declares_at(systems, i2, c2, b, a)
}

/// The position of connection `c` of record `i` among all declared
/// connections.
pub open spec fn declaration_index(systems: Seq<StarSystem>, i: int, c: int) -> int {
    connections_in(systems, i) + c
}

/// The position of some connection that joins `a` to `b`.
pub open spec fn declaration_of(systems: Seq<StarSystem>, a: int, b: int) -> int {
    let (i, c) = choose|i: int, c: int| declares_at(systems, i, c, a, b);
    declaration_index(systems, i, c)
}

proof fn lemma_declaration_index(systems: Seq<StarSystem>, i: int, c: int, i2: int, c2: int)
    requires
        0 <= i < systems.len(),
        0 <= c < systems[i].connections@.len(),
        0 <= i2 < systems.len(),
        0 <= c2 < systems[i2].connections@.len(),
    ensures
        0 <= declaration_index(systems, i, c) < total_connections(systems),
        declaration_index(systems, i, c) == declaration_index(systems, i2, c2) ==> i == i2 && c == c2,
{
    let n = systems.len() as int;
    lemma_connections_monotone(systems, 0, i);
    lemma_connections_monotone(systems, i + 1, n);
    assert(connections_in(systems, i + 1) == connections_in(systems, i) + systems[i].connections@.len());
    assert(connections_in(systems, i2 + 1) == connections_in(systems, i2) + systems[i2].connections@.len());
    if i < i2 {
        lemma_connections_monotone(systems, i + 1, i2);
    } else if i2 < i {
        lemma_connections_monotone(systems, i2 + 1, i);
    }
}

/// A map from `[0, n)` into `[0, total)` that takes no value twice bounds `n`.
proof fn lemma_injection_bound(n: int, total: int, f: spec_fn(int) -> int)
    requires
        0 <= n,
        0 <= total,
        forall|k: int| 0 <= k < n ==> 0 <= #[trigger] f(k) < total,
        forall|k1: int, k2: int| 0 <= k1 < n && 0 <= k2 < n && #[trigger] f(k1) == #[trigger] f(k2) ==> k1 == k2,
    ensures
        n <= total,
{
    if n > 0 {
        assert(0 <= f(0) < total);
        let dom = set_int_range(0, n);
        lemma_int_range(0, n);
        let img = dom.map(f);
        assert(injective_on(f, dom));
        lemma_map_size(dom, img, f);
        lemma_int_range(0, total);
        assert(img.subset_of(set_int_range(0, total)));
        lemma_len_subset(img, set_int_range(0, total));
        assert(dom.len() == n);
        assert(img.len() == n);
        assert(img.len() <= total);
    }
}

proof fn lemma_declaration_of(systems: Seq<StarSystem>, a: int, b: int)
    requires
        declares(systems, a, b),
    ensures
        exists|i: int, c: int|
            #[trigger] declares_at(systems, i, c, a, b) && declaration_of(systems, a, b) == declaration_index(systems, i, c),
{
    let (i, c) = choose|i: int, c: int|
        (i < systems.len() || (i == systems.len() && c < 0)) && #[trigger] declares_at(systems, i, c, a, b);
    assert(declares_at(systems, i, c, a, b));
    let (i1, c1) = choose|i: int, c: int| declares_at(systems, i, c, a, b);
    assert(declares_at(systems, i1, c1, a, b));
}

/// The graph of a list of records has exactly one node per record. Each
/// edge answers to at least one declared connection of its own, so there are
/// no more edges than declared connections; a connection to an unknown ID
/// joins nothing; and where every connection is declared from both ends,
/// the two declarations give one edge, so there are at most half as many
/// edges as declared connections.
pub proof fn lemma_edge_count(systems: Seq<StarSystem>, m: StarMap)
    requires
        m.built_from(systems),
    ensures
        m.nodes().len() == systems.len(),
        m.edges().len() <= total_connections(systems),
        declarations_symmetric(systems) ==> 2 * m.edges().len() <= total_connections(systems),
{
    let n = systems.len() as int;
    let edges = m.edges();
    let ne = edges.len() as int;
    let total = total_connections(systems);
    lemma_connections_monotone(systems, 0, n);
    assert forall|e: int| 0 <= e < ne implies declares(systems, (#[trigger] edges[e]).0 as int, edges[e].1 as int)
        || declares(systems, edges[e].1 as int, edges[e].0 as int) by {
        assert(edges[e].0 < n && edges[e].1 < n);
        assert(m.adjacent(edges[e].0 as int, edges[e].1 as int));
    }
    // One declaration per edge, in the direction that is declared.
    let one = |k: int|
        if declares(systems, edges[k].0 as int, edges[k].1 as int) {
            declaration_of(systems, edges[k].0 as int, edges[k].1 as int)
        } else {
            declaration_of(systems, edges[k].1 as int, edges[k].0 as int)
        };
    assert forall|k: int| 0 <= k < ne implies 0 <= #[trigger] one(k) < total by {
        let (x, y) = (edges[k].0 as int, edges[k].1 as int);
        if declares(systems, x, y) {
            lemma_declaration_of(systems, x, y);
            let (i, c) = choose|i: int, c: int|
                #[trigger] declares_at(systems, i, c, x, y) && declaration_of(systems, x, y) == declaration_index(systems, i, c);
            lemma_declaration_index(systems, i, c, i, c);
        } else {
            lemma_declaration_of(systems, y, x);
            let (i, c) = choose|i: int, c: int|
                #[trigger] declares_at(systems, i, c, y, x) && declaration_of(systems, y, x) == declaration_index(systems, i, c);
            lemma_declaration_index(systems, i, c, i, c);
        }
    }
    assert forall|k1: int, k2: int|
        0 <= k1 < ne && 0 <= k2 < ne && #[trigger] one(k1) == #[trigger] one(k2) implies k1 == k2 by {
        let (x1, y1) = if declares(systems, edges[k1].0 as int, edges[k1].1 as int) {
            (edges[k1].0 as int, edges[k1].1 as int)
        } else {
            (edges[k1].1 as int, edges[k1].0 as int)
        };
        let (x2, y2) = if declares(systems, edges[k2].0 as int, edges[k2].1 as int) {
            (edges[k2].0 as int, edges[k2].1 as int)
        } else {
            (edges[k2].1 as int, edges[k2].0 as int)
        };
        lemma_declaration_of(systems, x1, y1);
        lemma_declaration_of(systems, x2, y2);
        let (i1, c1) = choose|i: int, c: int|
            #[trigger] declares_at(systems, i, c, x1, y1) && declaration_of(systems, x1, y1) == declaration_index(systems, i, c);
        let (i2, c2) = choose|i: int, c: int|
            #[trigger] declares_at(systems, i, c, x2, y2) && declaration_of(systems, x2, y2) == declaration_index(systems, i, c);
        lemma_declaration_index(systems, i1, c1, i2, c2);
        lemma_resolves_unique(record_ids(systems), systems[i1].system_id@, x1, x2);
        lemma_resolves_unique(record_ids(systems), systems[i1].connections@[c1].connecting_id@, y1, y2);
        if k1 != k2 {
            assert(!same_pair(edges[k1], edges[k2]));
        }
    }
    lemma_injection_bound(ne, total, one);

    if declarations_symmetric(systems) {
        // Two declarations per edge: one each way.
        let dir = |k: int|
            if k < ne {
                (edges[k].0 as int, edges[k].1 as int)
            } else {
                (edges[k - ne].1 as int, edges[k - ne].0 as int)
            };
        let two = |k: int| declaration_of(systems, dir(k).0, dir(k).1);
        assert forall|k: int| 0 <= k < 2 * ne implies declares(systems, #[trigger] dir(k).0, dir(k).1) && dir(k).0
            != dir(k).1 by {
            let e = if k < ne { k } else { k - ne };
            let (x, y) = (edges[e].0 as int, edges[e].1 as int);
            assert(declares(systems, x, y) || declares(systems, y, x));
            if declares(systems, x, y) {
                let (i, c) = choose|i: int, c: int|
                    (i < n || (i == n && c < 0)) && #[trigger] declares_at(systems, i, c, x, y);
                assert(declares_at(systems, i, c, x, y));
                let (i2, c2) = choose|i2: int, c2: int| #[trigger] declares_at(systems, i2, c2, y, x);
                assert(declares_before(systems, n, 0, y, x));
            } else {
                let (i, c) = choose|i: int, c: int|
                    (i < n || (i == n && c < 0)) && #[trigger] declares_at(systems, i, c, y, x);
                assert(declares_at(systems, i, c, y, x));
                let (i2, c2) = choose|i2: int, c2: int| #[trigger] declares_at(systems, i2, c2, x, y);
                assert(declares_before(systems, n, 0, x, y));
            }
        }
        assert forall|k: int| 0 <= k < 2 * ne implies 0 <= #[trigger] two(k) < total by {
            let (x, y) = dir(k);
            assert(declares(systems, x, y));
            lemma_declaration_of(systems, x, y);
            let (i, c) = choose|i: int, c: int|
                #[trigger] declares_at(systems, i, c, x, y) && declaration_of(systems, x, y) == declaration_index(systems, i, c);
            lemma_declaration_index(systems, i, c, i, c);
        }
        assert forall|k1: int, k2: int|
            0 <= k1 < 2 * ne && 0 <= k2 < 2 * ne && #[trigger] two(k1) == #[trigger] two(k2) implies k1 == k2 by {
            let (x1, y1) = dir(k1);
            let (x2, y2) = dir(k2);
            assert(declares(systems, x1, y1) && x1 != y1);
            assert(declares(systems, x2, y2));
            lemma_declaration_of(systems, x1, y1);
            lemma_declaration_of(systems, x2, y2);
            let (i1, c1) = choose|i: int, c: int|
                #[trigger] declares_at(systems, i, c, x1, y1) && declaration_of(systems, x1, y1) == declaration_index(systems, i, c);
            let (i2, c2) = choose|i: int, c: int|
                #[trigger] declares_at(systems, i, c, x2, y2) && declaration_of(systems, x2, y2) == declaration_index(systems, i, c);
            lemma_declaration_index(systems, i1, c1, i2, c2);
            lemma_resolves_unique(record_ids(systems), systems[i1].system_id@, x1, x2);
            lemma_resolves_unique(record_ids(systems), systems[i1].connections@[c1].connecting_id@, y1, y2);
            let e1 = if k1 < ne { k1 } else { k1 - ne };
            let e2 = if k2 < ne { k2 } else { k2 - ne };
            if e1 != e2 {
                assert(!same_pair(edges[e1], edges[e2]));
            }
        }
        lemma_injection_bound(2 * ne, total, two);
    }
}

} // verus!
