//! The metro map: stations, travel times between them, and the shortest
//! route and nearest-stations queries of the station service.
use vstd::prelude::*;
use vstd::string::*;
use crate::keyed::StringMap;
use crate::text::{decimal, join, str_eq, to_decimal};

verus! {

#[verifier::external_type_specification]
#[verifier::external_body]
pub struct ExDirected(petgraph::Directed);

#[verifier::external_type_specification]
#[verifier::external_body]
#[verifier::reject_recursive_types(N)]
#[verifier::reject_recursive_types(E)]
#[verifier::reject_recursive_types(Ty)]
#[verifier::reject_recursive_types(Ix)]
pub struct ExGraph<N, E, Ty, Ix>(petgraph::Graph<N, E, Ty, Ix>);

/// The travel-time graph of the metro, as `petgraph` holds it: nodes carry
/// nothing, edges carry seconds.
pub type TimeGraph = petgraph::Graph<(), u64>;

/// Number of nodes of the graph.
pub uninterp spec fn graph_node_count(g: petgraph::Graph<(), u64>) -> nat;

/// Edges of the graph in insertion order: source, target, weight.
pub uninterp spec fn graph_edges(g: petgraph::Graph<(), u64>) -> Seq<(u32, u32, u64)>;

/// What `petgraph::algo::astar` returns on a directed graph with `n` nodes
/// and the given edges, from `start` to the node `goal`, with edge weights as
/// costs and a zero estimate: the total cost and the nodes of the path.
pub uninterp spec fn metro_astar(n: nat, edges: Seq<(u32, u32, u64)>, start: u32, goal: u32) -> Option<(u64, Seq<u32>)>;

/// What `petgraph::algo::dijkstra` returns on a directed graph with `n`
/// nodes and the given edges, from `start` with no goal: the cost of reaching
/// each reachable node.
pub uninterp spec fn metro_dijkstra(n: nat, edges: Seq<(u32, u32, u64)>, start: u32) -> Map<u32, u64>;

/// The weight of the heaviest edge leaving `v`, or 0 when none does.
pub open spec fn max_out(edges: Seq<(u32, u32, u64)>, v: u32) -> int
    decreases edges.len(),
{
    if edges.len() == 0 {
        0
    } else {
        let m = max_out(edges.drop_last(), v);
        let e = edges.last();
        if e.0 == v && e.2 > m { e.2 as int } else { m }
    }
}

/// The sum, over the nodes below `k`, of the heaviest edge leaving each.
/// With `k` the node count, it bounds every cost a route search adds up:
/// such a cost follows a path that meets each node at most once, plus one
/// edge leaving its last node.
pub open spec fn out_total(edges: Seq<(u32, u32, u64)>, k: nat) -> int
    decreases k,
{
    if k == 0 {
        0
    } else {
        out_total(edges, (k - 1) as nat) + max_out(edges, (k - 1) as u32)
    }
}

/// The weight of the walk from `from` to `to` that takes the edges at the
/// positions `steps` in turn, each leaving the node the one before arrived
/// at; `None` when `steps` is no such walk.
pub open spec fn walk_cost(edges: Seq<(u32, u32, u64)>, from: u32, to: u32, steps: Seq<int>) -> Option<int>
    decreases steps.len(),
{
    if steps.len() == 0 {
        if from == to { Some(0) } else { None }
    } else {
        let e = steps[0];
        if 0 <= e < edges.len() && edges[e].0 == from {
            match walk_cost(edges, edges[e].1, to, steps.drop_first()) {
                Some(w) => Some(w + edges[e].2),
                None => None,
            }
        } else {
            None
        }
    }
}

/// The nodes a walk from `from` passes through, `from` first.
pub open spec fn walk_nodes(edges: Seq<(u32, u32, u64)>, from: u32, steps: Seq<int>) -> Seq<u32>
    decreases steps.len(),
{
    if steps.len() == 0 {
        seq![from]
    } else {
        seq![from] + walk_nodes(edges, edges[steps[0]].1, steps.drop_first())
    }
}

/// Whether some walk leads from `from` to `to`.
pub open spec fn reachable(edges: Seq<(u32, u32, u64)>, from: u32, to: u32) -> bool {
    exists|steps: Seq<int>| #[trigger] walk_cost(edges, from, to, steps) is Some
}

/// Whether no walk from `from` to `to` weighs less than `cost`.
pub open spec fn no_lighter_walk(edges: Seq<(u32, u32, u64)>, from: u32, to: u32, cost: int) -> bool {
    forall|steps: Seq<int>| #[trigger] walk_cost(edges, from, to, steps) matches Some(w) ==> cost <= w
}

/// Whether `cost` is the weight of a lightest walk from `from` to `to`.
pub open spec fn least_cost(edges: Seq<(u32, u32, u64)>, from: u32, to: u32, cost: int) -> bool {
    &&& exists|steps: Seq<int>| #[trigger] walk_cost(edges, from, to, steps) == Some(cost)
    &&& no_lighter_walk(edges, from, to, cost)
}

/// Whether `nodes` are the nodes of a lightest walk from `from` to `to`,
/// and `cost` its weight.
pub open spec fn shortest_route(edges: Seq<(u32, u32, u64)>, from: u32, to: u32, cost: int, nodes: Seq<u32>) -> bool {
    &&& exists|steps: Seq<int>| #[trigger] walk_cost(edges, from, to, steps) == Some(cost) && walk_nodes(edges, from, steps) == nodes
    &&& no_lighter_walk(edges, from, to, cost)
}

/// `petgraph::Graph::new`: a directed graph without nodes or edges.
#[verifier::external_body]
fn graph_new() -> (g: TimeGraph)
    ensures
        graph_node_count(g) == 0,
        graph_edges(g) == Seq::<(u32, u32, u64)>::empty(),
{
    petgraph::Graph::new()
}

/// `petgraph::Graph::add_node`: the new node's index is the former node
/// count. The graph asserts that the index stays below `u32::MAX`.
#[verifier::external_body]
fn graph_add_node(g: &mut TimeGraph) -> (i: u32)
    requires
        graph_node_count(*old(g)) < u32::MAX,
    ensures
        i == graph_node_count(*old(g)),
        graph_node_count(*final(g)) == graph_node_count(*old(g)) + 1,
        graph_edges(*final(g)) == graph_edges(*old(g)),
{
    g.add_node(()).index() as u32
}

/// `petgraph::Graph::add_edge`; it panics on node indices out of range and
/// asserts that the edge index stays below `u32::MAX`.
#[verifier::external_body]
fn graph_add_edge(g: &mut TimeGraph, a: u32, b: u32, w: u64)
    requires
        a < graph_node_count(*old(g)),
        b < graph_node_count(*old(g)),
        graph_edges(*old(g)).len() < u32::MAX,
    ensures
        graph_node_count(*final(g)) == graph_node_count(*old(g)),
        graph_edges(*final(g)) == graph_edges(*old(g)).push((a, b, w)),
{
    g.add_edge(petgraph::graph::NodeIndex::new(a as usize), petgraph::graph::NodeIndex::new(b as usize), w);
}

/// `petgraph::Graph::raw_edges`: the edges in insertion order, each as its
/// source, target and weight.
#[verifier::external_body]
fn graph_edge_list(g: &TimeGraph) -> (r: Vec<(u32, u32, u64)>)
    ensures
        r@ == graph_edges(*g),
{
    g.raw_edges().iter().map(|e| (e.source().index() as u32, e.target().index() as u32, e.weight)).collect()
}

/// Whether `node` is the goal of a search.
fn is_goal(node: usize, goal: u32) -> (r: bool)
    ensures
        r == (node == goal),
{
    node == goal as usize
}

/// `petgraph::algo::astar` from `start` to `goal` with edge weights as costs
/// and a zero estimate. Its result is named `metro_astar`; as documented, it
/// is a shortest path with its total cost: with a zero estimate the search
/// is Dijkstra's, so the goal is taken with the least cost of any walk to
/// it, and the path, rebuilt through each node's predecessor, is a walk of
/// that weight from `start` to `goal`. Which of several shortest paths comes
/// back is left to the name. There is none exactly when no walk reaches the
/// goal. In its source a node's score only ever improves, so every score
/// follows a path that meets each node once; a cost it adds up is such a
/// score plus one edge, so a bound `out_total` within `u64` keeps it from
/// overflowing.
#[verifier::external_body]
fn graph_astar(g: &TimeGraph, start: u32, goal: u32) -> (r: Option<(u64, Vec<u32>)>)
    requires
        start < graph_node_count(*g),
        out_total(graph_edges(*g), graph_node_count(*g)) <= u64::MAX,
    ensures
        match r {
            Some((c, p)) => metro_astar(graph_node_count(*g), graph_edges(*g), start, goal) == Some((c, p@))
                && p@.len() >= 1 && p@[0] == start && p@.last() == goal
                && forall|i: int| 0 <= i < p@.len() ==> #[trigger] p@[i] < graph_node_count(*g),
            None => metro_astar(graph_node_count(*g), graph_edges(*g), start, goal) is None,
        },
        match r {
            Some((c, p)) => shortest_route(graph_edges(*g), start, goal, c as int, p@),
            None => !reachable(graph_edges(*g), start, goal),
        },
{
    let found = petgraph::algo::astar(
        g,
        petgraph::graph::NodeIndex::new(start as usize),
        |n| is_goal(n.index(), goal),
        |e| *e.weight(),
        |_| 0,
    );
    found.map(|(c, p)| (c, p.into_iter().map(|n| n.index() as u32).collect()))
}

/// The map given by a list of distinct keys and their values.
pub open spec fn map_of(entries: Seq<(u32, u64)>) -> Map<u32, u64> {
    Map::new(
        |k: u32| exists|i: int| 0 <= i < entries.len() && entries[i].0 == k,
        |k: u32| entries[choose|i: int| 0 <= i < entries.len() && entries[i].0 == k].1,
    )
}

pub open spec fn distinct_keys(entries: Seq<(u32, u64)>) -> bool {
    forall|i: int, j: int| 0 <= i < entries.len() && 0 <= j < entries.len() && i != j ==> entries[i].0 != entries[j].0
}

/// `petgraph::algo::dijkstra` from `start` with no goal, edge weights as
/// costs. The map it returns is named `metro_dijkstra`; it is handed out as a
/// list in the order the map is walked, which varies from run to run, so only
/// the set of its entries is stated. As documented, it holds each node that
/// a walk from `start` reaches, with the least weight of such a walk, and no
/// other node; `start` has cost 0.
/// A cost it adds up is the score of a visited node, which follows a path
/// over visited nodes that meets each once, plus one edge to a node not yet
/// visited; a bound `out_total` within `u64` keeps it from overflowing.
#[verifier::external_body]
fn graph_dijkstra(g: &TimeGraph, start: u32) -> (r: Vec<(u32, u64)>)
    requires
        start < graph_node_count(*g),
        out_total(graph_edges(*g), graph_node_count(*g)) <= u64::MAX,
    ensures
        distinct_keys(r@),
        map_of(r@) == metro_dijkstra(graph_node_count(*g), graph_edges(*g), start),
        forall|i: int| 0 <= i < r@.len() ==> #[trigger] r@[i].0 < graph_node_count(*g),
        forall|i: int| 0 <= i < r@.len() ==> least_cost(graph_edges(*g), start, #[trigger] r@[i].0, r@[i].1 as int),
        forall|v: u32| #[trigger] reachable(graph_edges(*g), start, v) ==> exists|i: int| 0 <= i < r@.len() && r@[i].0 == v,
        r@.contains((start, 0u64)),
{
    let costs = petgraph::algo::dijkstra(g, petgraph::graph::NodeIndex::new(start as usize), None, |e| *e.weight());
    costs.into_iter().map(|(n, c)| (n.index() as u32, c)).collect()
}

/// A station as values.
pub struct StationView {
    pub node_id: Seq<char>,
    pub station_id: Seq<char>,
    pub station_name: Seq<char>,
}

/// A stop of the metro map: its node, its station and the station's name.
pub struct Station {
    pub node_id: String,
    pub station_id: String,
    pub station_name: String,
}

impl View for Station {
    type V = StationView;

    open spec fn view(&self) -> StationView {
        StationView { node_id: self.node_id@, station_id: self.station_id@, station_name: self.station_name@ }
    }
}

impl Clone for Station {
    fn clone(&self) -> (r: Self)
        ensures
            r@ == self@,
    {
        Station {
            node_id: self.node_id.clone(),
            station_id: self.station_id.clone(),
            station_name: self.station_name.clone(),
        }
    }
}

pub open spec fn stations_view(v: Seq<Station>) -> Seq<StationView> {
    v.map_values(|s: Station| s@)
}

fn clone_stations(v: &Vec<Station>) -> (r: Vec<Station>)
    ensures
        stations_view(r@) == stations_view(v@),
{
    let mut r: Vec<Station> = Vec::new();
    let mut i: usize = 0;
    while i < v.len()
        invariant
            i <= v@.len(),
            stations_view(r@) == stations_view(v@.take(i as int)),
        decreases v@.len() - i,
    {
        let ghost old_r = r@;
        r.push(v[i].clone());
        assert(stations_view(r@) =~= stations_view(old_r).push(v@[i as int]@));
        assert(v@.take(i + 1) =~= v@.take(i as int).push(v@[i as int]));
        assert(stations_view(r@) =~= stations_view(v@.take(i + 1)));
        i = i + 1;
    }
    assert(v@.take(v@.len() as int) =~= v@);
    r
}

/// A route: its duration in whole minutes and the stations along it.
pub struct MetroPath {
    pub time: u32,
    pub stations: Vec<Station>,
}

/// A station reachable within a time limit, and the minutes to reach it.
pub struct Nearest {
    pub time: u32,
    pub station: Station,
}

pub struct NearestView {
    pub time: u32,
    pub station: StationView,
}

impl View for Nearest {
    type V = NearestView;

    open spec fn view(&self) -> NearestView {
        NearestView { time: self.time, station: self.station@ }
    }
}

/// Whole minutes of `seconds`, rounded up and capped at `u32::MAX`.
pub open spec fn minutes_ceil(seconds: u64) -> u32 {
    let m = (seconds as int + 59) / 60;
    if m > u32::MAX { u32::MAX } else { m as u32 }
}

fn minutes_of(seconds: u64) -> (r: u32)
    ensures
        r == minutes_ceil(seconds),
{
    let m = seconds / 60 + if seconds % 60 == 0 { 0 } else { 1 };
    assert(m == (seconds as int + 59) / 60);
    if m > u32::MAX as u64 {
        u32::MAX
    } else {
        m as u32
    }
}

/// The metro map as values.
pub struct MetroGraphView {
    pub stations: Seq<StationView>,
    pub edges: Seq<(u32, u32, u64)>,
    pub indexes: Map<Seq<char>, u32>,
}

/// The metro map: the travel-time graph, the station of each node, and the
/// node of each node id.
pub struct MetroGraph {
    graph: TimeGraph,
    stations: Vec<Station>,
    indexes: StringMap<u32>,
}

impl View for MetroGraph {
    type V = MetroGraphView;

    closed spec fn view(&self) -> MetroGraphView {
        MetroGraphView {
            stations: stations_view(self.stations@),
            edges: graph_edges(self.graph),
            indexes: self.indexes@,
        }
    }
}

impl MetroGraph {
    /// Every node has a station, every edge joins nodes, and every indexed
    /// node exists.
    pub closed spec fn wf(&self) -> bool {
        &&& self.indexes.wf()
        &&& graph_node_count(self.graph) == self.stations@.len()
        &&& self.stations@.len() < u32::MAX
        &&& graph_edges(self.graph).len() < u32::MAX
        &&& forall|i: int| 0 <= i < graph_edges(self.graph).len()
            ==> #[trigger] graph_edges(self.graph)[i].0 < self.stations@.len() && graph_edges(self.graph)[i].1 < self.stations@.len()
        &&& forall|k: Seq<char>| #[trigger] self.indexes@.contains_key(k) ==> self.indexes@[k] < self.stations@.len()
    }

    /// The route searches cannot overflow on this map: the sum over the
    /// nodes of their heaviest leaving edge fits in `u64`.
    pub open spec fn searchable(&self) -> bool {
        out_total(self@.edges, self@.stations.len()) <= u64::MAX
    }

    /// A usable map indexes only its nodes, joins only its nodes, and has
    /// fewer than `u32::MAX` nodes and edges.
    pub proof fn lemma_wf(&self)
        requires
            self.wf(),
        ensures
            forall|k: Seq<char>| #[trigger] self@.indexes.contains_key(k) ==> self@.indexes[k] < self@.stations.len(),
            forall|i: int| 0 <= i < self@.edges.len()
                ==> #[trigger] self@.edges[i].0 < self@.stations.len() && self@.edges[i].1 < self@.stations.len(),
            self@.stations.len() < u32::MAX,
            self@.edges.len() < u32::MAX,
    {
        assert(self@.stations.len() == self.stations@.len());
    }

    /// The node of the given node id.
    pub fn get_by_index(&self, node_id: &str) -> (r: Option<u32>)
        requires
            self.wf(),
        ensures
            r matches Some(i) ==> self@.indexes.contains_key(node_id@) && i == self@.indexes[node_id@]
                && i < self@.stations.len(),
            r is None ==> !self@.indexes.contains_key(node_id@),
    {
        match self.indexes.get(node_id) {
            Some(i) => Some(*i),
            None => None,
        }
    }

    /// The result of the route search between two nodes.
    pub open spec fn route(&self, from: u32, to: u32) -> Option<(u64, Seq<u32>)> {
        metro_astar(self@.stations.len(), self@.edges, from, to)
    }

    /// The costs of reaching nodes from a node.
    pub open spec fn costs_from(&self, from: u32) -> Map<u32, u64> {
        metro_dijkstra(self@.stations.len(), self@.edges, from)
    }
}

pub open spec fn missing_node_message(id: Seq<char>) -> Seq<char> {
    "Нода с id "@ + id + " не найдена в сервисе"@
}

pub open spec fn map_error_message() -> Seq<char> {
    "Ошибка загрузки данных из файла map.json"@
}

fn missing_node(id: &str) -> (r: String)
    ensures
        r@ == missing_node_message(id@),
{
    let mut m = String::from_str("Нода с id ");
    m.append(id);
    m.append(" не найдена в сервисе");
    m
}

impl MetroGraph {
    /// The route of a search result: its cost in whole minutes, rounded up,
    /// and the stations of its nodes in order.
    pub fn path_of_route(&self, cost: u64, nodes: &Vec<u32>) -> (r: MetroPath)
        requires
            self.wf(),
            forall|i: int| 0 <= i < nodes@.len() ==> #[trigger] nodes@[i] < self@.stations.len(),
        ensures
            r.time == minutes_ceil(cost),
            stations_view(r.stations@) == nodes@.map_values(|n: u32| self@.stations[n as int]),
    {
        let mut stations: Vec<Station> = Vec::new();
        let mut k: usize = 0;
        while k < nodes.len()
            invariant
                self.wf(),
                k <= nodes@.len(),
                forall|i: int| 0 <= i < nodes@.len() ==> #[trigger] nodes@[i] < self@.stations.len(),
                stations_view(stations@) == nodes@.take(k as int).map_values(|n: u32| self@.stations[n as int]),
            decreases nodes@.len() - k,
        {
            let n = nodes[k];
            assert(self@.stations.len() == self.stations@.len());
            let s = self.stations[n as usize].clone();
            let ghost old_st = stations@;
            stations.push(s);
            assert(stations_view(stations@) =~= stations_view(old_st).push(self@.stations[n as int]));
            assert(nodes@.take(k + 1) =~= nodes@.take(k as int).push(n));
            assert(stations_view(stations@) =~= nodes@.take(k + 1).map_values(|n: u32| self@.stations[n as int]));
            k = k + 1;
        }
        assert(nodes@.take(nodes@.len() as int) =~= nodes@);
        let time = minutes_of(cost);
        MetroPath { time, stations }
    }

    /// The nearest-stations entries of a list of node costs from `start`,
    /// in list order: every node other than `start` whose cost, taken as
    /// `u32` whole minutes, stays below `limit`, with its minutes rounded
    /// up.
    pub fn nearest_of_costs(&self, start: u32, limit: u32, costs: &Vec<(u32, u64)>) -> (r: Vec<Nearest>)
        requires
            self.wf(),
            forall|i: int| 0 <= i < costs@.len() ==> #[trigger] costs@[i].0 < self@.stations.len(),
        ensures
            nearest_view(r@) == nearest_list(self@.stations, start, limit, costs@),
    {
        let mut nearest: Vec<Nearest> = Vec::new();
        let mut k: usize = 0;
        while k < costs.len()
            invariant
                self.wf(),
                k <= costs@.len(),
                forall|i: int| 0 <= i < costs@.len() ==> #[trigger] costs@[i].0 < self@.stations.len(),
                nearest_view(nearest@) == nearest_list(self@.stations, start, limit, costs@.take(k as int)),
            decreases costs@.len() - k,
        {
            let (n, c) = costs[k];
            assert(costs@.take(k + 1).drop_last() =~= costs@.take(k as int));
            if (c as u32) / 60 < limit && n != start {
                assert(self@.stations.len() == self.stations@.len());
                let ghost old_v = nearest@;
                let item = Nearest { time: minutes_of(c), station: self.stations[n as usize].clone() };
                nearest.push(item);
                assert(nearest_view(nearest@) =~= nearest_view(old_v).push(item@));
            }
            k = k + 1;
        }
        assert(costs@.take(costs@.len() as int) =~= costs@);
        nearest
    }
}

proof fn lemma_max_out_nonneg(edges: Seq<(u32, u32, u64)>, v: u32)
    ensures
        max_out(edges, v) >= 0,
    decreases edges.len(),
{
    if edges.len() > 0 {
        lemma_max_out_nonneg(edges.drop_last(), v);
    }
}

proof fn lemma_out_total_grows(edges: Seq<(u32, u32, u64)>, k: nat, m: nat)
    requires
        k <= m,
    ensures
        out_total(edges, k) <= out_total(edges, m),
    decreases m - k,
{
    if k < m {
        lemma_out_total_grows(edges, k, (m - 1) as nat);
        lemma_max_out_nonneg(edges, (m - 1) as u32);
    }
}

impl MetroGraph {
    /// Whether the route searches cannot overflow on this map.
    pub fn costs_fit(&self) -> (r: bool)
        requires
            self.wf(),
        ensures
            r == self.searchable(),
    {
        proof { assert(self@.stations.len() == self.stations@.len()); }
        let n = self.stations.len();
        let edges = graph_edge_list(&self.graph);
        let mut maxes: Vec<u64> = Vec::new();
        let mut k: usize = 0;
        while k < n
            invariant
                k <= n,
                maxes@.len() == k,
                forall|v: int| 0 <= v < k ==> #[trigger] maxes@[v] == 0,
            decreases n - k,
        {
            maxes.push(0);
            k = k + 1;
        }
        let mut i: usize = 0;
        while i < edges.len()
            invariant
                self.wf(),
                n == self.stations@.len(),
                edges@ == self@.edges,
                i <= edges@.len(),
                maxes@.len() == n,
                forall|v: int| 0 <= v < n ==> #[trigger] maxes@[v] == max_out(edges@.take(i as int), v as u32),
            decreases edges@.len() - i,
        {
            let (a, _b, w) = edges[i];
            assert(edges@.take(i + 1).drop_last() =~= edges@.take(i as int));
            assert(edges@.take(i + 1).last() == edges@[i as int]);
            assert(a < n);
            let ghost before = maxes@;
            if w > maxes[a as usize] {
                maxes.set(a as usize, w);
            }
            assert forall|v: int| 0 <= v < n implies #[trigger] maxes@[v] == max_out(edges@.take(i + 1), v as u32) by {
                if v != a as int {
                    assert(maxes@[v] == before[v]);
                    assert((v as u32) != a);
                }
            }
            i = i + 1;
        }
        assert(edges@.take(edges@.len() as int) =~= edges@);
        let mut total: u64 = 0;
        let mut v: usize = 0;
        while v < n
            invariant
                v <= n,
                n == self@.stations.len(),
                maxes@.len() == n,
                forall|u: int| 0 <= u < n ==> #[trigger] maxes@[u] == max_out(self@.edges, u as u32),
                total == out_total(self@.edges, v as nat),
            decreases n - v,
        {
            assert(maxes@[v as int] == max_out(self@.edges, v as u32));
            match total.checked_add(maxes[v]) {
                Some(t) => total = t,
                None => {
                    proof { lemma_out_total_grows(self@.edges, (v + 1) as nat, n as nat); }
                    return false;
                },
            }
            v = v + 1;
        }
        true
    }
}

/// The route runs from the station of `from` to the station of `to`.
pub open spec fn route_ends(g: MetroGraph, from: Seq<char>, to: Seq<char>, p: MetroPath) -> bool {
    &&& p.stations@.len() >= 1
    &&& p.stations@[0]@ == g@.stations[g@.indexes[from] as int]
    &&& p.stations@[p.stations@.len() - 1]@ == g@.stations[g@.indexes[to] as int]
}

/// Whether the route between the two node ids, when both are known, exists.
pub open spec fn route_found(g: MetroGraph, from: Seq<char>, to: Seq<char>) -> bool {
    g@.indexes.contains_key(from) && g@.indexes.contains_key(to)
        ==> reachable(g@.edges, g@.indexes[from], g@.indexes[to])
}

/// Whether the route search between the two node ids, when both are known,
/// gives a shortest route.
pub open spec fn route_is_shortest(g: MetroGraph, from: Seq<char>, to: Seq<char>) -> bool {
    g@.indexes.contains_key(from) && g@.indexes.contains_key(to) ==> {
        let (i1, i2) = (g@.indexes[from], g@.indexes[to]);
        g.route(i1, i2) matches Some((c, nodes)) && shortest_route(g@.edges, i1, i2, c as int, nodes)
    }
}

/// The result of `find_path`, as values.
pub open spec fn path_result(g: MetroGraph, from: Seq<char>, to: Seq<char>) -> Result<(u32, Seq<StationView>), Seq<char>> {
    if !g@.indexes.contains_key(from) {
        Err(missing_node_message(from))
    } else if !g@.indexes.contains_key(to) {
        Err(missing_node_message(to))
    } else {
        let (cost, nodes) = g.route(g@.indexes[from], g@.indexes[to]).unwrap();
        Ok((minutes_ceil(cost), nodes.map_values(|n: u32| g@.stations[n as int])))
    }
}

/// The shortest route between two node ids: the stations along it and its
/// duration in whole minutes, rounded up.
pub fn find_path(graph: Option<&MetroGraph>, from_node_id: &str, to_node_id: &str) -> (r: Result<MetroPath, String>)
    requires
        graph matches Some(g) ==> g.wf() && g.searchable() && route_found(*g, from_node_id@, to_node_id@),
    ensures
        graph matches Some(g) ==> route_is_shortest(*g, from_node_id@, to_node_id@),
        graph is None ==> (r matches Err(e) && e@ == map_error_message()),
        graph matches Some(g) ==> match path_result(*g, from_node_id@, to_node_id@) {
            Ok((t, st)) => r matches Ok(p) && p.time == t && stations_view(p.stations@) == st
                && route_ends(*g, from_node_id@, to_node_id@, p),
            Err(m) => r matches Err(e) && e@ == m,
        },
{
    let g = match graph {
        Some(g) => g,
        None => return Err(String::from_str("Ошибка загрузки данных из файла map.json")),
    };
    let i1 = match g.get_by_index(from_node_id) {
        Some(i) => i,
        None => return Err(missing_node(from_node_id)),
    };
    let i2 = match g.get_by_index(to_node_id) {
        Some(i) => i,
        None => return Err(missing_node(to_node_id)),
    };
    proof { assert(g@.stations.len() == g.stations@.len()); }
    let (cost, nodes) = match graph_astar(&g.graph, i1, i2) {
        Some(found) => found,
        None => {
            assert(false);
            return Err(missing_node(to_node_id));
        },
    };
    let p = g.path_of_route(cost, &nodes);
    assert(nodes@.map_values(|n: u32| g@.stations[n as int]).len() == nodes@.len());
    assert(stations_view(p.stations@).len() == p.stations@.len());
    assert(nodes@[0] == i1 && nodes@[nodes@.len() - 1] == i2);
    assert(stations_view(p.stations@)[0] == p.stations@[0]@);
    assert(stations_view(p.stations@)[p.stations@.len() - 1] == p.stations@[p.stations@.len() - 1]@);
    Ok(p)
}

/// `find_path` for any pair of node ids and any map: `None` when the map's
/// route costs could overflow, or when both ids are known and no route joins
/// them.
pub fn try_find_path(graph: Option<&MetroGraph>, from_node_id: &str, to_node_id: &str) -> (r: Option<Result<MetroPath, String>>)
    requires
        graph matches Some(g) ==> g.wf(),
    ensures
        r is None <==> (graph matches Some(g) && (!g.searchable() || !route_found(*g, from_node_id@, to_node_id@))),
        graph is None ==> (r matches Some(Err(e)) && e@ == map_error_message()),
        r matches Some(res) ==> (graph matches Some(g) ==> match path_result(*g, from_node_id@, to_node_id@) {
            Ok((t, st)) => res matches Ok(p) && p.time == t && stations_view(p.stations@) == st
                && route_ends(*g, from_node_id@, to_node_id@, p),
            Err(m) => res matches Err(e) && e@ == m,
        }),
{
    if let Some(g) = graph {
        if !g.costs_fit() {
            return None;
        }
        proof { assert(g@.stations.len() == g.stations@.len()); }
        if let Some(i1) = g.get_by_index(from_node_id) {
            if let Some(i2) = g.get_by_index(to_node_id) {
                if graph_astar(&g.graph, i1, i2).is_none() {
                    return None;
                }
            }
        }
    }
    Some(find_path(graph, from_node_id, to_node_id))
}

/// The nearest-station entries of a list of node costs, in list order: every
/// node other than `start` whose whole minutes, taking the cost as `u32`,
/// stay below `limit`.
pub open spec fn nearest_list(stations: Seq<StationView>, start: u32, limit: u32, costs: Seq<(u32, u64)>) -> Seq<NearestView>
    decreases costs.len(),
{
    if costs.len() == 0 {
        Seq::empty()
    } else {
        let prev = nearest_list(stations, start, limit, costs.drop_last());
        let (n, c) = costs.last();
        if (c as u32) / 60 < limit && n != start {
            prev.push(NearestView { time: minutes_ceil(c), station: stations[n as int] })
        } else {
            prev
        }
    }
}

pub open spec fn nearest_view(v: Seq<Nearest>) -> Seq<NearestView> {
    v.map_values(|n: Nearest| n@)
}

/// Within no time, no station is near.
pub proof fn lemma_nearest_within_zero(stations: Seq<StationView>, start: u32, costs: Seq<(u32, u64)>)
    ensures
        nearest_list(stations, start, 0, costs).len() == 0,
    decreases costs.len(),
{
    if costs.len() > 0 {
        lemma_nearest_within_zero(stations, start, costs.drop_last());
    }
}

/// The stations reachable from `target_node_id` in under
/// `nearest_stations_time` minutes, each with its travel time in minutes;
/// their order is that in which the search's cost map is walked.
pub fn find_nearest(graph: Option<&MetroGraph>, target_node_id: &str, nearest_stations_time: u32) -> (r: Result<Vec<Nearest>, String>)
    requires
        graph matches Some(g) ==> g.wf() && g.searchable(),
    ensures
        graph is None ==> (r matches Err(e) && e@ == map_error_message()),
        graph matches Some(g) ==> if !g@.indexes.contains_key(target_node_id@) {
            r matches Err(e) && e@ == missing_node_message(target_node_id@)
        } else {
            r matches Ok(v) && exists|costs: Seq<(u32, u64)>|
                distinct_keys(costs) && map_of(costs) == g.costs_from(g@.indexes[target_node_id@])
                && (forall|i: int| 0 <= i < costs.len() ==> #[trigger] costs[i].0 < g@.stations.len())
                && (forall|i: int| 0 <= i < costs.len()
                    ==> least_cost(g@.edges, g@.indexes[target_node_id@], #[trigger] costs[i].0, costs[i].1 as int))
                && (forall|n: u32| #[trigger] reachable(g@.edges, g@.indexes[target_node_id@], n)
                    ==> exists|i: int| 0 <= i < costs.len() && costs[i].0 == n)
                && #[trigger] nearest_list(g@.stations, g@.indexes[target_node_id@], nearest_stations_time, costs) == nearest_view(v@)
        },
        nearest_stations_time == 0 ==> (r matches Ok(v) ==> v@.len() == 0),
{
    let g = match graph {
        Some(g) => g,
        None => return Err(String::from_str("Ошибка загрузки данных из файла map.json")),
    };
    let start = match g.get_by_index(target_node_id) {
        Some(i) => i,
        None => return Err(missing_node(target_node_id)),
    };
    proof { assert(g@.stations.len() == g.stations@.len()); }
    let costs = graph_dijkstra(&g.graph, start);
    let near = g.nearest_of_costs(start, nearest_stations_time, &costs);
    proof {
        lemma_nearest_within_zero(g@.stations, start, costs@);
        assert(near@.len() == nearest_view(near@).len());
    }
    Ok(near)
}

/// Every station of the map, in node order.
pub fn get_stations(graph: Option<&MetroGraph>) -> (r: Result<Vec<Station>, String>)
    ensures
        graph is None ==> (r matches Err(e) && e@ == map_error_message()),
        graph matches Some(g) ==> (r matches Ok(v) && stations_view(v@) == g@.stations),
{
    match graph {
        Some(g) => Ok(clone_stations(&g.stations)),
        None => Err(String::from_str("Ошибка загрузки данных из файла map.json")),
    }
}


/// A link of the map data: two node ids and the travel time in seconds.
pub struct Link {
    pub from: String,
    pub to: String,
    pub time: u64,
}

pub struct LinkView {
    pub from: Seq<char>,
    pub to: Seq<char>,
    pub time: u64,
}

impl View for Link {
    type V = LinkView;

    open spec fn view(&self) -> LinkView {
        LinkView { from: self.from@, to: self.to@, time: self.time }
    }
}

pub open spec fn links_view(v: Seq<Link>) -> Seq<LinkView> {
    v.map_values(|l: Link| l@)
}

/// The station of each node id among the stops; a later stop of the same
/// node replaces an earlier one.
pub open spec fn stop_dict(stops: Seq<StationView>) -> Map<Seq<char>, StationView>
    decreases stops.len(),
{
    if stops.len() == 0 {
        Map::empty()
    } else {
        stop_dict(stops.drop_last()).insert(stops.last().node_id, stops.last())
    }
}

/// The stations of the listed nodes that have a stop, in list order.
pub open spec fn kept_stations(dict: Map<Seq<char>, StationView>, ids: Seq<Seq<char>>) -> Seq<StationView>
    decreases ids.len(),
{
    if ids.len() == 0 {
        Seq::empty()
    } else if dict.contains_key(ids.last()) {
        kept_stations(dict, ids.drop_last()).push(dict[ids.last()])
    } else {
        kept_stations(dict, ids.drop_last())
    }
}

/// The node of each listed node id that has a stop; a node id listed twice
/// ends up with its later node.
pub open spec fn kept_indexes(dict: Map<Seq<char>, StationView>, ids: Seq<Seq<char>>) -> Map<Seq<char>, u32>
    decreases ids.len(),
{
    if ids.len() == 0 {
        Map::empty()
    } else if dict.contains_key(ids.last()) {
        kept_indexes(dict, ids.drop_last()).insert(ids.last(), kept_stations(dict, ids.drop_last()).len() as u32)
    } else {
        kept_indexes(dict, ids.drop_last())
    }
}

/// The edges of the links whose both ends are nodes, in list order.
pub open spec fn link_edges(indexes: Map<Seq<char>, u32>, links: Seq<LinkView>) -> Seq<(u32, u32, u64)>
    decreases links.len(),
{
    if links.len() == 0 {
        Seq::empty()
    } else {
        let l = links.last();
        let prev = link_edges(indexes, links.drop_last());
        if indexes.contains_key(l.from) && indexes.contains_key(l.to) {
            prev.push((indexes[l.from], indexes[l.to], l.time))
        } else {
            prev
        }
    }
}


/// Every stop of the dictionary is filed under its own node id.
pub proof fn lemma_stop_dict_keys(stops: Seq<StationView>)
    ensures
        forall|k: Seq<char>| #[trigger] stop_dict(stops).contains_key(k) ==> stop_dict(stops)[k].node_id == k,
    decreases stops.len(),
{
    if stops.len() > 0 {
        let prev = stops.drop_last();
        lemma_stop_dict_keys(prev);
        assert forall|k: Seq<char>| #[trigger] stop_dict(stops).contains_key(k) implies stop_dict(stops)[k].node_id == k by {
            if k != stops.last().node_id {
                assert(stop_dict(prev).contains_key(k));
            }
        }
    } else {
        assert(stop_dict(stops) =~= Map::empty());
    }
}

/// No more stations are kept than node ids are listed.
pub proof fn lemma_kept_len(dict: Map<Seq<char>, StationView>, ids: Seq<Seq<char>>)
    ensures
        kept_stations(dict, ids).len() <= ids.len(),
    decreases ids.len(),
{
    if ids.len() > 0 {
        lemma_kept_len(dict, ids.drop_last());
    }
}

/// Builds the metro map from the stops of the map data, the node ids in
/// order, and the links: a node is made for each listed node id that has a
/// stop, and an edge for each link between two such nodes.
pub fn build_metro_graph(stops: &Vec<Station>, node_ids: &Vec<String>, links: &Vec<Link>) -> (g: MetroGraph)
    requires
        node_ids@.len() < u32::MAX,
        links@.len() < u32::MAX,
    ensures
        g.wf(),
        ({
            let dict = stop_dict(stations_view(stops@));
            let ids = crate::registry::strings_view(node_ids@);
            &&& g@.stations == kept_stations(dict, ids)
            &&& g@.indexes == kept_indexes(dict, ids)
            &&& g@.edges == link_edges(kept_indexes(dict, ids), links_view(links@))
        }),
{
    let ghost sv = stations_view(stops@);
    let mut dict: StringMap<Station> = StringMap::new();
    let mut i: usize = 0;
    while i < stops.len()
        invariant
            i <= stops@.len(),
            sv == stations_view(stops@),
            dict.wf(),
            dict@ == stop_dict(sv.take(i as int)),
        decreases stops@.len() - i,
    {
        let st = stops[i].clone();
        let key = st.node_id.clone();
        dict.insert(key, st);
        assert(sv.take(i + 1).drop_last() =~= sv.take(i as int));
        i = i + 1;
    }
    assert(sv.take(sv.len() as int) =~= sv);
    let ghost dv = dict@;
    proof { lemma_stop_dict_keys(sv); }
    let ghost ids = crate::registry::strings_view(node_ids@);
    let mut graph = graph_new();
    let mut stations: Vec<Station> = Vec::new();
    let mut indexes: StringMap<u32> = StringMap::new();
    let mut j: usize = 0;
    while j < node_ids.len()
        invariant
            j <= node_ids@.len(),
            node_ids@.len() < u32::MAX,
            ids == crate::registry::strings_view(node_ids@),
            dict.wf(),
            dict@ == dv,
            forall|k: Seq<char>| #[trigger] dv.contains_key(k) ==> dv[k].node_id == k,
            indexes.wf(),
            graph_node_count(graph) == stations@.len(),
            graph_edges(graph) == Seq::<(u32, u32, u64)>::empty(),
            stations_view(stations@) == kept_stations(dv, ids.take(j as int)),
            indexes@ == kept_indexes(dv, ids.take(j as int)),
            forall|k: Seq<char>| #[trigger] indexes@.contains_key(k) ==> indexes@[k] < stations@.len(),
        decreases node_ids@.len() - j,
    {
        proof { lemma_kept_len(dv, ids.take(j as int)); }
        assert(ids.take(j + 1).drop_last() =~= ids.take(j as int));
        assert(ids.take(j + 1).last() == node_ids@[j as int]@);
        match dict.get(node_ids[j].as_str()) {
            Some(st) => {
                let idx = graph_add_node(&mut graph);
                let ghost old_st = stations@;
                stations.push(st.clone());
                assert(stations_view(stations@) =~= stations_view(old_st).push(st@));
                indexes.insert(st.node_id.clone(), idx);
            },
            None => {},
        }
        j = j + 1;
    }
    assert(ids.take(ids.len() as int) =~= ids);
    proof { lemma_kept_len(dv, ids); }
    let ghost iv = indexes@;
    let ghost lv = links_view(links@);
    let mut l: usize = 0;
    while l < links.len()
        invariant
            l <= links@.len(),
            links@.len() < u32::MAX,
            lv == links_view(links@),
            iv == kept_indexes(stop_dict(stations_view(stops@)), crate::registry::strings_view(node_ids@)),
            indexes.wf(),
            indexes@ == iv,
            forall|k: Seq<char>| #[trigger] iv.contains_key(k) ==> iv[k] < stations@.len(),
            graph_node_count(graph) == stations@.len(),
            graph_edges(graph) == link_edges(iv, lv.take(l as int)),
            graph_edges(graph).len() <= l,
            stations@.len() < u32::MAX,
            forall|i: int| 0 <= i < graph_edges(graph).len()
                ==> #[trigger] graph_edges(graph)[i].0 < stations@.len() && graph_edges(graph)[i].1 < stations@.len(),
        decreases links@.len() - l,
    {
        assert(lv.take(l + 1).drop_last() =~= lv.take(l as int));
        assert(lv.take(l + 1).last() == links@[l as int]@);
        let a = indexes.get(links[l].from.as_str());
        let b = indexes.get(links[l].to.as_str());
        if a.is_some() && b.is_some() {
            let ai = *a.unwrap();
            let bi = *b.unwrap();
            let ghost before = graph_edges(graph);
            graph_add_edge(&mut graph, ai, bi, links[l].time);
            assert(graph_edges(graph).drop_last() =~= before);
            assert forall|i: int| 0 <= i < graph_edges(graph).len()
                implies #[trigger] graph_edges(graph)[i].0 < stations@.len() && graph_edges(graph)[i].1 < stations@.len() by {
                if i < before.len() {
                    assert(graph_edges(graph)[i] == before[i]);
                }
            }
        }
        l = l + 1;
    }
    assert(lv.take(lv.len() as int) =~= lv);
    MetroGraph { graph, stations, indexes }
}

/// A stop of the map data: the node it stands on and its station.
pub struct StopRecord {
    pub node_id: String,
    pub station_id: String,
}

pub struct StopRecordView {
    pub node_id: Seq<char>,
    pub station_id: Seq<char>,
}

impl View for StopRecord {
    type V = StopRecordView;

    open spec fn view(&self) -> StopRecordView {
        StopRecordView { node_id: self.node_id@, station_id: self.station_id@ }
    }
}

/// The station labels of the names data, each as its key and its Russian text.
pub open spec fn labels_view(v: Seq<(String, String)>) -> Seq<(Seq<char>, Seq<char>)> {
    v.map_values(|p: (String, String)| (p.0@, p.1@))
}

/// The text of the label under `key`, or the empty text when there is none;
/// a later label of the same key replaces an earlier one.
pub open spec fn label_of(labels: Seq<(Seq<char>, Seq<char>)>, key: Seq<char>) -> Seq<char>
    decreases labels.len(),
{
    if labels.len() == 0 {
        Seq::empty()
    } else if labels.last().0 == key {
        labels.last().1
    } else {
        label_of(labels.drop_last(), key)
    }
}

/// The key under which the name of station `station_id` is labelled.
pub open spec fn name_key(station_id: Seq<char>) -> Seq<char> {
    station_id + "-name"@
}

/// The station of a stop, named by its label.
pub open spec fn named_stop(s: StopRecordView, labels: Seq<(Seq<char>, Seq<char>)>) -> StationView {
    StationView { node_id: s.node_id, station_id: s.station_id, station_name: label_of(labels, name_key(s.station_id)) }
}

/// The text of the label under `key`, or an empty text.
fn find_label(labels: &Vec<(String, String)>, key: &str) -> (r: String)
    ensures
        r@ == label_of(labels_view(labels@), key@),
{
    let ghost lv = labels_view(labels@);
    let mut found = String::new();
    let mut i: usize = 0;
    while i < labels.len()
        invariant
            i <= labels@.len(),
            lv == labels_view(labels@),
            found@ == label_of(lv.take(i as int), key@),
        decreases labels@.len() - i,
    {
        assert(lv.take(i + 1).drop_last() =~= lv.take(i as int));
        assert(lv.take(i + 1).last() == (labels@[i as int].0@, labels@[i as int].1@));
        if str_eq(labels[i].0.as_str(), key) {
            found = labels[i].1.clone();
        }
        i = i + 1;
    }
    assert(lv.take(lv.len() as int) =~= lv);
    found
}

/// The station of each stop, in stop order, named by the label
/// `<station id>-name`, or with an empty name where no label has that key.
pub fn stations_of_stops(stops: &Vec<StopRecord>, labels: &Vec<(String, String)>) -> (r: Vec<Station>)
    ensures
        r@.len() == stops@.len(),
        forall|i: int| 0 <= i < r@.len() ==> #[trigger] r@[i]@ == named_stop(stops@[i]@, labels_view(labels@)),
{
    let mut r: Vec<Station> = Vec::new();
    let mut i: usize = 0;
    while i < stops.len()
        invariant
            i <= stops@.len(),
            r@.len() == i,
            forall|j: int| 0 <= j < i ==> #[trigger] r@[j]@ == named_stop(stops@[j]@, labels_view(labels@)),
        decreases stops@.len() - i,
    {
        let mut key = stops[i].station_id.clone();
        key.append("-name");
        let name = find_label(labels, key.as_str());
        r.push(Station { node_id: stops[i].node_id.clone(), station_id: stops[i].station_id.clone(), station_name: name });
        i = i + 1;
    }
    r
}

/// Builds the metro map from the map data and the station names: each stop
/// is named by its label, then the map is built as `build_metro_graph` does.
pub fn generate_new_schema(
    stops: &Vec<StopRecord>,
    labels: &Vec<(String, String)>,
    node_ids: &Vec<String>,
    links: &Vec<Link>,
) -> (g: MetroGraph)
    requires
        node_ids@.len() < u32::MAX,
        links@.len() < u32::MAX,
    ensures
        g.wf(),
        ({
            let named = stops@.map_values(|s: StopRecord| named_stop(s@, labels_view(labels@)));
            let dict = stop_dict(named);
            let ids = crate::registry::strings_view(node_ids@);
            &&& g@.stations == kept_stations(dict, ids)
            &&& g@.indexes == kept_indexes(dict, ids)
            &&& g@.edges == link_edges(kept_indexes(dict, ids), links_view(links@))
        }),
{
    let named = stations_of_stops(stops, labels);
    assert(stations_view(named@) =~= stops@.map_values(|s: StopRecord| named_stop(s@, labels_view(labels@))));
    build_metro_graph(&named, node_ids, links)
}

/// The map given by a list of key/value pairs; a later pair of the same key
/// replaces an earlier one.
pub open spec fn pairs_map(pairs: Seq<(Seq<char>, u32)>) -> Map<Seq<char>, u32>
    decreases pairs.len(),
{
    if pairs.len() == 0 {
        Map::empty()
    } else {
        pairs_map(pairs.drop_last()).insert(pairs.last().0, pairs.last().1)
    }
}

pub open spec fn index_pairs_view(v: Seq<(String, u32)>) -> Seq<(Seq<char>, u32)> {
    v.map_values(|p: (String, u32)| (p.0@, p.1))
}

/// Whether stored map parts make a usable map: node and edge counts below
/// `u32::MAX`, and edges and indexes within the nodes.
pub open spec fn parts_usable(n: nat, edges: Seq<(u32, u32, u64)>, indexes: Seq<(Seq<char>, u32)>) -> bool {
    &&& n < u32::MAX
    &&& edges.len() < u32::MAX
    &&& forall|i: int| 0 <= i < edges.len() ==> #[trigger] edges[i].0 < n && edges[i].1 < n
    &&& forall|i: int| 0 <= i < indexes.len() ==> #[trigger] indexes[i].1 < n
}

impl MetroGraph {
    /// A map from stored parts: the station of each node in node order, the
    /// edges in insertion order, and the node of each node id; `None` when
    /// the parts are not usable.
    pub fn from_parts(stations: Vec<Station>, edges: &Vec<(u32, u32, u64)>, indexes: &Vec<(String, u32)>) -> (r: Option<MetroGraph>)
        ensures
            r is Some <==> parts_usable(stations@.len(), edges@, index_pairs_view(indexes@)),
            r matches Some(g) ==> g.wf() && g@.stations == stations_view(stations@) && g@.edges == edges@
                && g@.indexes == pairs_map(index_pairs_view(indexes@)),
    {
        let n = stations.len();
        let ghost iv = index_pairs_view(indexes@);
        if n >= u32::MAX as usize || edges.len() >= u32::MAX as usize {
            return None;
        }
        let mut e: usize = 0;
        while e < edges.len()
            invariant
                e <= edges@.len(),
                n == stations@.len(),
                forall|i: int| 0 <= i < e ==> #[trigger] edges@[i].0 < n && edges@[i].1 < n,
            decreases edges@.len() - e,
        {
            let (a, b, w) = edges[e];
            assert(edges@.take(e + 1).drop_last() =~= edges@.take(e as int));
            if a as usize >= n || b as usize >= n {
                return None;
            }
            e = e + 1;
        }
        assert(edges@.take(edges@.len() as int) =~= edges@);
        let mut k: usize = 0;
        let mut map: StringMap<u32> = StringMap::new();
        while k < indexes.len()
            invariant
                k <= indexes@.len(),
                iv == index_pairs_view(indexes@),
                n == stations@.len(),
                map.wf(),
                map@ == pairs_map(iv.take(k as int)),
                forall|i: int| 0 <= i < k ==> #[trigger] iv[i].1 < n,
                forall|q: Seq<char>| #[trigger] map@.contains_key(q) ==> map@[q] < n,
            decreases indexes@.len() - k,
        {
            let (ref name, idx) = indexes[k];
            assert(iv.take(k + 1).drop_last() =~= iv.take(k as int));
            assert(iv[k as int].1 == idx);
            if idx as usize >= n {
                return None;
            }
            map.insert(name.clone(), idx);
            k = k + 1;
        }
        assert(iv.take(iv.len() as int) =~= iv);
        let mut graph = graph_new();
        let mut v: usize = 0;
        while v < n
            invariant
                v <= n,
                n < u32::MAX,
                graph_node_count(graph) == v,
                graph_edges(graph) == Seq::<(u32, u32, u64)>::empty(),
            decreases n - v,
        {
            graph_add_node(&mut graph);
            v = v + 1;
        }
        let mut q: usize = 0;
        while q < edges.len()
            invariant
                q <= edges@.len(),
                edges@.len() < u32::MAX,
                graph_node_count(graph) == n,
                graph_edges(graph) == edges@.take(q as int),
                forall|i: int| 0 <= i < edges@.len() ==> #[trigger] edges@[i].0 < n && edges@[i].1 < n,
            decreases edges@.len() - q,
        {
            let (a, b, w) = edges[q];
            graph_add_edge(&mut graph, a, b, w);
            assert(edges@.take(q + 1) =~= edges@.take(q as int).push(edges@[q as int]));
            q = q + 1;
        }
        assert(edges@.take(edges@.len() as int) =~= edges@);
        Some(MetroGraph { graph, stations, indexes: map })
    }
}

proof fn lemma_pairs_map_of(pv: Seq<(Seq<char>, u32)>, m: Map<Seq<char>, u32>)
    requires
        forall|j: int| 0 <= j < pv.len() ==> m.contains_key(#[trigger] pv[j].0) && m[pv[j].0] == pv[j].1,
    ensures
        forall|k: Seq<char>| #[trigger] pairs_map(pv).contains_key(k) <==> exists|j: int| 0 <= j < pv.len() && pv[j].0 == k,
        forall|k: Seq<char>| #[trigger] pairs_map(pv).contains_key(k) ==> pairs_map(pv)[k] == m[k],
    decreases pv.len(),
{
    if pv.len() > 0 {
        let prev = pv.drop_last();
        let last = pv[pv.len() - 1];
        assert forall|j: int| 0 <= j < prev.len() implies m.contains_key(#[trigger] prev[j].0) && m[prev[j].0] == prev[j].1 by {
            assert(prev[j] == pv[j]);
        }
        lemma_pairs_map_of(prev, m);
        assert(pairs_map(pv) == pairs_map(prev).insert(last.0, last.1));
        assert(m.contains_key(pv[pv.len() - 1].0) && m[pv[pv.len() - 1].0] == pv[pv.len() - 1].1);
        assert forall|k: Seq<char>| #[trigger] pairs_map(pv).contains_key(k) implies exists|j: int| 0 <= j < pv.len() && pv[j].0 == k by {
            if k == last.0 {
                assert(pv[pv.len() - 1].0 == k);
            } else {
                assert(pairs_map(prev).contains_key(k));
                let j = choose|j: int| 0 <= j < prev.len() && prev[j].0 == k;
                assert(pv[j] == prev[j]);
            }
        }
        assert forall|k: Seq<char>| (exists|j: int| 0 <= j < pv.len() && pv[j].0 == k) implies #[trigger] pairs_map(pv).contains_key(k) by {
            let j = choose|j: int| 0 <= j < pv.len() && pv[j].0 == k;
            if j < prev.len() {
                assert(prev[j] == pv[j]);
                assert(pairs_map(prev).contains_key(k));
            }
        }
        assert forall|k: Seq<char>| #[trigger] pairs_map(pv).contains_key(k) implies pairs_map(pv)[k] == m[k] by {
            if k != last.0 {
                assert(pairs_map(prev).contains_key(k));
            }
        }
    } else {
        assert(pairs_map(pv) =~= Map::empty());
    }
}

impl MetroGraph {
    /// The parts the map is stored as: the station of each node in node
    /// order, the edges in insertion order, and the node of each node id.
    pub fn to_parts(&self) -> (r: (Vec<Station>, Vec<(u32, u32, u64)>, Vec<(String, u32)>))
        requires
            self.wf(),
        ensures
            stations_view(r.0@) == self@.stations,
            r.1@ == self@.edges,
            pairs_map(index_pairs_view(r.2@)) == self@.indexes,
            parts_usable(r.0@.len(), r.1@, index_pairs_view(r.2@)),
    {
        let stations = clone_stations(&self.stations);
        let edges = graph_edge_list(&self.graph);
        proof { self.indexes.lemma_keys(); }
        let n = self.indexes.len();
        let mut pairs: Vec<(String, u32)> = Vec::new();
        let mut i: usize = 0;
        while i < n
            invariant
                self.wf(),
                n == self.indexes.keys().len(),
                n == self.indexes.entries().len(),
                i <= n,
                pairs@.len() == i,
                forall|j: int| 0 <= j < i ==> (#[trigger] index_pairs_view(pairs@)[j]).0 == self.indexes.keys()[j]
                    && index_pairs_view(pairs@)[j].1 == self.indexes@[self.indexes.keys()[j]],
            decreases n - i,
        {
            let key = self.indexes.key_at(i);
            let value = *self.indexes.value_at(i);
            let ghost before = pairs@;
            pairs.push((key, value));
            assert forall|j: int| 0 <= j < i + 1 implies (#[trigger] index_pairs_view(pairs@)[j]).0 == self.indexes.keys()[j]
                && index_pairs_view(pairs@)[j].1 == self.indexes@[self.indexes.keys()[j]] by {
                if j < i {
                    assert(pairs@[j] == before[j]);
                    assert(index_pairs_view(pairs@)[j] == index_pairs_view(before)[j]);
                } else {
                    assert(pairs@[j] == (key, value));
                }
            }
            i = i + 1;
        }
        let ghost pv = index_pairs_view(pairs@);
        let ghost m = self.indexes@;
        proof {
            self.indexes.lemma_keys();
            assert forall|j: int| 0 <= j < pv.len() implies m.contains_key(#[trigger] pv[j].0) && m[pv[j].0] == pv[j].1 by {
                assert(self.indexes.keys().to_set().contains(self.indexes.keys()[j]));
            }
            lemma_pairs_map_of(pv, m);
            assert forall|k: Seq<char>| m.contains_key(k) implies #[trigger] pairs_map(pv).contains_key(k) by {
                assert(self.indexes.keys().to_set().contains(k));
                let j = choose|j: int| 0 <= j < self.indexes.keys().len() && self.indexes.keys()[j] == k;
                assert(pv[j].0 == k);
            }
            assert(pairs_map(pv) =~= m);
            assert(stations@.len() == stations_view(stations@).len());
            assert forall|j: int| 0 <= j < pv.len() implies #[trigger] pv[j].1 < self.stations@.len() by {
                assert(m.contains_key(pv[j].0) && m[pv[j].0] == pv[j].1);
                assert(self.indexes@.contains_key(pv[j].0));
            }
        }
        (stations, edges, pairs)
    }
}

/// A station of the published stations list: its name, id and line.
pub struct SubwayStation {
    pub name: String,
    pub id: String,
    pub line: String,
}

impl Station {
    /// `node_id: <node> station_id: <station> name: <name>`.
    pub fn to_display(&self) -> (r: String)
        ensures
            r@ == "node_id: "@ + self.node_id@ + " "@ + "station_id: "@ + self.station_id@ + " "@ + "name: "@ + self.station_name@,
    {
        let mut r = String::from_str("node_id: ");
        r.append(self.node_id.as_str());
        r.append(" ");
        r.append("station_id: ");
        r.append(self.station_id.as_str());
        r.append(" ");
        r.append("name: ");
        r.append(self.station_name.as_str());
        r
    }
}

impl SubwayStation {
    /// `id: <id> line: <line> name: <name>`.
    pub fn to_display(&self) -> (r: String)
        ensures
            r@ == "id: "@ + self.id@ + " "@ + "line: "@ + self.line@ + " "@ + "name: "@ + self.name@,
    {
        let mut r = String::from_str("id: ");
        r.append(self.id.as_str());
        r.append(" ");
        r.append("line: ");
        r.append(self.line.as_str());
        r.append(" ");
        r.append("name: ");
        r.append(self.name.as_str());
        r
    }
}

pub open spec fn station_names(v: Seq<Station>) -> Seq<Seq<char>> {
    v.map_values(|s: Station| s.station_name@)
}

impl MetroPath {
    /// ``<name>-><name>...` примерно <time> минут`.
    pub fn to_display(&self) -> (r: String)
        ensures
            r@ == "`"@ + join(station_names(self.stations@), "->"@) + "` примерно "@ + decimal(self.time as nat) + " минут"@,
    {
        let mut joined = String::new();
        let mut i: usize = 0;
        while i < self.stations.len()
            invariant
                i <= self.stations@.len(),
                joined@ == join(station_names(self.stations@).take(i as int), "->"@),
            decreases self.stations@.len() - i,
        {
            let ghost names = station_names(self.stations@);
            assert(names.take(i + 1).drop_last() =~= names.take(i as int));
            if i > 0 {
                joined.append("->");
            } else {
                assert(names.take(0) =~= Seq::<Seq<char>>::empty());
            }
            joined.append(self.stations[i].station_name.as_str());
            i = i + 1;
        }
        assert(station_names(self.stations@).take(self.stations@.len() as int) =~= station_names(self.stations@));
        let mut r = String::from_str("`");
        r.append(joined.as_str());
        r.append("` примерно ");
        r.append(to_decimal(self.time as u64).as_str());
        r.append(" минут");
        r
    }
}

impl Nearest {
    /// `<name>-><time>`.
    pub fn to_display(&self) -> (r: String)
        ensures
            r@ == self.station.station_name@ + "->"@ + decimal(self.time as nat),
    {
        let mut r = self.station.station_name.clone();
        r.append("->");
        r.append(to_decimal(self.time as u64).as_str());
        r
    }
}


} // verus!
