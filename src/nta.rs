//! Network topology analysis: a random walk with restart from a set of seeds over
//! an undirected graph, which either ranks the seeds themselves (prioritization) or
//! finds the nodes most visited beyond them (expansion). The nodes found are the
//! candidates; the neighborhood is the seeds in the graph, then the candidates.
use vstd::prelude::*;

use crate::analytes::{collect_set, members, set_contains, views};
use crate::ora::list_set;
use webgestalt_lib::methods::nta::NTAResult;

verus! {

#[verifier::external_type_specification]
pub struct ExNtaResult(webgestalt_lib::methods::nta::NTAResult);

/// The methods of network topology analysis.
#[derive(Debug, Clone, Copy, PartialEq, Eq, Structural)]
pub enum NTAMethod {
    /// Finds the seeds that a random walk from the seeds is most likely to visit.
    Prioritization,
    /// Finds the nodes beyond the seeds that a random walk from the seeds is most
    /// likely to visit.
    Expansion,
}

/// A method together with the number of nodes that it asks for.
#[derive(Debug, Clone, Copy, PartialEq, Eq, Structural)]
pub enum NtaSelection {
    /// The given number of most visited seeds.
    Prioritize(usize),
    /// The given number of most visited nodes beyond the seeds.
    Expand(usize),
}

/// Why a network topology analysis cannot be run.
#[derive(Debug, Clone, Copy, PartialEq, Eq, Structural)]
pub enum NtaError {
    /// The list of seeds is empty.
    EmptySeeds,
    /// The edge at this index does not name exactly two nodes.
    MalformedEdge { edge: usize },
}

/// `method`, asking for `n` nodes.
pub open spec fn selection_of(method: NTAMethod, n: usize) -> NtaSelection {
    match method {
        NTAMethod::Prioritization => NtaSelection::Prioritize(n),
        NTAMethod::Expansion => NtaSelection::Expand(n),
    }
}

/// `method`, asking for `n` nodes.
pub fn select_method(method: &NTAMethod, n: usize) -> (r: NtaSelection)
    ensures
        r == selection_of(*method, n),
{
    match method {
        NTAMethod::Prioritization => NtaSelection::Prioritize(n),
        NTAMethod::Expansion => NtaSelection::Expand(n),
    }
}

/// Every edge names exactly two nodes.
pub open spec fn edges_well_formed(edges: Seq<Vec<String>>) -> bool {
    forall|e: int| 0 <= e < edges.len() ==> (#[trigger] edges[e]).len() == 2
}

/// The nodes of a graph: every identifier named by an edge.
pub open spec fn edge_nodes(edges: Seq<Vec<String>>) -> Set<Seq<char>>
    decreases edges.len(),
{
    if edges.len() == 0 {
        Set::empty()
    } else {
        edge_nodes(edges.drop_last()).union(views(edges.last()@).to_set())
    }
}

/// The seeds of `list` that are nodes of the graph, each once, in the order of
/// their first occurrence.
pub open spec fn graph_seeds(list: Seq<Seq<char>>, nodes: Set<Seq<char>>) -> Seq<Seq<char>>
    decreases list.len(),
{
    if list.len() == 0 {
        Seq::empty()
    } else {
        let prev = graph_seeds(list.drop_last(), nodes);
        let x = list.last();
        if nodes.contains(x) && !prev.contains(x) {
            prev.push(x)
        } else {
            prev
        }
    }
}

/// The nodes among which a method chooses: the seeds in the graph for a
/// prioritization, the other nodes of the graph for an expansion.
pub open spec fn eligible(nodes: Set<Seq<char>>, seeds: Set<Seq<char>>, method: NtaSelection) -> Set<
    Seq<char>,
> {
    match method {
        NtaSelection::Prioritize(_) => nodes.intersect(seeds),
        NtaSelection::Expand(_) => nodes.difference(seeds),
    }
}

/// The number of nodes that a method asks for.
pub open spec fn asked(method: NtaSelection) -> int {
    match method {
        NtaSelection::Prioritize(size) => size as int,
        NtaSelection::Expand(size) => size as int,
    }
}

/// `found` are distinct eligible nodes, as many as asked for or as there are.
pub open spec fn well_chosen(
    edges: Seq<Vec<String>>,
    seeds: Set<Seq<char>>,
    method: NtaSelection,
    found: Seq<Seq<char>>,
) -> bool {
    let pool = eligible(edge_nodes(edges), seeds, method);
    &&& found.no_duplicates()
    &&& found.len() == vstd::math::min(asked(method), pool.len() as int)
    &&& forall|i: int| 0 <= i < found.len() ==> pool.contains(#[trigger] found[i])
}

/// `r` is a report of the analysis of the graph `edges` from the seeds of `list`
/// by `method`: its candidates are distinct eligible nodes, as many as asked for or
/// as there are, one score each; its neighborhood is the seeds in the graph, in
/// the order of the list, followed for an expansion by the candidates.
pub open spec fn nta_report(
    edges: Seq<Vec<String>>,
    list: Seq<String>,
    method: NtaSelection,
    r: NTAResult,
) -> bool {
    let c = views(r.candidates@);
    let kept = graph_seeds(views(list), edge_nodes(edges));
    &&& well_chosen(edges, list_set(list), method, c)
    &&& r.scores@.len() == c.len()
    &&& views(r.neighborhood@) == match method {
        NtaSelection::Prioritize(_) => kept,
        NtaSelection::Expand(_) => kept + c,
    }
}

/// Relies on `webgestalt_lib`'s `get_nta`, with its default reset probability and
/// tolerance: it ranks every node of the graph by its walk probability, keeps the
/// seeds (prioritization) or the other nodes (expansion), and returns in
/// `neighborhood` the first ones asked for, each once, with their scores. It
/// indexes the two ends of each edge, and an identifier that ends no edge would
/// give the walk a column of zero degree, whose NaN scores make its sort panic:
/// `requires` asks for edges of exactly two nodes.
#[verifier::external_body]
fn run_nta(
    edge_list: Vec<Vec<String>>,
    seeds: Vec<String>,
    method: NtaSelection,
) -> (r: NTAResult)
    requires
        edges_well_formed(edge_list@),
    ensures
        well_chosen(edge_list@, list_set(seeds@), method, views(r.neighborhood@)),
        r.scores@.len() == r.neighborhood@.len(),
{
    let method = match method {
        NtaSelection::Prioritize(n) => webgestalt_lib::methods::nta::NTAMethod::Prioritize(n),
        NtaSelection::Expand(n) => webgestalt_lib::methods::nta::NTAMethod::Expand(n),
    };
    webgestalt_lib::methods::nta::get_nta(
        webgestalt_lib::methods::nta::NTAConfig {
            edge_list,
            seeds,
            method: Some(method),
            ..Default::default()
        },
    )
}

/// The index of the first edge that does not name exactly two nodes, if any.
pub fn first_malformed_edge(edges: &Vec<Vec<String>>) -> (r: Option<usize>)
    ensures
        match r {
            None => edges_well_formed(edges@),
            Some(e) => e < edges.len() && edges[e as int].len() != 2 && forall|t: int|
                0 <= t < e ==> (#[trigger] edges[t]).len() == 2,
        },
{
    let mut e: usize = 0;
    while e < edges.len()
        invariant
            e <= edges.len(),
            forall|t: int| 0 <= t < e ==> (#[trigger] edges[t]).len() == 2,
        decreases edges.len() - e,
    {
        if edges[e].len() != 2 {
            return Some(e);
        }
        e = e + 1;
    }
    None
}

/// The nodes of a graph whose edges each name two nodes.
fn graph_nodes(edges: &Vec<Vec<String>>) -> (r: ahash::AHashSet<String>)
    requires
        edges_well_formed(edges@),
    ensures
        members(r) == edge_nodes(edges@),
{
    let mut flat: Vec<String> = Vec::new();
    let mut i: usize = 0;
    while i < edges.len()
        invariant
            i <= edges.len(),
            edges_well_formed(edges@),
            views(flat@).to_set() == edge_nodes(edges@.take(i as int)),
        decreases edges.len() - i,
    {
        let a = edges[i][0].clone();
        let b = edges[i][1].clone();
        let ghost before = views(flat@);
        flat.push(a);
        flat.push(b);
        proof {
            assert(edges@.take(i as int + 1).drop_last() =~= edges@.take(i as int));
            assert(edges@.take(i as int + 1).last() == edges@[i as int]);
            let e = views(edges@[i as int]@);
            assert(e =~= seq![a@, b@]);
            assert(views(flat@) =~= before.push(a@).push(b@));
            before.lemma_push_to_set_commute(a@);
            before.push(a@).lemma_push_to_set_commute(b@);
            assert(e.to_set() =~= Set::empty().insert(a@).insert(b@)) by {
                assert(e[0] == a@);
                assert(e[1] == b@);
            }
            assert(views(flat@).to_set() =~= edge_nodes(edges@.take(i as int + 1)));
        }
        i = i + 1;
    }
    assert(edges@.take(edges.len() as int) =~= edges@);
    collect_set(flat)
}

/// Whether the identifier `a` occurs in `v`.
fn list_contains(v: &Vec<String>, a: &String) -> (b: bool)
    ensures
        b == views(v@).contains(a@),
{
    let mut i: usize = 0;
    while i < v.len()
        invariant
            i <= v.len(),
            forall|t: int| 0 <= t < i ==> views(v@)[t] != a@,
        decreases v.len() - i,
    {
        if v[i] == *a {
            assert(views(v@)[i as int] == a@);
            return true;
        }
        i = i + 1;
    }
    false
}

/// The seeds of `list` that are nodes of the graph, each once, in list order.
fn seeds_in_graph(list: &Vec<String>, nodes: &ahash::AHashSet<String>) -> (r: Vec<String>)
    ensures
        views(r@) == graph_seeds(views(list@), members(*nodes)),
{
    let mut r: Vec<String> = Vec::new();
    let mut i: usize = 0;
    while i < list.len()
        invariant
            i <= list.len(),
            views(r@) == graph_seeds(views(list@).take(i as int), members(*nodes)),
        decreases list.len() - i,
    {
        proof {
            assert(views(list@).take(i as int + 1).drop_last() =~= views(list@).take(i as int));
            assert(views(list@).take(i as int + 1).last() == list@[i as int]@);
        }
        if set_contains(nodes, &list[i]) && !list_contains(&r, &list[i]) {
            let a = list[i].clone();
            let ghost before = views(r@);
            r.push(a);
            assert(views(r@) =~= before.push(a@));
        }
        i = i + 1;
    }
    assert(views(list@).take(list.len() as int) =~= views(list@));
    r
}

/// Network topology analysis of the graph `edge_list` from the seeds of
/// `analyte_list`, by `nta_method`, asking for `n` nodes. Repeated seeds count
/// once; seeds that are not nodes of the graph take no part. The candidates come
/// in the order of the engine's ranking, most visited first.
pub fn nta(
    edge_list: Vec<Vec<String>>,
    analyte_list: Vec<String>,
    nta_method: &NTAMethod,
    n: usize,
) -> (r: Result<NTAResult, NtaError>)
    ensures
        match r {
            Err(NtaError::EmptySeeds) => analyte_list@.len() == 0,
            Err(NtaError::MalformedEdge { edge }) => {
                &&& analyte_list@.len() > 0
                &&& edge < edge_list.len()
                &&& edge_list[edge as int].len() != 2
                &&& forall|t: int| 0 <= t < edge ==> (#[trigger] edge_list[t]).len() == 2
            },
            Ok(res) => {
                &&& analyte_list@.len() > 0
                &&& edges_well_formed(edge_list@)
                &&& nta_report(edge_list@, analyte_list@, selection_of(*nta_method, n), res)
            },
        },
{
    if analyte_list.len() == 0 {
        return Err(NtaError::EmptySeeds);
    }
    match first_malformed_edge(&edge_list) {
        Some(edge) => Err(NtaError::MalformedEdge { edge }),
        None => {
            let nodes = graph_nodes(&edge_list);
            let mut neighborhood = seeds_in_graph(&analyte_list, &nodes);
            let ghost kept = views(neighborhood@);
            let ghost edges = edge_list@;
            let ghost list = analyte_list@;
            let method = select_method(nta_method, n);
            let seeds = crate::analytes::unique_analytes(analyte_list);
            let found = run_nta(edge_list, seeds, method);
            let candidates = found.neighborhood;
            let scores = found.scores;
            match method {
                NtaSelection::Prioritize(_) => {},
                NtaSelection::Expand(_) => {
                    let mut k: usize = 0;
                    while k < candidates.len()
                        invariant
                            k <= candidates.len(),
                            views(neighborhood@) == kept + views(candidates@).take(k as int),
                        decreases candidates.len() - k,
                    {
                        let a = candidates[k].clone();
                        let ghost before = views(neighborhood@);
                        neighborhood.push(a);
                        assert(views(neighborhood@) =~= before.push(a@));
                        assert(views(candidates@).take(k as int + 1) =~= views(candidates@).take(
                            k as int,
                        ).push(a@));
                        assert(views(neighborhood@) =~= kept + views(candidates@).take(k as int + 1));
                        k = k + 1;
                    }
                    assert(views(candidates@).take(candidates.len() as int) =~= views(candidates@));
                },
            }
            Ok(NTAResult { neighborhood, scores, candidates })
        },
    }
}

/// A prioritization chooses its candidates among the seeds, and an expansion
/// beyond them; either way the neighborhood holds the seeds found in the graph,
/// and every candidate.
pub proof fn lemma_report_respects_seeds(
    edges: Seq<Vec<String>>,
    list: Seq<String>,
    method: NtaSelection,
    r: NTAResult,
)
    requires
        nta_report(edges, list, method, r),
    ensures
        forall|i: int|
            0 <= i < r.candidates@.len() ==> (method is Prioritize <==> list_set(list).contains(
                #[trigger] views(r.candidates@)[i],
            )),
        forall|i: int|
            0 <= i < r.candidates@.len() ==> views(r.neighborhood@).contains(
                #[trigger] views(r.candidates@)[i],
            ),
{
    let c = views(r.candidates@);
    let nodes = edge_nodes(edges);
    let kept = graph_seeds(views(list), nodes);
    assert forall|i: int| 0 <= i < c.len() implies views(r.neighborhood@).contains(
        #[trigger] c[i],
    ) by {
        if method is Prioritize {
            lemma_graph_seeds_holds(views(list), nodes, c[i]);
            assert(views(r.neighborhood@) == kept);
        } else {
            assert(views(r.neighborhood@)[kept.len() + i] == c[i]);
        }
    }
}

/// An identifier that is a node and occurs in the list is among its graph seeds.
pub proof fn lemma_graph_seeds_holds(list: Seq<Seq<char>>, nodes: Set<Seq<char>>, x: Seq<char>)
    requires
        nodes.contains(x),
        list.contains(x),
    ensures
        graph_seeds(list, nodes).contains(x),
    decreases list.len(),
{
    let prev = graph_seeds(list.drop_last(), nodes);
    if list.last() == x {
        if prev.contains(x) {
        } else {
            assert(graph_seeds(list, nodes) == prev.push(x));
            assert(prev.push(x)[prev.len() as int] == x);
        }
    } else {
        let i = choose|i: int| 0 <= i < list.len() && list[i] == x;
        assert(list.drop_last()[i] == x);
        lemma_graph_seeds_holds(list.drop_last(), nodes, x);
        let j = choose|j: int| 0 <= j < prev.len() && prev[j] == x;
        if !prev.contains(list.last()) && nodes.contains(list.last()) {
            assert(prev.push(list.last())[j] == x);
        }
    }
}

} // verus!
