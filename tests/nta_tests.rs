use webgestaltpy::nta::{first_malformed_edge, nta, select_method, NtaError, NtaSelection};
use webgestaltpy::NTAMethod;

fn strings(xs: &[&str]) -> Vec<String> {
    xs.iter().map(|x| x.to_string()).collect()
}

fn ring() -> Vec<Vec<String>> {
    vec![
        strings(&["node0", "node1"]),
        strings(&["node1", "node2"]),
        strings(&["node2", "node3"]),
        strings(&["node3", "node4"]),
        strings(&["node4", "node0"]),
    ]
}

#[test]
fn nta_ring_expansion_finds_the_neighbours() {
    let res = nta(ring(), strings(&["node0"]), &NTAMethod::Expansion, 2).unwrap();
    let mut found = res.candidates.clone();
    found.sort();
    assert_eq!(found, strings(&["node1", "node4"]));
    assert_eq!(res.scores.len(), 2);
    assert!(res.scores[0] >= res.scores[1]);
    assert!((res.scores[0] - res.scores[1]).abs() < 1e-9);
    let mut expected = strings(&["node0"]);
    expected.extend(res.candidates.iter().cloned());
    assert_eq!(res.neighborhood, expected);
}

#[test]
fn nta_expansion_never_returns_a_seed() {
    let res = nta(ring(), strings(&["node0", "node2"]), &NTAMethod::Expansion, 10).unwrap();
    assert_eq!(res.candidates.len(), 3);
    assert_eq!(res.scores.len(), 3);
    for node in &res.candidates {
        assert!(node != "node0" && node != "node2");
    }
    for w in res.scores.windows(2) {
        assert!(w[0] >= w[1]);
    }
    assert_eq!(res.neighborhood.len(), 5);
    assert_eq!(res.neighborhood[..2].to_vec(), strings(&["node0", "node2"]));
}

#[test]
fn nta_prioritization_ranks_seeds() {
    let res = nta(
        ring(),
        strings(&["node2", "absent", "node0"]),
        &NTAMethod::Prioritization,
        2,
    )
    .unwrap();
    let mut found = res.candidates.clone();
    found.sort();
    assert_eq!(found, strings(&["node0", "node2"]));
    assert_eq!(res.scores.len(), 2);
    assert_eq!(res.neighborhood, strings(&["node2", "node0"]));
}

#[test]
fn nta_prioritization_of_one() {
    let res = nta(ring(), strings(&["node0"]), &NTAMethod::Prioritization, 1).unwrap();
    assert_eq!(res.candidates, strings(&["node0"]));
    assert_eq!(res.scores.len(), 1);
    assert_eq!(res.neighborhood, strings(&["node0"]));
}

#[test]
fn nta_repeated_seeds_count_once() {
    let res = nta(ring(), strings(&["node0", "node0"]), &NTAMethod::Prioritization, 3).unwrap();
    assert_eq!(res.candidates, strings(&["node0"]));
    assert_eq!(res.neighborhood, strings(&["node0"]));
}

#[test]
fn nta_empty_seeds_is_an_error() {
    let res = nta(ring(), Vec::new(), &NTAMethod::Expansion, 2);
    assert!(matches!(res, Err(NtaError::EmptySeeds)));
}

#[test]
fn nta_malformed_edge_is_an_error() {
    let edges = vec![strings(&["a", "b"]), strings(&["c"]), strings(&["d", "e", "f"])];
    let res = nta(edges, strings(&["a"]), &NTAMethod::Expansion, 2);
    assert!(matches!(res, Err(NtaError::MalformedEdge { edge: 1 })));
}

#[test]
fn first_malformed_edge_finds_the_first() {
    assert_eq!(first_malformed_edge(&ring()), None);
    let edges = vec![strings(&["a", "b"]), strings(&["d", "e", "f"]), strings(&["c"])];
    assert_eq!(first_malformed_edge(&edges), Some(1));
}

#[test]
fn select_method_keeps_the_size() {
    assert_eq!(select_method(&NTAMethod::Expansion, 4), NtaSelection::Expand(4));
    assert_eq!(
        select_method(&NTAMethod::Prioritization, 7),
        NtaSelection::Prioritize(7)
    );
}
