use rindexer_core::dependency::{
    DependencyCycleError, DependencyEdge, EventStream, EventsDependencyTree,
};
use rindexer_core::types::{Address, Contract, Event, EventRef, Hash256, Indexer};

fn event(name: &str, deps: &[(&str, &str)]) -> Event {
    Event {
        name: name.to_string(),
        topic: Hash256 { hi: 0, lo: name.len() as u128 },
        dependencies: deps
            .iter()
            .map(|(c, e)| EventRef { contract: c.to_string(), event: e.to_string() })
            .collect(),
    }
}

fn contract(name: &str, events: Vec<Event>) -> Contract {
    Contract { name: name.to_string(), addresses: vec![Address { hi: 0, lo: 1 }], events }
}

fn indexer(contracts: Vec<Contract>) -> Indexer {
    Indexer { name: "main".to_string(), contracts }
}

#[test]
fn linear_chain_yields_three_stages() {
    let ix = indexer(vec![contract(
        "Token",
        vec![
            event("A", &[]),
            event("B", &[("Token", "A")]),
            event("C", &[("Token", "B")]),
        ],
    )]);
    let tree = EventsDependencyTree::new(&ix).unwrap();
    assert_eq!(tree.topological_stages(), &vec![vec![0], vec![1], vec![2]]);
    assert_eq!(tree.stream_count(), 3);
    assert_eq!(tree.stage_of(0), Some(0));
    assert_eq!(tree.stage_of(1), Some(1));
    assert_eq!(tree.stage_of(2), Some(2));
    assert_eq!(tree.stage_of(3), None);
    assert_eq!(tree.dependencies(0), Some(&vec![]));
    assert_eq!(tree.dependencies(1), Some(&vec![0]));
    assert_eq!(tree.dependencies(2), Some(&vec![1]));
    assert_eq!(tree.dependencies(3), None);
}

#[test]
fn closing_the_chain_is_a_cycle() {
    let ix = indexer(vec![contract(
        "Token",
        vec![
            event("A", &[("Token", "C")]),
            event("B", &[("Token", "A")]),
            event("C", &[("Token", "B")]),
        ],
    )]);
    assert_eq!(EventsDependencyTree::new(&ix).err(), Some(DependencyCycleError {}));
}

#[test]
fn event_that_depends_on_itself_is_a_cycle() {
    let ix = indexer(vec![contract("Token", vec![event("A", &[("Token", "A")])])]);
    assert!(EventsDependencyTree::new(&ix).is_err());
}

#[test]
fn cycle_beside_free_streams_is_still_a_cycle() {
    let ix = indexer(vec![contract(
        "Token",
        vec![
            event("Free", &[]),
            event("X", &[("Token", "Y")]),
            event("Y", &[("Token", "X")]),
        ],
    )]);
    assert!(EventsDependencyTree::new(&ix).is_err());
}

#[test]
fn independent_events_share_the_first_stage() {
    let ix = indexer(vec![
        contract("Token", vec![event("Transfer", &[]), event("Approval", &[])]),
        contract("Pool", vec![event("Swap", &[])]),
    ]);
    let tree = EventsDependencyTree::new(&ix).unwrap();
    assert_eq!(tree.topological_stages(), &vec![vec![0, 1, 2]]);
    assert_eq!(tree.stream(0), Some(EventStream { contract: 0, event: 0 }));
    assert_eq!(tree.stream(1), Some(EventStream { contract: 0, event: 1 }));
    assert_eq!(tree.stream(2), Some(EventStream { contract: 1, event: 0 }));
    assert_eq!(tree.stream(3), None);
}

#[test]
fn diamond_puts_each_stream_in_its_earliest_stage() {
    let ix = indexer(vec![
        contract(
            "Factory",
            vec![event("Created", &[]), event("Closed", &[("Pool", "Swap"), ("Factory", "Created")])],
        ),
        contract(
            "Pool",
            vec![
                event("Mint", &[("Factory", "Created")]),
                event("Swap", &[("Pool", "Mint")]),
                event("Sync", &[("Factory", "Created")]),
            ],
        ),
    ]);
    let tree = EventsDependencyTree::new(&ix).unwrap();
    // streams: 0 Created, 1 Closed, 2 Mint, 3 Swap, 4 Sync
    assert_eq!(tree.topological_stages(), &vec![vec![0], vec![2, 4], vec![3], vec![1]]);
    assert_eq!(tree.dependencies(1), Some(&vec![0, 3]));
    assert_eq!(tree.stage_of(1), Some(3));
}

#[test]
fn reference_to_an_event_of_another_contract_needs_the_contract_name() {
    let ix = indexer(vec![
        contract("Token", vec![event("Transfer", &[])]),
        contract("Vault", vec![event("Transfer", &[("Token", "Transfer")])]),
    ]);
    let tree = EventsDependencyTree::new(&ix).unwrap();
    assert_eq!(tree.topological_stages(), &vec![vec![0], vec![1]]);
}

#[test]
fn reference_that_names_no_declared_event_adds_no_edge() {
    let ix = indexer(vec![contract(
        "Token",
        vec![event("A", &[("Token", "Missing"), ("Other", "A")]), event("B", &[])],
    )]);
    let tree = EventsDependencyTree::new(&ix).unwrap();
    assert_eq!(tree.topological_stages(), &vec![vec![0, 1]]);
    assert_eq!(tree.dependencies(0), Some(&vec![]));
}

#[test]
fn repeated_reference_counts_once() {
    let ix = indexer(vec![contract(
        "Token",
        vec![event("A", &[]), event("B", &[("Token", "A"), ("Token", "A")])],
    )]);
    let tree = EventsDependencyTree::new(&ix).unwrap();
    assert_eq!(tree.dependencies(1), Some(&vec![0]));
}

#[test]
fn indexer_without_events_has_no_stages() {
    let tree = EventsDependencyTree::new(&indexer(vec![])).unwrap();
    assert_eq!(tree.stream_count(), 0);
    assert!(tree.topological_stages().is_empty());
    let tree = EventsDependencyTree::new(&indexer(vec![contract("Empty", vec![])])).unwrap();
    assert_eq!(tree.stream_count(), 0);
}

#[test]
fn dependent_waits_for_the_checkpoint_of_its_upstream() {
    let ix = indexer(vec![contract(
        "Token",
        vec![event("A", &[]), event("B", &[("Token", "A")]), event("C", &[("Token", "A"), ("Token", "B")])],
    )]);
    let tree = EventsDependencyTree::new(&ix).unwrap();
    let none = vec![None, None, None];
    assert!(tree.may_proceed(0, &none, 500));
    assert!(!tree.may_proceed(1, &none, 500));
    let some = vec![Some(499), Some(10), None];
    assert!(!tree.may_proceed(1, &some, 500));
    let reached = vec![Some(500), Some(10), None];
    assert!(tree.may_proceed(1, &reached, 500));
    assert!(tree.may_proceed(1, &reached, 0));
    assert!(!tree.may_proceed(2, &reached, 500));
    assert!(tree.may_proceed(2, &reached, 10));
    assert!(tree.may_proceed(2, &vec![Some(900), Some(500), None], 500));
}

#[test]
fn gate_is_shut_for_unknown_streams_and_missing_checkpoints() {
    let ix = indexer(vec![contract("Token", vec![event("A", &[]), event("B", &[("Token", "A")])])]);
    let tree = EventsDependencyTree::new(&ix).unwrap();
    assert!(!tree.may_proceed(2, &vec![Some(1), Some(1)], 0));
    assert!(!tree.may_proceed(1, &vec![], 0));
    assert!(tree.may_proceed(0, &vec![], 7));
}

#[test]
fn edges_run_from_upstream_to_dependent() {
    let ix = indexer(vec![contract(
        "Token",
        vec![
            event("A", &[("Token", "C")]),
            event("B", &[]),
            event("C", &[("Token", "B")]),
            event("D", &[("Token", "B"), ("Token", "A")]),
        ],
    )]);
    let tree = EventsDependencyTree::new(&ix).unwrap();
    assert_eq!(
        tree.edges(),
        vec![
            DependencyEdge { from: 2, to: 0 },
            DependencyEdge { from: 1, to: 2 },
            DependencyEdge { from: 0, to: 3 },
            DependencyEdge { from: 1, to: 3 },
        ]
    );
    assert_eq!(tree.topological_stages(), &vec![vec![1], vec![2], vec![0], vec![3]]);
}
