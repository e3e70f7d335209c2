use sc_delegation::nodes::{NodeConfigModule, NodeRegistry};
use sc_delegation::types::{DelegationError, NodeState};

fn key(b: u8) -> Vec<u8> {
    vec![b; 96]
}

fn sig(b: u8) -> Vec<u8> {
    vec![b; 48]
}

fn registry_of(n: u8) -> NodeRegistry {
    let mut r = NodeRegistry::new();
    let pairs: Vec<(Vec<u8>, Vec<u8>)> = (1..=n).map(|i| (key(i), sig(i))).collect();
    assert_eq!(r.add_nodes(&pairs), Ok(()));
    r
}

#[test]
fn registration_assigns_next_ids() {
    let r = registry_of(3);
    assert_eq!(r.get_num_nodes(), 3);
    assert_eq!(r.get_node_id(&key(1)), 1);
    assert_eq!(r.get_node_id(&key(3)), 3);
    assert_eq!(r.get_node_id(&key(9)), 0);
    assert_eq!(r.get_node_state(2), NodeState::Inactive);
    assert_eq!(r.get_node_state(0), NodeState::Removed);
    assert_eq!(r.get_node_id_to_bls(2), Some(key(2)));
    assert_eq!(r.get_node_id_to_bls(4), None);
    assert_eq!(r.get_node_signature_endpoint(&key(2)), Some(sig(2)));
    assert_eq!(r.get_node_signature_endpoint(&key(9)), None);
    assert_eq!(r.get_node_state_endpoint(&key(9)), NodeState::Removed);
}

#[test]
fn registration_refuses_known_and_malformed_keys() {
    let mut r = registry_of(2);
    assert_eq!(r.add_nodes(&vec![(key(1), sig(1))]), Err(DelegationError::AlreadyRegistered));
    assert_eq!(r.add_nodes(&vec![(key(5), sig(5)), (key(5), sig(6))]), Err(DelegationError::AlreadyRegistered));
    assert_eq!(r.add_nodes(&vec![(vec![1u8; 95], sig(1))]), Err(DelegationError::MalformedInput));
    assert_eq!(r.add_nodes(&vec![(key(7), vec![0u8; 47])]), Err(DelegationError::MalformedInput));
    assert_eq!(r.get_num_nodes(), 2);
    assert_eq!(r.get_node_id(&key(5)), 0);
}

#[test]
fn removed_node_is_reinstated_under_its_id() {
    let mut r = registry_of(2);
    assert_eq!(r.remove_nodes(&vec![key(1)]), Ok(()));
    assert_eq!(r.get_node_state(1), NodeState::Removed);
    assert_eq!(r.add_nodes(&vec![(key(1), sig(9))]), Ok(()));
    assert_eq!(r.get_node_id(&key(1)), 1);
    assert_eq!(r.get_num_nodes(), 2);
    assert_eq!(r.get_node_state(1), NodeState::Inactive);
    assert_eq!(r.get_node_signature_endpoint(&key(1)), Some(sig(9)));
}

#[test]
fn removal_refuses_unknown_and_busy_nodes() {
    let mut r = registry_of(2);
    assert_eq!(r.remove_nodes(&vec![key(9)]), Err(DelegationError::NotRegistered));
    assert_eq!(r.transition(2, NodeState::Inactive, NodeState::PendingActivation), Ok(()));
    assert_eq!(r.remove_nodes(&vec![key(1), key(2)]), Err(DelegationError::NotRemovable));
    assert_eq!(r.remove_nodes(&vec![key(1), key(1)]), Err(DelegationError::NotRemovable));
    assert_eq!(r.get_node_state(1), NodeState::Inactive);
}

#[test]
fn transition_is_guarded() {
    let mut r = registry_of(1);
    assert_eq!(r.transition(1, NodeState::Active, NodeState::PendingDeactivation), Err(DelegationError::UnexpectedState));
    assert_eq!(r.transition(5, NodeState::Inactive, NodeState::Active), Err(DelegationError::UnexpectedState));
    assert_eq!(r.transition(1, NodeState::Inactive, NodeState::PendingActivation), Ok(()));
    assert_eq!(r.get_node_state(1), NodeState::PendingActivation);
}

#[test]
fn all_node_states_in_id_order() {
    let mut r = registry_of(3);
    assert_eq!(r.transition(2, NodeState::Inactive, NodeState::PendingActivation), Ok(()));
    let all = r.get_all_node_states();
    assert_eq!(all, vec![(key(1), 0u8), (key(2), 1u8), (key(3), 0u8)]);
    assert_eq!(NodeState::Removed.discriminant(), 6);
    assert_eq!(NodeState::UnBondPeriod.discriminant(), 4);
}

#[test]
fn resolve_and_check_nodes() {
    let r = registry_of(3);
    assert_eq!(r.resolve_nodes(&vec![key(3), key(1)], NodeState::Inactive), Ok(vec![3, 1]));
    assert_eq!(r.resolve_nodes(&vec![key(3), key(3)], NodeState::Inactive), Err(DelegationError::UnexpectedState));
    assert_eq!(r.resolve_nodes(&vec![key(8)], NodeState::Inactive), Err(DelegationError::UnexpectedState));
    assert_eq!(r.resolve_nodes(&vec![key(1)], NodeState::Active), Err(DelegationError::UnexpectedState));
    assert!(r.check_nodes(&vec![1, 2], NodeState::Inactive));
    assert!(!r.check_nodes(&vec![1, 1], NodeState::Inactive));
    assert!(!r.check_nodes(&vec![4], NodeState::Inactive));
    assert!(!r.check_nodes(&vec![0], NodeState::Inactive));
}

#[test]
fn failed_nodes_are_split_out() {
    let r = registry_of(4);
    let statuses = vec![(key(2), 1u8), (key(3), 0u8), (key(9), 1u8), (key(2), 1u8)];
    let (ok, failed) = r.split_node_ids_by_err(vec![1, 2, 3, 4], &statuses);
    assert_eq!(ok, vec![1, 4, 3]);
    assert_eq!(failed, vec![2]);
}
