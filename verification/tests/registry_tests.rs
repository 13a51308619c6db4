use edge_hive::message::compose_message;
use edge_hive::registry::{DiscoveryEvent, PeerRegistry};

#[test]
fn upsert_is_idempotent_and_keeps_discovery_order() {
    let mut reg = PeerRegistry::new("local".to_string());
    reg.upsert("B".to_string(), vec!["/ip4/10.0.0.2/tcp/4001".to_string()], 0);
    reg.upsert("A".to_string(), vec!["/ip4/10.0.0.1/tcp/4001".to_string()], 1);
    reg.upsert("B".to_string(), vec!["/ip4/10.0.0.2/tcp/4002".to_string()], 2);
    assert_eq!(reg.list_ids(), vec!["B".to_string(), "A".to_string()]);
}

#[test]
fn registry_never_contains_the_local_node() {
    let mut reg = PeerRegistry::new("local".to_string());
    let joined = reg.upsert("local".to_string(), Vec::new(), 0);
    assert!(!joined);
    assert!(reg.list_ids().is_empty());
}

#[test]
fn expired_entry_is_removed_and_others_kept() {
    let mut reg = PeerRegistry::new("local".to_string());
    reg.upsert("A".to_string(), Vec::new(), 0);
    reg.upsert("B".to_string(), Vec::new(), 1);
    let left = reg.mark_expired(&"A".to_string());
    assert!(left);
    assert_eq!(reg.list_ids(), vec!["B".to_string()]);
    let left_again = reg.mark_expired(&"A".to_string());
    assert!(!left_again);
}

#[test]
fn connected_peers_are_the_broadcast_targets() {
    let mut reg = PeerRegistry::new("local".to_string());
    reg.upsert("A".to_string(), Vec::new(), 0);
    reg.upsert("B".to_string(), Vec::new(), 1);
    reg.mark_connected("B".to_string(), 2);
    assert_eq!(reg.list_ids(), vec!["A".to_string(), "B".to_string()]);
    assert_eq!(reg.connected_ids(), vec!["B".to_string()]);
    reg.mark_disconnected(&"B".to_string());
    assert!(reg.connected_ids().is_empty());
    assert_eq!(reg.list_ids(), vec!["A".to_string()]);
}

#[test]
fn prune_removes_only_stale_entries() {
    let mut reg = PeerRegistry::new("local".to_string());
    reg.upsert("old".to_string(), Vec::new(), 100);
    reg.upsert("fresh".to_string(), Vec::new(), 150);
    let removed = reg.prune_expired(190, 90);
    assert_eq!(removed, vec!["old".to_string()]);
    assert_eq!(reg.list_ids(), vec!["fresh".to_string()]);
    // A window longer than any silence removes nothing.
    let removed = reg.prune_expired(190, 1000);
    assert!(removed.is_empty());
}

#[test]
fn discovery_event_sequences_fold_into_the_registry() {
    let mut reg = PeerRegistry::new("local".to_string());
    let events = vec![
        DiscoveryEvent::Discovered { peer_id: "A".to_string(), addresses: Vec::new() },
        DiscoveryEvent::Discovered { peer_id: "B".to_string(), addresses: Vec::new() },
        DiscoveryEvent::Expired { peer_id: "A".to_string() },
        DiscoveryEvent::Discovered { peer_id: "A".to_string(), addresses: Vec::new() },
        DiscoveryEvent::Discovered { peer_id: "B".to_string(), addresses: Vec::new() },
        DiscoveryEvent::Expired { peer_id: "C".to_string() },
    ];
    reg.apply_discovery_events(&events, 7);
    // B kept its first position; A re-entered after expiring.
    assert_eq!(reg.list_ids(), vec!["B".to_string(), "A".to_string()]);
}

#[test]
fn composed_message_is_stamped() {
    let m = compose_message("hello".to_string(), "sender-id".to_string());
    assert_eq!(m.content, "hello");
    assert_eq!(m.sender, "sender-id");
    assert!(!m.timestamp.is_empty());
}
