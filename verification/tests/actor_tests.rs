use edge_hive::actor::{Actor, ActorError, Event, Notification, EXPIRY_WINDOW_SECS};
use edge_hive::broadcast::{aggregate_outcomes, PeerOutcome, StreamFault};
use edge_hive::codec::decode_message;
use edge_hive::identity::NodeIdentity;
use edge_hive::registry::DiscoveryEvent;

fn discovered(id: &str, addr: &str) -> Event {
    Event::Discovery {
        event: DiscoveryEvent::Discovered {
            peer_id: id.to_string(),
            addresses: vec![addr.to_string()],
        },
    }
}

fn expired(id: &str) -> Event {
    Event::Discovery { event: DiscoveryEvent::Expired { peer_id: id.to_string() } }
}

fn peer_list(actor: &Actor) -> Vec<String> {
    actor.list_peers().expect("list-peers must answer while running")
}

#[test]
fn registry_follows_discovery_events() {
    let mut actor = Actor::new("local".to_string());
    actor.start().unwrap();
    actor.handle_event(discovered("A", "/ip4/10.0.0.1/tcp/4001"), 0);
    actor.handle_event(discovered("B", "/ip4/10.0.0.2/tcp/4001"), 1);
    // A re-announcement updates, it does not duplicate.
    actor.handle_event(discovered("A", "/ip4/10.0.0.9/tcp/4001"), 2);
    actor.handle_event(expired("B"), 3);
    actor.handle_event(discovered("C", "/ip4/10.0.0.3/tcp/4001"), 4);
    assert_eq!(peer_list(&actor), vec!["A".to_string(), "C".to_string()]);
    // Expiry of an unknown peer changes nothing.
    actor.handle_event(expired("nobody"), 5);
    assert_eq!(peer_list(&actor), vec!["A".to_string(), "C".to_string()]);
    // The local node never appears, even if announced.
    actor.handle_event(discovered("local", "/ip4/127.0.0.1/tcp/4001"), 6);
    assert_eq!(peer_list(&actor), vec!["A".to_string(), "C".to_string()]);
}

#[test]
fn duplicate_discovery_emits_one_join_notification() {
    let mut actor = Actor::new("local".to_string());
    let first = actor.handle_event(discovered("A", "/ip4/10.0.0.1/tcp/4001"), 0);
    assert_eq!(first.len(), 1);
    assert!(matches!(&first[0], Notification::PeerJoined { peer_id } if peer_id == "A"));
    let second = actor.handle_event(discovered("A", "/ip4/10.0.0.1/tcp/4001"), 1);
    assert!(second.is_empty());
}

#[test]
fn broadcast_to_zero_peers_is_success_with_zero_sent() {
    let actor = Actor::new("local".to_string());
    let (_message, _frame, targets) =
        actor.send_message("anyone there?".to_string()).expect("send must not error");
    assert!(targets.is_empty());
    let batch = aggregate_outcomes(&Vec::new());
    assert_eq!(batch.sent, 0);
    assert!(batch.failures.is_empty());
}

#[test]
fn broadcast_failures_are_isolated_and_counted() {
    let outcomes = vec![
        PeerOutcome { peer_id: "A".to_string(), result: Ok(()) },
        PeerOutcome { peer_id: "B".to_string(), result: Err(StreamFault::TimedOut) },
        PeerOutcome { peer_id: "C".to_string(), result: Ok(()) },
        PeerOutcome { peer_id: "D".to_string(), result: Err(StreamFault::OpenFailed) },
        PeerOutcome { peer_id: "E".to_string(), result: Ok(()) },
        PeerOutcome { peer_id: "F".to_string(), result: Err(StreamFault::WriteFailed) },
    ];
    let batch = aggregate_outcomes(&outcomes);
    assert_eq!(batch.sent, 3);
    assert_eq!(batch.failures.len(), 3);
    assert_eq!(batch.failures[0].peer_id, "B");
    assert_eq!(batch.failures[0].fault, StreamFault::TimedOut);
    assert_eq!(batch.failures[1].peer_id, "D");
    assert_eq!(batch.failures[1].fault, StreamFault::OpenFailed);
    assert_eq!(batch.failures[2].peer_id, "F");
    assert_eq!(batch.failures[2].fault, StreamFault::WriteFailed);
}

#[test]
fn silent_peer_expires_without_departure_event() {
    let mut actor = Actor::new("local".to_string());
    actor.handle_event(discovered("A", "/ip4/10.0.0.1/tcp/4001"), 100);
    assert_eq!(peer_list(&actor), vec!["A".to_string()]);
    // Within the window the peer stays.
    let notes = actor.handle_event(Event::Tick, 100 + EXPIRY_WINDOW_SECS - 1);
    assert!(notes.is_empty());
    assert_eq!(peer_list(&actor), vec!["A".to_string()]);
    // A full window with no re-announcement removes it.
    let notes = actor.handle_event(Event::Tick, 100 + EXPIRY_WINDOW_SECS);
    assert_eq!(notes.len(), 1);
    assert!(matches!(&notes[0], Notification::PeerLeft { peer_id } if peer_id == "A"));
    assert!(peer_list(&actor).is_empty());
}

#[test]
fn reannounced_peer_survives_expiry_window() {
    let mut actor = Actor::new("local".to_string());
    actor.handle_event(discovered("A", "/ip4/10.0.0.1/tcp/4001"), 100);
    actor.handle_event(discovered("A", "/ip4/10.0.0.1/tcp/4001"), 150);
    let notes = actor.handle_event(Event::Tick, 100 + EXPIRY_WINDOW_SECS);
    assert!(notes.is_empty());
    assert_eq!(peer_list(&actor), vec!["A".to_string()]);
}

#[test]
fn commands_after_shutdown_return_actor_stopped() {
    let mut actor = Actor::new("local".to_string());
    actor.start().unwrap();
    actor.handle_event(discovered("A", "/ip4/10.0.0.1/tcp/4001"), 0);
    assert_eq!(actor.shutdown(), Ok(()));
    assert_eq!(actor.start(), Err(ActorError::ActorStopped));
    assert_eq!(actor.list_peers().unwrap_err(), ActorError::ActorStopped);
    assert_eq!(
        actor.send_message("late".to_string()).unwrap_err(),
        ActorError::ActorStopped
    );
    assert_eq!(actor.shutdown(), Err(ActorError::ActorStopped));
    // No further notifications are emitted for any event.
    assert!(actor.handle_event(discovered("B", "/ip4/10.0.0.2/tcp/4001"), 1).is_empty());
    assert!(actor.handle_event(expired("A"), 2).is_empty());
    assert!(actor.handle_event(Event::Tick, 1_000_000).is_empty());
}

#[test]
fn start_errors() {
    let mut actor = Actor::new("local".to_string());
    actor.start().unwrap();
    assert_eq!(actor.start(), Err(ActorError::AlreadyListening));
    let mut failing = Actor::new("local".to_string());
    failing.start().unwrap();
    let r = failing.handle_bind_result(Err("address in use".to_string()));
    assert_eq!(r.unwrap_err(), ActorError::BindFailed);
    // After a failed bind the actor is idle again and start may be retried.
    assert_eq!(failing.start(), Ok(()));
}

#[test]
fn disconnected_peer_is_not_listed_until_rediscovered() {
    let mut actor = Actor::new("local".to_string());
    actor.handle_event(discovered("A", "/ip4/10.0.0.1/tcp/4001"), 0);
    let notes = actor.handle_event(Event::ConnectionClosed { peer_id: "A".to_string() }, 1);
    assert_eq!(notes.len(), 1);
    assert!(matches!(&notes[0], Notification::PeerLeft { peer_id } if peer_id == "A"));
    assert!(peer_list(&actor).is_empty());
    let notes = actor.handle_event(discovered("A", "/ip4/10.0.0.1/tcp/4001"), 2);
    assert_eq!(notes.len(), 1);
    assert!(matches!(&notes[0], Notification::PeerJoined { peer_id } if peer_id == "A"));
    assert_eq!(peer_list(&actor), vec!["A".to_string()]);
}

#[test]
fn full_scenario_start_discover_send_receive() {
    let identity = NodeIdentity::generate();
    let local_id = identity.peer_id_string().clone();
    assert!(!local_id.is_empty());

    let mut actor = Actor::new(local_id.clone());
    assert_eq!(actor.start(), Ok(()));
    // The runtime binds `0.0.0.0:0` and reports the concrete address.
    let bound = actor
        .handle_bind_result(Ok("/ip4/0.0.0.0/tcp/54321".to_string()))
        .expect("bind result must pass through");
    let port: u32 = bound.rsplit('/').next().unwrap().parse().unwrap();
    assert!(port > 0);

    // Discovery reports peer "X" with one address; it shows up in list-peers.
    let notes = actor.handle_event(discovered("X", "/ip4/10.0.0.7/tcp/4001"), 10);
    assert_eq!(notes.len(), 1);
    assert!(matches!(&notes[0], Notification::PeerJoined { peer_id } if peer_id == "X"));
    assert_eq!(peer_list(&actor), vec!["X".to_string()]);

    // With "X" connected, sending "hi" targets exactly "X".
    actor.handle_event(Event::ConnectionEstablished { peer_id: "X".to_string() }, 11);
    let (message, frame, targets) = actor.send_message("hi".to_string()).unwrap();
    assert_eq!(targets, vec!["X".to_string()]);

    // The runtime delivers to every target; all succeed.
    let outcomes: Vec<PeerOutcome> = targets
        .iter()
        .map(|t| PeerOutcome { peer_id: t.clone(), result: Ok(()) })
        .collect();
    let batch = aggregate_outcomes(&outcomes);
    assert_eq!(batch.sent, 1);
    assert!(batch.failures.is_empty());

    // Peer "X" reads the stream and decodes the frame back into the message.
    let received = decode_message(&frame).expect("the frame on the wire must decode");
    assert_eq!(received.content, "hi");
    assert_eq!(received.sender, local_id);
    assert_eq!(received.timestamp, message.timestamp);
    assert!(!received.timestamp.is_empty());

    // On the receiving actor the frame becomes a message-received notification.
    let mut receiver = Actor::new("X".to_string());
    let notes = receiver.handle_event(Event::InboundFrame { bytes: frame }, 12);
    assert_eq!(notes.len(), 1);
    match &notes[0] {
        Notification::MessageReceived { message } => {
            assert_eq!(message.content, "hi");
            assert_eq!(message.sender, local_id);
        },
        _ => panic!("expected a message-received notification"),
    }
}

#[test]
fn connection_from_unknown_peer_creates_an_entry() {
    let mut actor = Actor::new("local".to_string());
    let notes = actor.handle_event(Event::ConnectionEstablished { peer_id: "Y".to_string() }, 5);
    assert_eq!(notes.len(), 1);
    assert!(matches!(&notes[0], Notification::PeerJoined { peer_id } if peer_id == "Y"));
    assert_eq!(peer_list(&actor), vec!["Y".to_string()]);
    let (_message, _frame, targets) = actor.send_message("ping".to_string()).unwrap();
    assert_eq!(targets, vec!["Y".to_string()]);
}

#[test]
fn discovered_but_never_connected_peer_is_listed_not_targeted() {
    let mut actor = Actor::new("local".to_string());
    actor.handle_event(discovered("A", "/ip4/10.0.0.1/tcp/4001"), 0);
    assert_eq!(peer_list(&actor), vec!["A".to_string()]);
    let (_message, _frame, targets) = actor.send_message("ping".to_string()).unwrap();
    assert!(targets.is_empty());
}
