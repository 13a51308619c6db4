//! The command actor: the single owner of the peer registry and the sole
//! decision maker of the messaging core.
//!
//! The runtime drives it as one cooperative task: each loop iteration hands
//! the actor exactly one command or one network event; the actor updates
//! the registry, decides what to do, and returns the notifications to push
//! to the UI layer. All outside work — binding the listener, opening
//! streams, reading inbound frames — is performed by the runtime, which
//! reports outcomes back as events or result values. The phase machine is
//! `Idle` → `Listening` → `Stopped`; `shutdown` is the only path to the
//! terminal phase, after which every command fails with `ActorStopped` and
//! no further notifications are emitted.

use vstd::prelude::*;

use crate::codec::{encode_message, decode_message, spec_encode, spec_decode};
use crate::message::{P2PMessage, compose_message};
use crate::registry::{
    DiscoveryEvent, PeerRecord, PeerRegistry, PeerState, spec_apply_discovery,
    spec_connected_ids, spec_live_ids, spec_pruned_live_ids, spec_retained,
};

verus! {

/// How often this node announces its presence, in seconds.
pub const ANNOUNCE_INTERVAL_SECS: u64 = 30;

/// How long a silent peer is kept before it expires, in seconds: a small
/// multiple of the announce interval.
pub const EXPIRY_WINDOW_SECS: u64 = 3 * ANNOUNCE_INTERVAL_SECS;

/// The lifecycle phase of the actor.
#[derive(Clone, Copy, Debug, PartialEq, Eq, Structural)]
pub enum ActorPhase {
    /// Created, not yet listening.
    Idle,
    /// The transport listener is up (or being bound).
    Listening,
    /// Shut down; terminal.
    Stopped,
}

/// An error surfaced to a command's caller.
#[derive(Clone, Copy, Debug, PartialEq, Eq, Structural)]
pub enum ActorError {
    /// The command arrived after `shutdown`.
    ActorStopped,
    /// `start` was issued while already listening.
    AlreadyListening,
    /// The transport could not bind the requested address; fatal to
    /// `start`, not retried automatically.
    BindFailed,
}

/// One network event the runtime hands to the actor.
pub enum Event {
    /// A report from the discovery engine.
    Discovery { event: DiscoveryEvent },
    /// A connection to the peer was established.
    ConnectionEstablished { peer_id: String },
    /// The connection to the peer closed.
    ConnectionClosed { peer_id: String },
    /// An inbound stream was read to completion.
    InboundFrame { bytes: Vec<u8> },
    /// A clock tick; drives expiry of peers that went silent.
    Tick,
}

/// A push notification for the UI layer.
pub enum Notification {
    PeerJoined { peer_id: String },
    PeerLeft { peer_id: String },
    MessageReceived { message: P2PMessage },
}

/// The command actor: phase, local identifier, and the registry it owns.
pub struct Actor {
    phase: ActorPhase,
    local_id: String,
    registry: PeerRegistry,
}

impl Actor {
    /// The actor's lifecycle phase.
    pub closed spec fn phase(self) -> ActorPhase {
        self.phase
    }

    /// The local node's identifier.
    pub closed spec fn local(self) -> Seq<char> {
        self.local_id@
    }

    /// The registry of known peers.
    pub closed spec fn peers(self) -> PeerRegistry {
        self.registry
    }

    /// Well-formedness: the registry is sound and keyed to this node.
    pub closed spec fn wf(self) -> bool {
        &&& self.registry.wf()
        &&& self.registry.local() == self.local_id@
    }

    /// A fresh actor for the node with the given identifier, idle and with
    /// no known peers.
    pub fn new(local_id: String) -> (r: Actor)
        ensures
            r.wf(),
            r.phase() == ActorPhase::Idle,
            r.local() == local_id@,
            r.peers().records() =~= Seq::<PeerRecord>::empty(),
            r.peers().live_set() =~= Set::<Seq<char>>::empty(),
    {
        let registry = PeerRegistry::new(local_id.clone());
        Actor { phase: ActorPhase::Idle, local_id, registry }
    }

    /// `start`: accept the transition to `Listening`. The runtime then
    /// binds the transport listener and reports through
    /// `handle_bind_result`.
    pub fn start(&mut self) -> (r: Result<(), ActorError>)
        requires
            old(self).wf(),
        ensures
            final(self).wf(),
            final(self).local() == old(self).local(),
            final(self).peers() == old(self).peers(),
            old(self).phase() == ActorPhase::Stopped ==> r == Err::<(), ActorError>(
                ActorError::ActorStopped,
            ) && final(self).phase() == ActorPhase::Stopped,
            old(self).phase() == ActorPhase::Listening ==> r == Err::<(), ActorError>(
                ActorError::AlreadyListening,
            ) && final(self).phase() == ActorPhase::Listening,
            old(self).phase() == ActorPhase::Idle ==> r == Ok::<(), ActorError>(())
                && final(self).phase() == ActorPhase::Listening,
    {
        match self.phase {
            ActorPhase::Stopped => Err(ActorError::ActorStopped),
            ActorPhase::Listening => Err(ActorError::AlreadyListening),
            ActorPhase::Idle => {
                self.phase = ActorPhase::Listening;
                Ok(())
            },
        }
    }

    /// Outcome of the runtime's bind attempt. On success the concrete
    /// bound address is passed to the caller unchanged and the actor
    /// listens; on failure the actor falls back to `Idle` and the caller
    /// gets `BindFailed`.
    pub fn handle_bind_result(&mut self, bound: Result<String, String>) -> (r: Result<
        String,
        ActorError,
    >)
        requires
            old(self).wf(),
        ensures
            final(self).wf(),
            final(self).local() == old(self).local(),
            final(self).peers() == old(self).peers(),
            old(self).phase() == ActorPhase::Stopped ==> (r matches Err(e) && e
                == ActorError::ActorStopped && final(self).phase() == ActorPhase::Stopped),
            old(self).phase() != ActorPhase::Stopped ==> match bound {
                Ok(addr) => r matches Ok(a) && a@ == addr@ && final(self).phase()
                    == ActorPhase::Listening,
                Err(_) => r matches Err(e) && e == ActorError::BindFailed && final(self).phase()
                    == ActorPhase::Idle,
            },
    {
        match self.phase {
            ActorPhase::Stopped => Err(ActorError::ActorStopped),
            _ => match bound {
                Ok(addr) => {
                    self.phase = ActorPhase::Listening;
                    Ok(addr)
                },
                Err(_) => {
                    self.phase = ActorPhase::Idle;
                    Err(ActorError::BindFailed)
                },
            },
        }
    }

    /// `list-peers`: the identifiers of all live peers, in discovery
    /// order. An empty list is a valid answer. Fails only after shutdown.
    pub fn list_peers(&self) -> (r: Result<Vec<String>, ActorError>)
        requires
            self.wf(),
        ensures
            self.phase() == ActorPhase::Stopped ==> (r matches Err(e) && e
                == ActorError::ActorStopped),
            self.phase() != ActorPhase::Stopped ==> (r matches Ok(ids) && ids@.map_values(
                |s: String| s@,
            ) == spec_live_ids(self.peers().records())),
    {
        match self.phase {
            ActorPhase::Stopped => Err(ActorError::ActorStopped),
            _ => Ok(self.registry.list_ids()),
        }
    }

    /// `send-message`: wrap the text with the local sender identifier and
    /// the current timestamp, encode it as one wire frame, and name the
    /// connected targets. The runtime delivers the frame to each target
    /// independently and folds the per-peer outcomes with
    /// `aggregate_outcomes`; with no connected peers the broadcast
    /// trivially succeeds with zero sends. Fails only after shutdown.
    pub fn send_message(&self, content: String) -> (r: Result<
        (P2PMessage, Vec<u8>, Vec<String>),
        ActorError,
    >)
        requires
            self.wf(),
        ensures
            self.phase() == ActorPhase::Stopped ==> (r matches Err(e) && e
                == ActorError::ActorStopped),
            self.phase() != ActorPhase::Stopped ==> (r matches Ok(out) && {
                &&& out.0@.content == content@
                &&& out.0@.sender == self.local()
                &&& out.0@.timestamp.len() > 0
                &&& out.1@ == spec_encode(out.0@)
                &&& out.2@.map_values(|s: String| s@) == spec_connected_ids(
                    self.peers().records(),
                )
            }),
    {
        match self.phase {
            ActorPhase::Stopped => Err(ActorError::ActorStopped),
            _ => {
                let message = compose_message(content, self.local_id.clone());
                let frame = encode_message(&message);
                let targets = self.registry.connected_ids();
                Ok((message, frame, targets))
            },
        }
    }

    /// `shutdown`: the single cancellation point and the only path to the
    /// terminal phase. The first call is acknowledged; every command after
    /// it, this one included, fails with `ActorStopped`. The runtime closes
    /// the listener and drops in-flight streams on acknowledgement.
    pub fn shutdown(&mut self) -> (r: Result<(), ActorError>)
        requires
            old(self).wf(),
        ensures
            final(self).wf(),
            final(self).local() == old(self).local(),
            final(self).peers() == old(self).peers(),
            final(self).phase() == ActorPhase::Stopped,
            old(self).phase() == ActorPhase::Stopped ==> r == Err::<(), ActorError>(
                ActorError::ActorStopped,
            ),
            old(self).phase() != ActorPhase::Stopped ==> r == Ok::<(), ActorError>(()),
    {
        match self.phase {
            ActorPhase::Stopped => Err(ActorError::ActorStopped),
            _ => {
                self.phase = ActorPhase::Stopped;
                Ok(())
            },
        }
    }

    /// Process one network event and return the notifications to push, in
    /// order. After shutdown every event is ignored and nothing is
    /// emitted.
    pub fn handle_event(&mut self, event: Event, now: u64) -> (notes: Vec<Notification>)
        requires
            old(self).wf(),
        ensures
            final(self).wf(),
            final(self).local() == old(self).local(),
            final(self).phase() == old(self).phase(),
            old(self).phase() == ActorPhase::Stopped ==> *final(self) == *old(self)
                && notes@.len() == 0,
            old(self).phase() != ActorPhase::Stopped ==> match event {
                Event::Discovery { event: ev } => {
                    &&& final(self).peers().live_set() == spec_apply_discovery(
                        old(self).peers().live_set(),
                        old(self).local(),
                        ev,
                    )
                    &&& (ev matches DiscoveryEvent::Discovered { peer_id, .. } ==> {
                        let joined = peer_id@ != old(self).local() && !old(
                            self,
                        ).peers().live_set().contains(peer_id@);
                        &&& (joined ==> notes@.len() == 1 && notes@[0] is PeerJoined
                            && notes@[0]->PeerJoined_peer_id@ == peer_id@)
                        &&& (!joined ==> notes@.len() == 0)
                    })
                    &&& (ev matches DiscoveryEvent::Expired { peer_id } ==> {
                        let left = old(self).peers().live_set().contains(peer_id@);
                        &&& (left ==> notes@.len() == 1 && notes@[0] is PeerLeft
                            && notes@[0]->PeerLeft_peer_id@ == peer_id@)
                        &&& (!left ==> notes@.len() == 0)
                    })
                },
                Event::ConnectionEstablished { peer_id } => {
                    let joined = peer_id@ != old(self).local() && !old(
                        self,
                    ).peers().live_set().contains(peer_id@);
                    &&& (peer_id@ == old(self).local() ==> final(self).peers() == old(
                        self,
                    ).peers())
                    &&& (peer_id@ != old(self).local() ==> final(self).peers().live_set() == old(
                        self,
                    ).peers().live_set().insert(peer_id@) && final(self).peers().entry(
                        peer_id@,
                    ).state == PeerState::Connected)
                    &&& (joined ==> notes@.len() == 1 && notes@[0] is PeerJoined
                        && notes@[0]->PeerJoined_peer_id@ == peer_id@)
                    &&& (!joined ==> notes@.len() == 0)
                },
                Event::ConnectionClosed { peer_id } => {
                    let left = old(self).peers().live_set().contains(peer_id@);
                    &&& final(self).peers().live_set() == old(self).peers().live_set().remove(
                        peer_id@,
                    )
                    &&& (left ==> notes@.len() == 1 && notes@[0] is PeerLeft
                        && notes@[0]->PeerLeft_peer_id@ == peer_id@)
                    &&& (!left ==> notes@.len() == 0)
                },
                Event::InboundFrame { bytes } => {
                    &&& final(self).peers() == old(self).peers()
                    &&& match spec_decode(bytes@) {
                        Some(m) => notes@.len() == 1 && notes@[0] is MessageReceived
                            && notes@[0]->MessageReceived_message@ == m,
                        None => notes@.len() == 0,
                    }
                },
                Event::Tick => {
                    let pruned = spec_pruned_live_ids(
                        old(self).peers().records(),
                        now,
                        EXPIRY_WINDOW_SECS,
                    );
                    &&& final(self).peers().records() == spec_retained(
                        old(self).peers().records(),
                        now,
                        EXPIRY_WINDOW_SECS,
                    )
                    &&& notes@.len() == pruned.len()
                    &&& (forall|k: int|
                        0 <= k < notes@.len() ==> (#[trigger] notes@[k]) is PeerLeft
                            && notes@[k]->PeerLeft_peer_id@ == pruned[k])
                },
            },
    {
        let mut notes: Vec<Notification> = Vec::new();
        match self.phase {
            ActorPhase::Stopped => {
                return notes;
            },
            _ => {},
        }
        match event {
            Event::Discovery { event: ev } => match ev {
                DiscoveryEvent::Discovered { peer_id, addresses } => {
                    let joined = self.registry.upsert(peer_id.clone(), addresses, now);
                    if joined {
                        notes.push(Notification::PeerJoined { peer_id });
                    }
                },
                DiscoveryEvent::Expired { peer_id } => {
                    let left = self.registry.mark_expired(&peer_id);
                    if left {
                        notes.push(Notification::PeerLeft { peer_id });
                    }
                },
            },
            Event::ConnectionEstablished { peer_id } => {
                let joined = self.registry.mark_connected(peer_id.clone(), now);
                if joined {
                    notes.push(Notification::PeerJoined { peer_id });
                }
            },
            Event::ConnectionClosed { peer_id } => {
                let left = self.registry.mark_disconnected(&peer_id);
                if left {
                    notes.push(Notification::PeerLeft { peer_id });
                }
            },
            Event::InboundFrame { bytes } => {
                match decode_message(&bytes) {
                    Ok(message) => {
                        notes.push(Notification::MessageReceived { message });
                    },
                    Err(_) => {
                        // A malformed or unknown-version frame is dropped; the
                        // runtime logs it and keeps the connection alive.
                    },
                }
            },
            Event::Tick => {
                let removed = self.registry.prune_expired(now, EXPIRY_WINDOW_SECS);
                let n = removed.len();
                let mut i: usize = 0;
                let ghost pruned = spec_pruned_live_ids(
                    old(self).peers().records(),
                    now,
                    EXPIRY_WINDOW_SECS,
                );
                while i < n
                    invariant
                        n == removed@.len(),
                        i <= n,
                        notes@.len() == i,
                        removed@.map_values(|s: String| s@) == pruned,
                        forall|k: int|
                            0 <= k < i ==> (#[trigger] notes@[k]) is PeerLeft
                                && notes@[k]->PeerLeft_peer_id@ == pruned[k],
                    decreases n - i,
                {
                    notes.push(Notification::PeerLeft { peer_id: removed[i].clone() });
                    i = i + 1;
                }
            },
        }
        notes
    }
}

} // verus!
