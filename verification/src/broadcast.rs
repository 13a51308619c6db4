//! Aggregation of per-peer broadcast outcomes.
//!
//! Delivery to each connected peer is independent: the runtime opens a
//! stream, writes the encoded frame, and reports one outcome per target.
//! A failure for one peer never cancels delivery to the others; the batch
//! result counts the successes and records exactly the failures.

use vstd::prelude::*;

verus! {

/// Why delivery to one peer failed; recovered locally, never propagated as
/// a whole-operation error.
#[derive(Clone, Copy, Debug, PartialEq, Eq, Structural)]
pub enum StreamFault {
    /// No stream could be opened to the peer.
    OpenFailed,
    /// The stream broke while the frame was being written.
    WriteFailed,
    /// The stream operation exceeded its timeout.
    TimedOut,
}

/// The outcome the runtime reports for one target peer.
pub struct PeerOutcome {
    pub peer_id: String,
    pub result: Result<(), StreamFault>,
}

/// One failed delivery within a batch.
pub struct BroadcastFailure {
    pub peer_id: String,
    pub fault: StreamFault,
}

/// The aggregate result of one broadcast: how many sends succeeded and
/// which targets failed. Broadcasting to nobody is a valid outcome with a
/// count of zero, not an error.
pub struct BatchResult {
    pub sent: usize,
    pub failures: Vec<BroadcastFailure>,
}

/// How many outcomes report success.
pub open spec fn spec_sent_count(s: Seq<PeerOutcome>) -> nat
    decreases s.len(),
{
    if s.len() == 0 {
        0
    } else {
        spec_sent_count(s.drop_last()) + (if s.last().result is Ok {
            1nat
        } else {
            0nat
        })
    }
}

/// The failed outcomes, as pairs of peer identifier and fault, in order.
pub open spec fn spec_failures(s: Seq<PeerOutcome>) -> Seq<(Seq<char>, StreamFault)>
    decreases s.len(),
{
    if s.len() == 0 {
        Seq::<(Seq<char>, StreamFault)>::empty()
    } else {
        spec_failures(s.drop_last()) + (match s.last().result {
            Ok(_) => Seq::<(Seq<char>, StreamFault)>::empty(),
            Err(fault) => seq![(s.last().peer_id@, fault)],
        })
    }
}

/// The model of a recorded failure: its peer identifier and fault.
pub open spec fn failure_view(f: BroadcastFailure) -> (Seq<char>, StreamFault) {
    (f.peer_id@, f.fault)
}

/// Law: every target is accounted for exactly once, so a broadcast to `n`
/// targets of which `m` fail reports `n - m` successes and `m` failures.
pub proof fn lemma_broadcast_accounting(s: Seq<PeerOutcome>)
    ensures
        spec_sent_count(s) + spec_failures(s).len() == s.len(),
    decreases s.len(),
{
    if s.len() > 0 {
        lemma_broadcast_accounting(s.drop_last());
    }
}

/// Fold the runtime's per-peer outcomes into the batch result returned to
/// the caller: the count of successes and the list of failures, in target
/// order.
pub fn aggregate_outcomes(outcomes: &Vec<PeerOutcome>) -> (r: BatchResult)
    ensures
        r.sent == spec_sent_count(outcomes@),
        r.failures@.map_values(|f: BroadcastFailure| failure_view(f)) == spec_failures(outcomes@),
        r.sent + r.failures@.len() == outcomes@.len(),
{
    let mut sent: usize = 0;
    let mut failures: Vec<BroadcastFailure> = Vec::new();
    let n = outcomes.len();
    let mut i: usize = 0;
    proof {
        assert(outcomes@.take(0) =~= Seq::<PeerOutcome>::empty());
        assert(failures@.map_values(|f: BroadcastFailure| failure_view(f)) =~= spec_failures(
            outcomes@.take(0),
        ));
    }
    while i < n
        invariant
            n == outcomes@.len(),
            i <= n,
            sent == spec_sent_count(outcomes@.take(i as int)),
            sent <= i,
            failures@.map_values(|f: BroadcastFailure| failure_view(f)) == spec_failures(
                outcomes@.take(i as int),
            ),
        decreases n - i,
    {
        proof {
            assert(outcomes@.take(i as int + 1).drop_last() =~= outcomes@.take(i as int));
            assert(outcomes@.take(i as int + 1).last() == outcomes@[i as int]);
        }
        match &outcomes[i].result {
            Ok(_) => {
                sent = sent + 1;
            },
            Err(fault) => {
                failures.push(
                    BroadcastFailure { peer_id: outcomes[i].peer_id.clone(), fault: *fault },
                );
            },
        }
        proof {
            assert(failures@.map_values(|f: BroadcastFailure| failure_view(f)) =~= spec_failures(
                outcomes@.take(i as int + 1),
            ));
        }
        i = i + 1;
    }
    proof {
        assert(outcomes@.take(n as int) =~= outcomes@);
        lemma_broadcast_accounting(outcomes@);
    }
    BatchResult { sent, failures }
}

} // verus!
