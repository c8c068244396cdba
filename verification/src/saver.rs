//! Saving the peers: which records go to the peers file, and when the file
//! is written.
//!
//! The file is written by a worker that runs beside the database. The worker
//! waits for a change of the peers, lets `peers_file_dump_interval` pass, so
//! that a burst of changes makes one write, and then writes the latest peers.
//! What the worker does next is decided by [`saver_step`]; waiting, timing
//! and writing are the caller's.

use vstd::prelude::*;
use crate::peer::PeerInfo;
use crate::seq_facts::{select, lemma_select_empty, lemma_select_step};

verus! {

/// Whether a record goes to the peers file: it is banned, advertised or a
/// bootstrap peer.
pub open spec fn is_persisted(p: PeerInfo) -> bool {
    p.banned || p.advertised || p.bootstrap
}

/// [`is_persisted`] as a predicate on records.
pub open spec fn persisted_class() -> spec_fn(PeerInfo) -> bool {
    |p: PeerInfo| is_persisted(p)
}

/// The records without their connections.
pub open spec fn all_at_rest(peers: Seq<PeerInfo>) -> Seq<PeerInfo> {
    Seq::new(peers.len(), |i: int| peers[i].at_rest_spec())
}

/// What the peers file holds of a directory: the records that are banned,
/// advertised or bootstrap peers, without their connections.
pub open spec fn persisted(peers: Seq<PeerInfo>) -> Seq<PeerInfo> {
    all_at_rest(select(peers, persisted_class()))
}

/// The records to write to the peers file.
pub fn peers_to_dump(peers: &Vec<PeerInfo>) -> (records: Vec<PeerInfo>)
    ensures
        records@ == persisted(peers@),
{
    let n = peers.len();
    let mut records: Vec<PeerInfo> = Vec::new();
    let mut i: usize = 0;
    proof {
        lemma_select_empty(persisted_class());
        assert(peers@.take(0) == Seq::<PeerInfo>::empty());
    }
    while i < n
        invariant
            n == peers.len(),
            i <= n,
            records@ == persisted(peers@.take(i as int)),
        decreases n - i,
    {
        let p = peers[i];
        proof {
            lemma_select_step(peers@, persisted_class(), i as int);
        }
        if p.banned || p.advertised || p.bootstrap {
            records.push(p.at_rest());
            assert(records@ == persisted(peers@.take(i + 1)));
        }
        i += 1;
    }
    assert(peers@.take(n as int) == peers@);
    records
}

/// Where the worker stands.
#[derive(Clone, Copy, Debug, PartialEq, Eq, Structural)]
pub enum SaverState {
    /// Nothing to save.
    Idle,
    /// The peers changed; the timer runs.
    Armed,
    /// The file is being written.
    Dumping,
    /// The file is being written, and the peers changed since the write
    /// began.
    DumpingChanged,
    /// The database was closed; the worker has ended.
    Stopped,
}

/// What happened to the worker.
#[derive(Clone, Copy, Debug, PartialEq, Eq, Structural)]
pub enum SaverEvent {
    /// The peers changed.
    Changed,
    /// The database was closed.
    Closed,
    /// The timer has run out.
    TimerElapsed,
    /// The file was written.
    DumpSucceeded,
    /// The file could not be written.
    DumpFailed,
}

/// What the worker is to do.
#[derive(Clone, Copy, Debug, PartialEq, Eq, Structural)]
pub enum SaverAction {
    /// Wait for the next event.
    Wait,
    /// Start the timer anew with this many milliseconds, then wait.
    ArmTimer(u64),
    /// Write the latest peers to the file and report how it went.
    Dump,
    /// End.
    Stop,
}

/// The state that follows `state` on `event`, and what the worker is to do,
/// where `dump_interval` is the configured `peers_file_dump_interval`.
///
/// A change starts the timer, with the interval, only where it does not run
/// yet and nothing is being written; further changes leave the timer as it
/// runs. When the timer runs out the file is written. A write that went well
/// leaves nothing to save, unless the peers changed meanwhile; a write that
/// failed, or one that the peers changed under, is followed by another after
/// one more interval. Closing the database ends the worker from every state.
pub open spec fn saver_next(state: SaverState, event: SaverEvent, dump_interval: u64) -> (
    SaverState,
    SaverAction,
) {
    match (state, event) {
        (SaverState::Stopped, _) => (SaverState::Stopped, SaverAction::Stop),
        (_, SaverEvent::Closed) => (SaverState::Stopped, SaverAction::Stop),
        (SaverState::Idle, SaverEvent::Changed) => (
            SaverState::Armed,
            SaverAction::ArmTimer(dump_interval),
        ),
        (SaverState::Armed, SaverEvent::TimerElapsed) => (SaverState::Dumping, SaverAction::Dump),
        (SaverState::Dumping, SaverEvent::Changed) => (
            SaverState::DumpingChanged,
            SaverAction::Wait,
        ),
        (SaverState::Dumping, SaverEvent::DumpSucceeded) => (SaverState::Idle, SaverAction::Wait),
        (SaverState::DumpingChanged, SaverEvent::DumpSucceeded) => (
            SaverState::Armed,
            SaverAction::ArmTimer(dump_interval),
        ),
        (SaverState::Dumping, SaverEvent::DumpFailed) => (
            SaverState::Armed,
            SaverAction::ArmTimer(dump_interval),
        ),
        (SaverState::DumpingChanged, SaverEvent::DumpFailed) => (
            SaverState::Armed,
            SaverAction::ArmTimer(dump_interval),
        ),
        (other, _) => (other, SaverAction::Wait),
    }
}

/// Decides what the worker does on `event`.
pub fn saver_step(state: SaverState, event: SaverEvent, dump_interval: u64) -> (next: (
    SaverState,
    SaverAction,
))
    ensures
        next == saver_next(state, event, dump_interval),
{
    match state {
        SaverState::Stopped => (SaverState::Stopped, SaverAction::Stop),
        SaverState::Idle => match event {
            SaverEvent::Closed => (SaverState::Stopped, SaverAction::Stop),
            SaverEvent::Changed => (SaverState::Armed, SaverAction::ArmTimer(dump_interval)),
            _ => (SaverState::Idle, SaverAction::Wait),
        },
        SaverState::Armed => match event {
            SaverEvent::Closed => (SaverState::Stopped, SaverAction::Stop),
            SaverEvent::TimerElapsed => (SaverState::Dumping, SaverAction::Dump),
            _ => (SaverState::Armed, SaverAction::Wait),
        },
        SaverState::Dumping => match event {
            SaverEvent::Closed => (SaverState::Stopped, SaverAction::Stop),
            SaverEvent::Changed => (SaverState::DumpingChanged, SaverAction::Wait),
            SaverEvent::DumpSucceeded => (SaverState::Idle, SaverAction::Wait),
            SaverEvent::DumpFailed => (SaverState::Armed, SaverAction::ArmTimer(dump_interval)),
            SaverEvent::TimerElapsed => (SaverState::Dumping, SaverAction::Wait),
        },
        SaverState::DumpingChanged => match event {
            SaverEvent::Closed => (SaverState::Stopped, SaverAction::Stop),
            SaverEvent::DumpSucceeded => (
                SaverState::Armed,
                SaverAction::ArmTimer(dump_interval),
            ),
            SaverEvent::DumpFailed => (SaverState::Armed, SaverAction::ArmTimer(dump_interval)),
            _ => (SaverState::DumpingChanged, SaverAction::Wait),
        },
    }
}

/// Whether something is left to save in `state`: the peers changed and the
/// change is not yet in the file.
pub open spec fn has_unsaved_change(state: SaverState) -> bool {
    state == SaverState::Armed || state == SaverState::Dumping || state
        == SaverState::DumpingChanged
}

/// A change is not forgotten: until the worker is stopped, something is left
/// to save from the change on, up to a write that went well and that the
/// peers did not change under. The file is written only when the timer runs
/// out on a change, and while the timer runs a change does not start it
/// anew.
pub proof fn lemma_saver_keeps_changes(state: SaverState, event: SaverEvent, dump_interval: u64)
    ensures
        event == SaverEvent::Changed && state != SaverState::Stopped ==> has_unsaved_change(
            saver_next(state, event, dump_interval).0,
        ),
        has_unsaved_change(state) && !has_unsaved_change(
            saver_next(state, event, dump_interval).0,
        ) ==> event == SaverEvent::Closed || (state == SaverState::Dumping && event
            == SaverEvent::DumpSucceeded),
        saver_next(state, event, dump_interval).1 == SaverAction::Dump ==> state
            == SaverState::Armed && event == SaverEvent::TimerElapsed,
        state == SaverState::Armed && event == SaverEvent::Changed ==> saver_next(
            state,
            event,
            dump_interval,
        ) == (SaverState::Armed, SaverAction::Wait),
        saver_next(state, event, dump_interval).0 == SaverState::Stopped <==> state
            == SaverState::Stopped || event == SaverEvent::Closed,
{
}

} // verus!
