//! Room discovery: the room list is synced in growing batches until it is
//! fully loaded, then once more, so that the latest event of each room is
//! up to date when the rooms are read.

use vstd::prelude::*;

verus! {

/// Rooms by which the synced range of the room list grows.
pub const SLIDING_SYNC_BATCH_SIZE: usize = 50;

/// Milliseconds after which the state of the list is asked for when
/// nothing else happens.
pub const STATE_POLL_MILLIS: u64 = 200;

/// How far discovery has come.
#[derive(Clone, Debug, PartialEq, Eq)]
pub enum DiscoveryPhase {
    /// The list is still growing: syncs go on, and the state of the list is
    /// watched.
    Growing,
    /// The list is fully loaded: one more sync is awaited.
    Settling,
    /// The rooms can be read.
    Ready,
    /// A sync failed: discovery is over for this account.
    Failed(String),
}

/// What happens during discovery.
#[derive(Clone, Debug, PartialEq, Eq)]
pub enum SyncEvent {
    /// The list reported its state: fully loaded or not.
    ListState { fully_loaded: bool },
    /// A sync round ended well.
    Synced,
    /// A sync round failed.
    SyncFailed(String),
    /// The stream of syncs ended.
    StreamEnded,
}

/// A phase as a value of specifications.
pub enum PhaseView {
    Growing,
    Settling,
    Ready,
    Failed(Seq<char>),
}

/// An event as a value of specifications.
pub enum SyncEventView {
    ListState { fully_loaded: bool },
    Synced,
    SyncFailed(Seq<char>),
    StreamEnded,
}

impl View for DiscoveryPhase {
    type V = PhaseView;

    open spec fn view(&self) -> PhaseView {
        match *self {
            DiscoveryPhase::Growing => PhaseView::Growing,
            DiscoveryPhase::Settling => PhaseView::Settling,
            DiscoveryPhase::Ready => PhaseView::Ready,
            DiscoveryPhase::Failed(message) => PhaseView::Failed(message@),
        }
    }
}

impl View for SyncEvent {
    type V = SyncEventView;

    open spec fn view(&self) -> SyncEventView {
        match *self {
            SyncEvent::ListState { fully_loaded } => SyncEventView::ListState { fully_loaded },
            SyncEvent::Synced => SyncEventView::Synced,
            SyncEvent::SyncFailed(message) => SyncEventView::SyncFailed(message@),
            SyncEvent::StreamEnded => SyncEventView::StreamEnded,
        }
    }
}

/// The phase after an event. While the list grows, only its being fully
/// loaded or a failed sync change the phase; once it is fully loaded, the
/// next sync, failed or not, or the end of the stream ends discovery.
pub open spec fn phase_after(phase: PhaseView, event: SyncEventView) -> PhaseView {
    match phase {
        PhaseView::Growing => match event {
            SyncEventView::ListState { fully_loaded } => if fully_loaded {
                PhaseView::Settling
            } else {
                PhaseView::Growing
            },
            SyncEventView::SyncFailed(message) => PhaseView::Failed(message),
            _ => PhaseView::Growing,
        },
        PhaseView::Settling => match event {
            SyncEventView::Synced | SyncEventView::StreamEnded => PhaseView::Ready,
            SyncEventView::SyncFailed(message) => PhaseView::Failed(message),
            SyncEventView::ListState { .. } => PhaseView::Settling,
        },
        other => other,
    }
}

impl DiscoveryPhase {
    /// The phase in which discovery begins, given whether the list is
    /// fully loaded already.
    pub fn start(fully_loaded: bool) -> (phase: DiscoveryPhase)
        ensures
            phase@ == if fully_loaded {
                PhaseView::Settling
            } else {
                PhaseView::Growing
            },
    {
        if fully_loaded {
            DiscoveryPhase::Settling
        } else {
            DiscoveryPhase::Growing
        }
    }

    /// The phase after `event`.
    pub fn advance(self, event: SyncEvent) -> (next: DiscoveryPhase)
        ensures
            next@ == phase_after(self@, event@),
    {
        match self {
            DiscoveryPhase::Growing => match event {
                SyncEvent::ListState { fully_loaded } => if fully_loaded {
                    DiscoveryPhase::Settling
                } else {
                    DiscoveryPhase::Growing
                },
                SyncEvent::SyncFailed(message) => DiscoveryPhase::Failed(message),
                _ => DiscoveryPhase::Growing,
            },
            DiscoveryPhase::Settling => match event {
                SyncEvent::Synced | SyncEvent::StreamEnded => DiscoveryPhase::Ready,
                SyncEvent::SyncFailed(message) => DiscoveryPhase::Failed(message),
                SyncEvent::ListState { .. } => DiscoveryPhase::Settling,
            },
            other => other,
        }
    }

    /// Whether discovery is over, well or not.
    pub fn is_over(&self) -> (over: bool)
        ensures
            over == (self@ is Ready || self@ is Failed),
    {
        match self {
            DiscoveryPhase::Ready | DiscoveryPhase::Failed(_) => true,
            _ => false,
        }
    }
}

} // verus!
