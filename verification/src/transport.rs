//! Deck and engine transport states and notifications.

use vstd::prelude::*;

verus! {

/// Audio deck state.
#[derive(Debug, Clone, Copy, PartialEq, Eq, Structural)]
pub enum DeckState {
    /// Deck is stopped.
    Stopped,
    /// Deck is playing.
    Playing,
    /// Deck is paused.
    Paused,
}

/// A transport notification raised by one deck.
#[derive(Debug, Clone, Copy, PartialEq, Eq, Structural)]
pub enum DeckTransportEvent {
    /// The loaded track played to its end.
    TrackEnded,
}

/// Engine-level transport notification (track ended, etc.).
#[derive(Debug, Clone, Copy, PartialEq, Eq, Structural)]
pub enum TransportEvent {
    TrackEnded { deck_id: usize },
}

impl TransportEvent {
    /// The engine-level form of a deck's event, tagged with the deck.
    pub fn from_deck(deck_id: usize, event: DeckTransportEvent) -> (e: Self)
        ensures
            match event {
                DeckTransportEvent::TrackEnded => e == (TransportEvent::TrackEnded { deck_id }),
            },
    {
        match event {
            DeckTransportEvent::TrackEnded => TransportEvent::TrackEnded { deck_id },
        }
    }
}

/// Accounting for one time-stretch pull.
#[derive(Clone, Copy, Debug, PartialEq, Eq, Structural)]
pub struct StretchPullStats {
    /// Source frames passed to the feed.
    pub source_frames_fed: usize,
    /// Output frames written.
    pub out_frames: usize,
}

impl Default for StretchPullStats {
    fn default() -> (s: Self)
        ensures
            s.source_frames_fed == 0 && s.out_frames == 0,
    {
        StretchPullStats { source_frames_fed: 0, out_frames: 0 }
    }
}

} // verus!
