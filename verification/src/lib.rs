//! Library core of the Mixar DJ application: the track pool and its folder
//! and playlist collections, per-track hot cues and loops, sampler banks,
//! performance history sessions and their XSPF documents and exports, key
//! notation, audio-path rules, stem and waveform tables, collection sync
//! rules, and the commands of the library worker with the events that
//! answer them.

pub mod text;
pub mod keyed;
pub mod paths;
pub mod audio_extensions;
pub mod error;
pub mod key_format;
pub mod types;
pub mod stems;
pub mod tags;
pub mod history;
pub mod records;
pub mod manager;
pub mod model;
pub mod transport;
pub mod source;
pub mod library;
pub mod worker;
pub mod lookup;
pub mod scan;
pub mod waveform;
