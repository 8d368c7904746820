//! Verified MIDI event filters for real-time audio hosts.
//!
//! Two independent processors share one shape: the host hands over a
//! time-ordered stream of events, one at a time, and every event is either
//! forwarded, changed, held back for later, or answered with further events.
//!
//! * [`FakeSustain`] withholds note-off events while a pedal controller is
//!   held down and replays them when the pedal is let go.
//! * [`KeyboardMirror`] reflects the pitch of every note around a fixed axis.
//!
//! Both are meant for an audio callback. The sustain simulator is made with
//! room for one pending note-off per MIDI note, and all output is appended to
//! a buffer that the caller owns, so that a host can keep allocation out of
//! the callback.

pub mod event;
pub mod mirror;
pub mod pedal;
pub mod sustain;
pub mod sustain_laws;
pub mod sustain_model;

pub use event::MidiEvent;
pub use mirror::{mirror_note, KeyboardMirror, MIRROR};
pub use sustain::{BlockCC, FakeSustain, FakeSustainParams};
