//! The sustain simulator as the contracts see it: its state, what each event
//! does to the state, and what each event may send to the output.
//!
//! The order in which pending note-offs are replayed is left open, so what is
//! sent is described by a relation and not computed.

use crate::event::MidiEvent;
use crate::pedal::exceeds_half;
use crate::sustain::{BlockCC, FakeSustainParams};
use vstd::prelude::*;

verus! {

/// Whether `replayed` hands back what `held_notes` holds: one event for each
/// key, each event as it was stored, in any order.
pub open spec fn is_replay_of<X>(
    replayed: Seq<MidiEvent<X>>,
    held_notes: Map<u8, MidiEvent<X>>,
) -> bool {
    &&& replayed.len() == held_notes.len()
    &&& replayed.no_duplicates()
    &&& forall|i: int|
        0 <= i < replayed.len() ==> (#[trigger] replayed[i] matches MidiEvent::NoteOff { note, .. }
            && held_notes.contains_key(note) && held_notes[note] == replayed[i])
    &&& forall|note: u8|
        held_notes.contains_key(note) ==> replayed.contains(#[trigger] held_notes[note])
}

/// The state of the sustain simulator as the contracts see it.
pub struct SustainView<X> {
    /// For each note whose release is pending, the latest note-off received
    /// for it.
    pub held_notes: Map<u8, MidiEvent<X>>,
    /// Whether the pedal's last value was above the threshold.
    pub sustain_held: bool,
}

impl<X> SustainView<X> {
    /// The state of a new processor: pedal up, nothing pending.
    pub open spec fn initial() -> Self {
        SustainView { held_notes: Map::empty(), sustain_held: false }
    }

    /// The invariant of the state: every pending event is a note-off filed
    /// under its own note, and nothing is pending while the pedal is up.
    pub open spec fn valid(self) -> bool {
        &&& self.held_notes.dom().finite()
        &&& forall|note: u8| #[trigger]
            self.held_notes.contains_key(note) ==> self.held_notes[note].is_note_off_for(note)
        &&& !self.sustain_held ==> self.held_notes == Map::<u8, MidiEvent<X>>::empty()
    }

    /// Whether `event` comes from the controller that `params` takes for the
    /// pedal.
    pub open spec fn is_pedal(params: FakeSustainParams, event: MidiEvent<X>) -> bool {
        event matches MidiEvent::ControlChange { controller_number, .. } && controller_number
            == params.cc
    }

    /// Whether `event` is held back: a note-off while the pedal is down.
    pub open spec fn defers(self, event: MidiEvent<X>) -> bool {
        self.sustain_held && event is NoteOff
    }

    /// Whether `event` lets the pedal go: the pedal is down and its
    /// controller reports a value that is not above one half.
    pub open spec fn releases(self, params: FakeSustainParams, event: MidiEvent<X>) -> bool {
        self.sustain_held && (event matches MidiEvent::ControlChange {
            controller_number,
            value,
            ..
        } && controller_number == params.cc && !exceeds_half(value))
    }

    /// Whether `event` itself is forwarded: unless it is held back, or comes
    /// from the pedal while the pedal's events are blocked.
    pub open spec fn forwards(self, params: FakeSustainParams, event: MidiEvent<X>) -> bool {
        !self.defers(event) && !(Self::is_pedal(params, event) && params.block == BlockCC::Block)
    }

    /// The state that `event` leaves behind.
    pub open spec fn after(self, params: FakeSustainParams, event: MidiEvent<X>) -> Self {
        match event {
            MidiEvent::NoteOff { note, .. } => if self.sustain_held {
                SustainView { held_notes: self.held_notes.insert(note, event), ..self }
            } else {
                self
            },
            MidiEvent::ControlChange { controller_number, value, .. } => if controller_number
                == params.cc {
                SustainView {
                    held_notes: if self.releases(params, event) {
                        Map::empty()
                    } else {
                        self.held_notes
                    },
                    sustain_held: exceeds_half(value),
                }
            } else {
                self
            },
            _ => self,
        }
    }

    /// How many pending note-offs `event` sets free.
    pub open spec fn replayed_len(self, params: FakeSustainParams, event: MidiEvent<X>) -> nat {
        if self.releases(params, event) {
            self.held_notes.len()
        } else {
            0
        }
    }

    /// How many events `event` sends to the output.
    pub open spec fn emitted_len(self, params: FakeSustainParams, event: MidiEvent<X>) -> nat {
        self.replayed_len(params, event) + if self.forwards(params, event) {
            1nat
        } else {
            0nat
        }
    }

    /// Whether `produced` is what `event` may send to the output: first the
    /// pending note-offs if the pedal is let go, in any order, then the event
    /// itself if it is forwarded.
    pub open spec fn emits(
        self,
        params: FakeSustainParams,
        event: MidiEvent<X>,
        produced: Seq<MidiEvent<X>>,
    ) -> bool {
        let replayed = self.replayed_len(params, event) as int;
        &&& produced.len() == self.emitted_len(params, event)
        &&& self.releases(params, event) ==> is_replay_of(
            produced.take(replayed),
            self.held_notes,
        )
        &&& self.forwards(params, event) ==> produced[replayed] == event
    }

    /// The state that a run of events leaves behind, each event met in the
    /// state that the events before it left.
    pub open spec fn after_all(self, params: FakeSustainParams, events: Seq<MidiEvent<X>>) -> Self
        decreases events.len(),
    {
        if events.len() == 0 {
            self
        } else {
            self.after_all(params, events.drop_last()).after(params, events.last())
        }
    }

    /// Whether `produced` is what a run of events may send to the output:
    /// what each event may send, one after the other in the order of the
    /// events.
    pub open spec fn emits_all(
        self,
        params: FakeSustainParams,
        events: Seq<MidiEvent<X>>,
        produced: Seq<MidiEvent<X>>,
    ) -> bool
        decreases events.len(),
    {
        if events.len() == 0 {
            produced.len() == 0
        } else {
            let before = self.after_all(params, events.drop_last());
            let earlier = produced.len() - before.emitted_len(params, events.last());
            &&& 0 <= earlier
            &&& self.emits_all(params, events.drop_last(), produced.take(earlier))
            &&& before.emits(params, events.last(), produced.skip(earlier))
        }
    }
}

} // verus!
