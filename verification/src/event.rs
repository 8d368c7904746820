//! The event model shared by both processors.

use vstd::prelude::*;

verus! {

/// One event of the host's time-ordered stream.
///
/// `timing` is the sample offset of the event within the current processing
/// block. `note` and `controller_number` are MIDI numbers, 0 to 127 in a
/// well-formed stream. `velocity` and `value` are normalized numbers between
/// zero and one, carried as the bit pattern of an IEEE 754 single-precision
/// number (what `f32::to_bits` returns), so that an event passes through a
/// processor bit for bit.
///
/// Every kind of event that the processors never look into travels in
/// `Other`, with whatever payload `X` the host needs to restore it.
#[derive(Copy, Debug, PartialEq, Eq)]
pub enum MidiEvent<X> {
    /// A key goes down.
    NoteOn { timing: u32, voice_id: Option<i32>, channel: u8, note: u8, velocity: u32 },
    /// A key comes up.
    NoteOff { timing: u32, voice_id: Option<i32>, channel: u8, note: u8, velocity: u32 },
    /// A continuous controller, such as a pedal, reports a new value.
    ControlChange { timing: u32, channel: u8, controller_number: u8, value: u32 },
    /// Any other event.
    Other(X),
}

impl<X> MidiEvent<X> {
    /// Whether the event is a note-off for `note`.
    pub open spec fn is_note_off_for(self, note: u8) -> bool {
        self matches MidiEvent::NoteOff { note: released, .. } && released == note
    }
}

impl<X: Copy> Clone for MidiEvent<X> {
    fn clone(&self) -> (copy: Self)
        ensures
            copy == *self,
    {
        *self
    }
}

} // verus!
