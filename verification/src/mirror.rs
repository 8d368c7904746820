//! The keyboard mirror: every note is reflected around a fixed axis.

use crate::event::MidiEvent;
use vstd::prelude::*;

verus! {

/// The axis of reflection: G#4.
pub const MIRROR: i8 = 68;

/// The reflection of `note` around [`MIRROR`]: `MIRROR - (note - MIRROR)`,
/// reduced into the range of a byte.
///
/// For the notes 0 to 127 no reduction takes place and the result is
/// `136 - note`. It is a MIDI note again exactly for the notes 9 to 127; the
/// notes 0 to 8 land on 136 down to 128, which is kept as it is and not
/// clamped.
pub open spec fn mirrored(note: u8) -> u8 {
    ((2 * MIRROR - note) % 256) as u8
}

/// Reflects a note number around [`MIRROR`].
pub fn mirror_note(note: u8) -> (reflected: u8)
    ensures
        reflected == mirrored(note),
{
    let distance: i16 = note as i16 - MIRROR as i16;
    let wide: i16 = MIRROR as i16 - distance;
    assert(wide as u8 == (if wide < 0 {
        wide + 256
    } else {
        wide as int
    })) by (bit_vector)
        requires
            -119 <= wide <= 136,
    ;
    wide as u8
}

/// The event with its note reflected: a note-on or note-off keeps every
/// field but `note`, any other event is left as it is.
pub open spec fn mirrored_event<X>(event: MidiEvent<X>) -> MidiEvent<X> {
    match event {
        MidiEvent::NoteOn { timing, voice_id, channel, note, velocity } => MidiEvent::NoteOn {
            timing,
            voice_id,
            channel,
            note: mirrored(note),
            velocity,
        },
        MidiEvent::NoteOff { timing, voice_id, channel, note, velocity } => MidiEvent::NoteOff {
            timing,
            voice_id,
            channel,
            note: mirrored(note),
            velocity,
        },
        _ => event,
    }
}

/// The keyboard mirror. It keeps no state: every event is answered by
/// exactly one event, and no event depends on another.
#[derive(Clone, Copy, Debug)]
pub struct KeyboardMirror {}

impl Default for KeyboardMirror {
    fn default() -> Self {
        KeyboardMirror {}
    }
}

impl KeyboardMirror {
    /// A new mirror.
    pub fn new() -> Self {
        KeyboardMirror {}
    }

    /// Reflects the note of a note-on or note-off and hands every other
    /// event back unchanged.
    pub fn process_event<X>(&self, event: MidiEvent<X>) -> (reflected: MidiEvent<X>)
        ensures
            reflected == mirrored_event(event),
    {
        match event {
            MidiEvent::NoteOn { timing, voice_id, channel, note, velocity } => {
                let mirrored = mirror_note(note);
                MidiEvent::NoteOn { timing, voice_id, channel, note: mirrored, velocity }
            },
            MidiEvent::NoteOff { timing, voice_id, channel, note, velocity } => {
                let mirrored = mirror_note(note);
                MidiEvent::NoteOff { timing, voice_id, channel, note: mirrored, velocity }
            },
            _ => event,
        }
    }

    /// Handles the events of one processing block in the order given and
    /// appends to `out` the reflection of each.
    pub fn process<X: Copy>(&self, events: &[MidiEvent<X>], out: &mut Vec<MidiEvent<X>>)
        ensures
            final(out)@ == old(out)@ + events@.map_values(|event| mirrored_event(event)),
    {
        let ghost before = out@;
        let mut i: usize = 0;
        while i < events.len()
            invariant
                i <= events.len(),
                out@ == before + events@.take(i as int).map_values(|event| mirrored_event(event)),
            decreases events.len() - i,
        {
            let reflected = self.process_event(events[i]);
            out.push(reflected);
            i += 1;
        }
    }
}

/// Reflecting a note twice gives the note back, for every byte and so for
/// every MIDI note.
pub proof fn lemma_mirror_involution(note: u8)
    ensures
        mirrored(mirrored(note)) == note,
{
}

/// For a MIDI note the reflection is `2 * MIRROR - note` as it stands. It is
/// a MIDI note again unless the note is below 9: the notes 0 to 8 are sent
/// to 136 down to 128.
pub proof fn lemma_mirror_of_midi_note(note: u8)
    requires
        note <= 127,
    ensures
        mirrored(note) == 2 * MIRROR - note,
        mirrored(note) <= 127 <==> 9 <= note,
{
}

/// Reflecting an event twice gives the event back.
pub proof fn lemma_mirror_event_involution<X>(event: MidiEvent<X>)
    ensures
        mirrored_event(mirrored_event(event)) == event,
{
    match event {
        MidiEvent::NoteOn { note, .. } => lemma_mirror_involution(note),
        MidiEvent::NoteOff { note, .. } => lemma_mirror_involution(note),
        _ => {},
    }
}

} // verus!
