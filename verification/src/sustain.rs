//! The sustain simulator: note-offs are withheld while the pedal is down.

use crate::event::MidiEvent;
use crate::pedal::pedal_held;
use crate::sustain_model::{is_replay_of, SustainView};
use std::collections::HashMap;
use vstd::prelude::*;
use vstd::std_specs::hash::spec_hash_map_iter;
use vstd::std_specs::iter::IteratorSpec;

verus! {

broadcast use vstd::std_specs::hash::group_hash_axioms;

/// What becomes of the pedal's own controller events.
#[derive(Clone, Copy, Debug, PartialEq, Eq, Structural)]
pub enum BlockCC {
    /// The pedal event is forwarded as well.
    Pass,
    /// The pedal event is swallowed.
    Block,
}

/// The configuration of the sustain simulator. It belongs to the host, which
/// may change it between any two events.
#[derive(Clone, Copy, Debug, PartialEq, Eq)]
pub struct FakeSustainParams {
    /// The controller number that is taken for the sustain pedal.
    pub cc: u8,
    /// Whether the pedal's own events are forwarded.
    pub block: BlockCC,
}

impl Default for FakeSustainParams {
    /// Controller 64, the pedal's events forwarded.
    fn default() -> (params: Self)
        ensures
            params.cc == 64,
            params.block == BlockCC::Pass,
    {
        FakeSustainParams { cc: 64, block: BlockCC::Pass }
    }
}

/// The sustain simulator.
///
/// While the pedal is down, every note-off is put aside, the latest one for
/// each note; when the pedal is let go, they are all sent on.
pub struct FakeSustain<X> {
    held_notes: HashMap<u8, MidiEvent<X>>,
    sustain_held: bool,
}

impl<X> View for FakeSustain<X> {
    type V = SustainView<X>;

    closed spec fn view(&self) -> SustainView<X> {
        SustainView { held_notes: self.held_notes@, sustain_held: self.sustain_held }
    }
}

impl<X: Copy> Default for FakeSustain<X> {
    /// The same as [`FakeSustain::new`].
    fn default() -> (s: Self)
        ensures
            s@ == SustainView::<X>::initial(),
            s@.valid(),
    {
        FakeSustain::new()
    }
}

impl<X: Copy> FakeSustain<X> {
    /// A processor with the pedal up and nothing pending, with room for a
    /// pending note-off for every MIDI note.
    pub fn new() -> (s: Self)
        ensures
            s@ == SustainView::<X>::initial(),
            s@.valid(),
    {
        FakeSustain { held_notes: HashMap::with_capacity(128), sustain_held: false }
    }

    /// Whether the pedal is down.
    pub fn sustain_held(&self) -> (held: bool)
        ensures
            held == self@.sustain_held,
    {
        self.sustain_held
    }

    /// The note-off that is pending for `note`, if there is one.
    pub fn pending(&self, note: u8) -> (event: Option<MidiEvent<X>>)
        ensures
            event == (if self@.held_notes.contains_key(note) {
                Some(self@.held_notes[note])
            } else {
                None
            }),
    {
        match self.held_notes.get(&note) {
            Some(event) => Some(*event),
            None => None,
        }
    }

    /// Decides the fate of one event and appends to `out` what the host is
    /// to receive for it.
    ///
    /// * A note-off is put aside while the pedal is down, in place of an
    ///   earlier one for the same note, and forwarded otherwise.
    /// * An event of the controller `params.cc` sets the pedal: down if its
    ///   value is greater than one half, up otherwise. If that lets the pedal
    ///   go, the pending note-offs are sent first, each one unchanged, in no
    ///   particular order. The event itself follows unless `params.block`
    ///   blocks it.
    /// * Every other event is forwarded unchanged.
    pub fn process_event(
        &mut self,
        params: &FakeSustainParams,
        event: MidiEvent<X>,
        out: &mut Vec<MidiEvent<X>>,
    )
        requires
            old(self)@.valid(),
        ensures
            final(self)@.valid(),
            final(self)@ == old(self)@.after(*params, event),
            final(out)@.len() == old(out)@.len() + old(self)@.emitted_len(*params, event),
            final(out)@.take(old(out)@.len() as int) == old(out)@,
            old(self)@.emits(*params, event, final(out)@.skip(old(out)@.len() as int)),
    {
        let ghost before = out@;
        let ghost replayed = self@.replayed_len(*params, event) as int;
        let mut send_event = true;
        match event {
            MidiEvent::NoteOff { note, .. } => {
                if self.sustain_held {
                    self.held_notes.insert(note, event);
                    send_event = false;
                }
            },
            MidiEvent::ControlChange { controller_number, value, .. } => {
                if controller_number == params.cc {
                    let sustain_held_new = pedal_held(value);
                    if self.sustain_held && !sustain_held_new {
                        self.release(out);
                    }
                    self.sustain_held = sustain_held_new;
                    if params.block == BlockCC::Block {
                        send_event = false;
                    }
                }
            },
            _ => {},
        }
        let ghost sent = out@.skip(before.len() as int);
        if send_event {
            out.push(event);
        }
        proof {
            let produced = out@.skip(before.len() as int);
            assert(produced.take(replayed) == sent);
        }
    }

    /// Handles the events of one processing block in the order given, each
    /// as [`FakeSustain::process_event`] does, and appends to `out` what the
    /// host is to receive. What is pending at the end of the block stays
    /// pending for the next.
    pub fn process(
        &mut self,
        params: &FakeSustainParams,
        events: &[MidiEvent<X>],
        out: &mut Vec<MidiEvent<X>>,
    )
        requires
            old(self)@.valid(),
        ensures
            final(self)@.valid(),
            final(self)@ == old(self)@.after_all(*params, events@),
            old(out)@.len() <= final(out)@.len(),
            final(out)@.take(old(out)@.len() as int) == old(out)@,
            old(self)@.emits_all(*params, events@, final(out)@.skip(old(out)@.len() as int)),
    {
        let ghost start = self@;
        let ghost before = out@;
        let mut i: usize = 0;
        while i < events.len()
            invariant
                i <= events.len(),
                self@.valid(),
                self@ == start.after_all(*params, events@.take(i as int)),
                before.len() <= out@.len(),
                out@.take(before.len() as int) == before,
                start.emits_all(*params, events@.take(i as int), out@.skip(before.len() as int)),
            decreases events.len() - i,
        {
            let ghost mid = out@;
            self.process_event(params, events[i], out);
            proof {
                let run = events@.take(i + 1);
                let produced = out@.skip(before.len() as int);
                let earlier = mid.len() - before.len();
                assert(run.drop_last() == events@.take(i as int));
                assert(produced.take(earlier) == mid.skip(before.len() as int));
                assert(produced.skip(earlier) == out@.skip(mid.len() as int));
                assert(out@.take(before.len() as int) == out@.take(mid.len() as int).take(
                    before.len() as int,
                ));
            }
            i += 1;
        }
        proof {
            assert(events@.take(events@.len() as int) == events@);
        }
    }

    /// Sends every pending note-off to `out` and forgets it.
    fn release(&mut self, out: &mut Vec<MidiEvent<X>>)
        requires
            old(self)@.valid(),
        ensures
            final(self)@ == (SustainView { held_notes: Map::empty(), ..old(self)@ }),
            final(out)@.len() == old(out)@.len() + old(self)@.held_notes.len(),
            final(out)@.take(old(out)@.len() as int) == old(out)@,
            is_replay_of(final(out)@.skip(old(out)@.len() as int), old(self)@.held_notes),
    {
        let ghost before = out@;
        let ghost walk = spec_hash_map_iter(&self.held_notes).remaining();
        for entry in it: self.held_notes.iter()
            invariant
                it.seq() == walk,
                out@.len() == before.len() + it.index(),
                out@.take(before.len() as int) == before,
                forall|i: int|
                    0 <= i < it.index() ==> out@[before.len() + i] == *(#[trigger] walk[i]).1,
        {
            let (_, off) = entry;
            out.push(*off);
        }
        proof {
            // The walk meets every entry of the map once, and what was sent
            // are the events of the walk in its order.
            let replayed = out@.skip(before.len() as int);
            let held = self.held_notes@;
            assert forall|i: int| 0 <= i < replayed.len() implies (
            #[trigger] replayed[i] matches MidiEvent::NoteOff { note, .. } && held.contains_key(
                note,
            ) && held[note] == replayed[i]) by {
                assert(held.contains_key(*walk[i].0));
            }
            assert forall|i: int, j: int|
                0 <= i < replayed.len() && 0 <= j < replayed.len() && i != j implies replayed[i]
                != replayed[j] by {
                assert(held.contains_key(*walk[i].0));
                assert(held.contains_key(*walk[j].0));
            }
            assert forall|note: u8| held.contains_key(note) implies replayed.contains(
                #[trigger] held[note],
            ) by {
                let i = choose|i: int| 0 <= i < walk.len() && walk[i] == (&note, &held[note]);
                assert(replayed[i] == held[note]);
            }
        }
        self.held_notes.clear();
    }
}

} // verus!
