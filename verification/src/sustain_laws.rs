//! What holds of the sustain simulator in every state and for every run of
//! events, proved from its model.

use crate::event::MidiEvent;
use crate::sustain::{BlockCC, FakeSustainParams};
use crate::sustain_model::{is_replay_of, SustainView};
use vstd::prelude::*;
use vstd::relations::injective_on;
use vstd::set_lib::{lemma_int_range, lemma_len_subset, lemma_map_size, set_int_range};

verus! {

/// The last note-off for `note` in `events`, if there is one.
pub open spec fn latest_note_off<X>(events: Seq<MidiEvent<X>>, note: u8) -> Option<MidiEvent<X>>
    decreases events.len(),
{
    if events.len() == 0 {
        None
    } else if events.last().is_note_off_for(note) {
        Some(events.last())
    } else {
        latest_note_off(events.drop_last(), note)
    }
}

/// What should be pending for `note` once the note-offs `offs` have come on
/// top of `held_notes`: the latest of them for that note, or else what was
/// pending before.
pub open spec fn pending_after<X>(
    held_notes: Map<u8, MidiEvent<X>>,
    offs: Seq<MidiEvent<X>>,
    note: u8,
) -> Option<MidiEvent<X>> {
    match latest_note_off(offs, note) {
        Some(off) => Some(off),
        None => if held_notes.contains_key(note) {
            Some(held_notes[note])
        } else {
            None
        },
    }
}

/// Every event leaves a valid state valid. If it lets the pedal go, nothing
/// is pending afterwards.
pub proof fn lemma_after_keeps_valid<X>(
    state: SustainView<X>,
    params: FakeSustainParams,
    event: MidiEvent<X>,
)
    requires
        state.valid(),
    ensures
        state.after(params, event).valid(),
        state.sustain_held && !state.after(params, event).sustain_held ==> state.after(
            params,
            event,
        ).held_notes == Map::<u8, MidiEvent<X>>::empty(),
{
}

/// Every run of events leaves a valid state valid.
pub proof fn lemma_after_all_keeps_valid<X>(
    state: SustainView<X>,
    params: FakeSustainParams,
    events: Seq<MidiEvent<X>>,
)
    requires
        state.valid(),
    ensures
        state.after_all(params, events).valid(),
    decreases events.len(),
{
    if events.len() > 0 {
        lemma_after_all_keeps_valid(state, params, events.drop_last());
        lemma_after_keeps_valid(
            state.after_all(params, events.drop_last()),
            params,
            events.last(),
        );
    }
}

/// While the pedal is up, a note-off is forwarded at once and nothing is put
/// aside.
pub proof fn lemma_note_off_passes_while_up<X>(
    state: SustainView<X>,
    params: FakeSustainParams,
    event: MidiEvent<X>,
    produced: Seq<MidiEvent<X>>,
)
    requires
        !state.sustain_held,
        event is NoteOff,
    ensures
        state.after(params, event) == state,
        state.emits(params, event, produced) <==> produced == seq![event],
{
    if state.emits(params, event, produced) {
        assert(produced =~= seq![event]);
    }
}

/// An event that is neither a note-off nor the pedal's is forwarded at once,
/// whatever the state, and changes nothing.
pub proof fn lemma_other_events_pass<X>(
    state: SustainView<X>,
    params: FakeSustainParams,
    event: MidiEvent<X>,
    produced: Seq<MidiEvent<X>>,
)
    requires
        !(event is NoteOff),
        !SustainView::is_pedal(params, event),
    ensures
        state.after(params, event) == state,
        state.emits(params, event, produced) <==> produced == seq![event],
{
    if state.emits(params, event, produced) {
        assert(produced =~= seq![event]);
    }
}

/// A replay holds exactly one note-off for each note that is pending, the
/// one that is pending for it, and none for any other note.
pub proof fn lemma_replay_once_per_note<X>(
    state: SustainView<X>,
    replayed: Seq<MidiEvent<X>>,
    note: u8,
)
    requires
        state.valid(),
        is_replay_of(replayed, state.held_notes),
    ensures
        state.held_notes.contains_key(note) <==> exists|i: int|
            0 <= i < replayed.len() && (#[trigger] replayed[i]).is_note_off_for(note),
        forall|i: int|
            0 <= i < replayed.len() && (#[trigger] replayed[i]).is_note_off_for(note)
                ==> replayed[i] == state.held_notes[note],
        forall|i: int, j: int|
            0 <= i < replayed.len() && 0 <= j < replayed.len()
                && (#[trigger] replayed[i]).is_note_off_for(note)
                && (#[trigger] replayed[j]).is_note_off_for(note) ==> i == j,
{
}

/// Of two note-offs for one note that arrive while the pedal is down, the
/// earlier one leaves no trace: the state is as if it had never come, and a
/// replay holds the later one and not the earlier.
pub proof fn lemma_later_note_off_wins<X>(
    state: SustainView<X>,
    params: FakeSustainParams,
    note: u8,
    earlier: MidiEvent<X>,
    later: MidiEvent<X>,
    replayed: Seq<MidiEvent<X>>,
)
    requires
        state.valid(),
        state.sustain_held,
        earlier.is_note_off_for(note),
        later.is_note_off_for(note),
        is_replay_of(replayed, state.after(params, earlier).after(params, later).held_notes),
    ensures
        state.after(params, earlier).after(params, later) == state.after(params, later),
        replayed.contains(later),
        earlier != later ==> !replayed.contains(earlier),
{
    let both = state.after(params, earlier).after(params, later);
    assert(both.held_notes =~= state.after(params, later).held_notes);
    lemma_after_keeps_valid(state, params, later);
    lemma_replay_once_per_note(both, replayed, note);
}

/// While the pedal is down, a run of note-offs sends nothing and piles up:
/// afterwards the latest note-off of the run is pending for each note that
/// the run names, and what was pending for any other note still is.
pub proof fn lemma_note_offs_pile_up<X>(
    state: SustainView<X>,
    params: FakeSustainParams,
    offs: Seq<MidiEvent<X>>,
)
    requires
        state.sustain_held,
        forall|i: int| 0 <= i < offs.len() ==> (#[trigger] offs[i]) is NoteOff,
    ensures
        state.after_all(params, offs).sustain_held,
        forall|produced: Seq<MidiEvent<X>>| #[trigger]
            state.emits_all(params, offs, produced) <==> produced.len() == 0,
        forall|note: u8|
            (#[trigger] state.after_all(params, offs).held_notes.contains_key(note))
                <==> pending_after(state.held_notes, offs, note) is Some,
        forall|note: u8|
            state.after_all(params, offs).held_notes.contains_key(note) ==> Some(
                #[trigger] state.after_all(params, offs).held_notes[note],
            ) == pending_after(state.held_notes, offs, note),
    decreases offs.len(),
{
    if offs.len() > 0 {
        let front = offs.drop_last();
        let before = state.after_all(params, front);
        lemma_note_offs_pile_up(state, params, front);
        assert forall|produced: Seq<MidiEvent<X>>| #[trigger]
            state.emits_all(params, offs, produced) <==> produced.len() == 0 by {
            if produced.len() == 0 {
                assert(before.emits(params, offs.last(), produced.skip(0)));
            }
            if state.emits_all(params, offs, produced) {
                assert(state.emits_all(params, front, produced.take(produced.len() as int)));
            }
        }
    }
}

/// Letting the pedal go after a run of note-offs sends, for every note,
/// exactly one note-off if the run names the note or one was pending for it
/// before, and none otherwise. What is sent is the latest note-off of the run
/// for that note, or else what was pending, unchanged, whatever the order.
/// Nothing is pending afterwards.
pub proof fn lemma_release_after_note_offs<X>(
    state: SustainView<X>,
    params: FakeSustainParams,
    offs: Seq<MidiEvent<X>>,
    pedal_up: MidiEvent<X>,
    produced: Seq<MidiEvent<X>>,
    note: u8,
)
    requires
        state.valid(),
        state.sustain_held,
        forall|i: int| 0 <= i < offs.len() ==> (#[trigger] offs[i]) is NoteOff,
        state.after_all(params, offs).releases(params, pedal_up),
        state.after_all(params, offs).emits(params, pedal_up, produced),
    ensures
        pending_after(state.held_notes, offs, note) is Some <==> exists|i: int|
            0 <= i < produced.len() && (#[trigger] produced[i]).is_note_off_for(note),
        forall|i: int|
            0 <= i < produced.len() && (#[trigger] produced[i]).is_note_off_for(note) ==> Some(
                produced[i],
            ) == pending_after(state.held_notes, offs, note),
        forall|i: int, j: int|
            0 <= i < produced.len() && 0 <= j < produced.len()
                && (#[trigger] produced[i]).is_note_off_for(note)
                && (#[trigger] produced[j]).is_note_off_for(note) ==> i == j,
        state.after_all(params, offs).after(params, pedal_up) == SustainView::<X>::initial(),
{
    let piled = state.after_all(params, offs);
    let pending = piled.held_notes.len() as int;
    let replayed = produced.take(pending);
    lemma_note_offs_pile_up(state, params, offs);
    lemma_after_all_keeps_valid(state, params, offs);
    lemma_replay_once_per_note(piled, replayed, note);
    assert forall|i: int|
        0 <= i < produced.len() && (#[trigger] produced[i]).is_note_off_for(
            note,
        ) implies 0 <= i < pending && replayed[i] == produced[i] by {}
}

/// Whatever the pedal's event does to the pedal, `params.block` alone decides
/// whether the event itself is sent. With `Block` it is not: all that is sent
/// are replayed note-offs. With `Pass` it is sent, once and last, after the
/// replayed note-offs.
pub proof fn lemma_block_decides_pedal_event<X>(
    state: SustainView<X>,
    params: FakeSustainParams,
    event: MidiEvent<X>,
    produced: Seq<MidiEvent<X>>,
)
    requires
        SustainView::is_pedal(params, event),
        state.emits(params, event, produced),
    ensures
        state.forwards(params, event) <==> params.block == BlockCC::Pass,
        params.block == BlockCC::Block ==> !produced.contains(event),
        params.block == BlockCC::Pass ==> produced.len() > 0 && produced.last() == event
            && !produced.drop_last().contains(event),
        forall|i: int|
            0 <= i < state.replayed_len(params, event) ==> (#[trigger] produced[i]) is NoteOff,
        produced.len() == state.replayed_len(params, event) + (if params.block == BlockCC::Pass {
            1nat
        } else {
            0nat
        }),
{
    let replayed = state.replayed_len(params, event) as int;
    assert forall|i: int| 0 <= i < replayed implies (#[trigger] produced[i]) is NoteOff by {
        assert(produced.take(replayed)[i] == produced[i]);
    }
}

/// No more note-offs are pending than there are notes below `limit`, if
/// every pending one is for a note below `limit`.
pub proof fn lemma_pending_is_bounded<X>(state: SustainView<X>, limit: nat)
    requires
        state.valid(),
        forall|note: u8| state.held_notes.contains_key(note) ==> note < limit,
    ensures
        state.held_notes.len() <= limit,
{
    let notes = state.held_notes.dom();
    let widen = |note: u8| note as int;
    let numbers = notes.map(widen);
    lemma_map_size(notes, numbers, widen);
    lemma_int_range(0, limit as int);
    lemma_len_subset(numbers, set_int_range(0, limit as int));
}

/// A stream whose note-offs all name notes below `limit` never has more than
/// `limit` of them pending: for a well-formed stream no more than 128, the
/// room that a new processor is made with.
pub proof fn lemma_pending_stays_bounded<X>(
    state: SustainView<X>,
    params: FakeSustainParams,
    events: Seq<MidiEvent<X>>,
    limit: nat,
)
    requires
        state.valid(),
        forall|note: u8| state.held_notes.contains_key(note) ==> note < limit,
        forall|i: int, note: u8|
            0 <= i < events.len() && (#[trigger] events[i].is_note_off_for(note)) ==> note < limit,
    ensures
        forall|note: u8| #[trigger]
            state.after_all(params, events).held_notes.contains_key(note) ==> note < limit,
        state.after_all(params, events).held_notes.len() <= limit,
    decreases events.len(),
{
    if events.len() > 0 {
        let front = events.drop_last();
        let before = state.after_all(params, front);
        lemma_pending_stays_bounded(state, params, front, limit);
        assert forall|note: u8| #[trigger]
            before.after(params, events.last()).held_notes.contains_key(note) implies note
            < limit by {
            if !before.held_notes.contains_key(note) {
                assert(events[events.len() - 1].is_note_off_for(note));
            }
        }
    }
    lemma_after_all_keeps_valid(state, params, events);
    lemma_pending_is_bounded(state.after_all(params, events), limit);
}

/// Where one block ends and the next begins makes no difference to the
/// state: two runs one after the other leave what the joined run leaves.
pub proof fn lemma_after_all_joins<X>(
    state: SustainView<X>,
    params: FakeSustainParams,
    first: Seq<MidiEvent<X>>,
    second: Seq<MidiEvent<X>>,
)
    ensures
        state.after_all(params, first + second) == state.after_all(params, first).after_all(
            params,
            second,
        ),
    decreases second.len(),
{
    if second.len() == 0 {
        assert(first + second =~= first);
    } else {
        assert((first + second).drop_last() =~= first + second.drop_last());
        lemma_after_all_joins(state, params, first, second.drop_last());
    }
}

/// Nor does it make a difference to the output: what two runs may send one
/// after the other, the joined run may send.
pub proof fn lemma_emits_all_joins<X>(
    state: SustainView<X>,
    params: FakeSustainParams,
    first: Seq<MidiEvent<X>>,
    second: Seq<MidiEvent<X>>,
    sent_first: Seq<MidiEvent<X>>,
    sent_second: Seq<MidiEvent<X>>,
)
    requires
        state.emits_all(params, first, sent_first),
        state.after_all(params, first).emits_all(params, second, sent_second),
    ensures
        state.emits_all(params, first + second, sent_first + sent_second),
    decreases second.len(),
{
    if second.len() == 0 {
        assert(first + second =~= first);
        assert(sent_first + sent_second =~= sent_first);
    } else {
        let front = second.drop_last();
        let before = state.after_all(params, first).after_all(params, front);
        let earlier = sent_second.len() - before.emitted_len(params, second.last());
        let sent = sent_first + sent_second;
        assert((first + second).drop_last() =~= first + front);
        assert(sent.take(sent_first.len() + earlier) =~= sent_first + sent_second.take(earlier));
        assert(sent.skip(sent_first.len() + earlier) =~= sent_second.skip(earlier));
        lemma_after_all_joins(state, params, first, front);
        lemma_emits_all_joins(
            state,
            params,
            first,
            front,
            sent_first,
            sent_second.take(earlier),
        );
    }
}

} // verus!
