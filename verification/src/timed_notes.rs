//! Timed notes: a note-on whose note-off the fugue schedules itself, kept
//! in a fixed ring of pending note-offs until its end comes round.
//!
//! Where a note-off is due is the caller's business (`end`, carried
//! through unchanged); this module decides which slot the note takes,
//! which earlier note a same-pitch retrigger or a full ring releases, and
//! which messages go out in which order.

use vstd::prelude::*;
use crate::midi::NoteMessage;
use crate::notes::ActiveNotes;

verus! {

/// Number of slots in a fugue's ring of pending note-offs.
pub const PENDING_RING_SLOTS: usize = 128;

/// A note-off scheduled by a timed note: when it is due (`end`), the note
/// it releases, and its place in insertion order (`seq`).
#[derive(Clone, Copy, Debug)]
pub struct PendingOff<B> {
    pub end: B,
    pub channel: u8,
    pub note: u8,
    pub seq: u64,
}

/// Whether a slot holds the pending note-off of `(channel, note)`.
pub open spec fn holds_note<B>(slot: Option<PendingOff<B>>, channel: u8, note: u8) -> bool {
    slot matches Some(p) && p.channel == channel && p.note == note
}

/// A ring of the right size whose pending notes are all valid MIDI notes.
pub open spec fn ring_wf<B>(ring: Seq<Option<PendingOff<B>>>) -> bool {
    &&& ring.len() == PENDING_RING_SLOTS
    &&& forall|i: int| 0 <= i < ring.len() ==> (#[trigger] ring[i] matches Some(p) ==> p.note < 128)
}

/// Whether two slots both hold a note-off for one `(channel, note)`.
pub open spec fn same_key<B>(a: Option<PendingOff<B>>, b: Option<PendingOff<B>>) -> bool {
    a matches Some(p) && holds_note(b, p.channel, p.note)
}

/// No two slots hold a note-off for the same `(channel, note)`.
pub open spec fn keys_unique<B>(ring: Seq<Option<PendingOff<B>>>) -> bool {
    forall|i: int, j: int| 0 <= i < j < ring.len() ==> !same_key(#[trigger] ring[i], #[trigger] ring[j])
}

/// The first slot at or after `from` that holds `(channel, note)`, or the
/// ring's length where none does.
pub open spec fn first_holding<B>(ring: Seq<Option<PendingOff<B>>>, channel: u8, note: u8, from: int) -> int
    decreases ring.len() - from,
{
    if from < 0 || from >= ring.len() {
        ring.len() as int
    } else if holds_note(ring[from], channel, note) {
        from
    } else {
        first_holding(ring, channel, note, from + 1)
    }
}

/// The first empty slot at or after `from`, or the ring's length where
/// none is empty.
pub open spec fn first_free<B>(ring: Seq<Option<PendingOff<B>>>, from: int) -> int
    decreases ring.len() - from,
{
    if from < 0 || from >= ring.len() {
        ring.len() as int
    } else if ring[from] is None {
        from
    } else {
        first_free(ring, from + 1)
    }
}

/// The occupied slot with the smallest sequence number, the first such
/// slot on a tie; -1 for a ring with nothing pending.
pub open spec fn oldest_slot<B>(ring: Seq<Option<PendingOff<B>>>) -> int
    decreases ring.len(),
{
    if ring.len() == 0 {
        -1
    } else {
        let k = oldest_slot(ring.drop_last());
        match ring.last() {
            None => k,
            Some(p) => if k < 0 || p.seq < ring[k]->Some_0.seq { ring.len() - 1 } else { k },
        }
    }
}

/// The ring once a same-pitch retrigger has released the first pending
/// note-off of `(channel, note)`, if there is one.
pub open spec fn after_retrigger<B>(ring: Seq<Option<PendingOff<B>>>, channel: u8, note: u8) -> Seq<Option<PendingOff<B>>> {
    let r = first_holding(ring, channel, note, 0);
    if r < ring.len() { ring.update(r, None) } else { ring }
}

/// The note-off a same-pitch retrigger sends, one sample before the new
/// note-on (at sample 0 where the note-on is at sample 0).
pub open spec fn retrigger_offs<B>(ring: Seq<Option<PendingOff<B>>>, channel: u8, note: u8, sample_offset: u32) -> Seq<(u32, NoteMessage)> {
    if first_holding(ring, channel, note, 0) < ring.len() {
        seq![(if sample_offset == 0 { 0u32 } else { (sample_offset - 1) as u32 }, NoteMessage { channel, note, velocity: 0, is_note_on: false })]
    } else {
        seq![]
    }
}

/// The pending note-off that a full ring gives up for a new one: the
/// oldest; none while a slot is free.
pub open spec fn stolen<B>(ring: Seq<Option<PendingOff<B>>>) -> Option<PendingOff<B>> {
    if first_free(ring, 0) < ring.len() { None } else { ring[oldest_slot(ring)] }
}

/// The ring with `entry` placed in its first free slot, or in place of the
/// oldest pending note-off where none is free.
pub open spec fn placed<B>(ring: Seq<Option<PendingOff<B>>>, entry: PendingOff<B>) -> Seq<Option<PendingOff<B>>> {
    let f = first_free(ring, 0);
    if f < ring.len() { ring.update(f, Some(entry)) } else { ring.update(oldest_slot(ring), Some(entry)) }
}

/// The note-off sent at once for a stolen slot.
pub open spec fn stolen_offs<B>(ring: Seq<Option<PendingOff<B>>>, sample_offset: u32) -> Seq<(u32, NoteMessage)> {
    match stolen(ring) {
        Some(p) => seq![(sample_offset, NoteMessage { channel: p.channel, note: p.note, velocity: 0, is_note_on: false })],
        None => seq![],
    }
}

/// The sounding notes once a stolen slot's note is released.
pub open spec fn without_stolen<B>(sounding: Set<(u8, u8)>, ring: Seq<Option<PendingOff<B>>>) -> Set<(u8, u8)> {
    match stolen(ring) {
        Some(p) => sounding.remove((p.channel & 0x0F, p.note)),
        None => sounding,
    }
}

/// The sequence number after `seq`, wrapping at the top of `u64`.
pub open spec fn next_seq(seq: u64) -> u64 {
    if seq == u64::MAX { 0 } else { (seq + 1) as u64 }
}

proof fn lemma_oldest_slot_range<B>(ring: Seq<Option<PendingOff<B>>>)
    ensures
        -1 <= oldest_slot(ring) < ring.len(),
        oldest_slot(ring) >= 0 ==> ring[oldest_slot(ring)] is Some,
        ring.len() > 0 && ring.last() is Some ==> oldest_slot(ring) >= 0,
    decreases ring.len(),
{
    if ring.len() > 0 {
        lemma_oldest_slot_range(ring.drop_last());
    }
}

proof fn lemma_place_keeps_unique<B>(ring: Seq<Option<PendingOff<B>>>, x: int, entry: PendingOff<B>)
    requires
        keys_unique(ring),
        0 <= x < ring.len(),
        forall|j: int| 0 <= j < ring.len() ==> !holds_note(#[trigger] ring[j], entry.channel, entry.note),
    ensures
        keys_unique(ring.update(x, Some(entry))),
{
    let r2 = ring.update(x, Some(entry));
    assert forall|i: int, j: int| 0 <= i < j < r2.len() implies !same_key(#[trigger] r2[i], #[trigger] r2[j]) by {
        if i == x {
            assert(!holds_note(ring[j], entry.channel, entry.note));
        } else if j == x {
            assert(!holds_note(ring[i], entry.channel, entry.note));
        } else {
            assert(ring[i] == r2[i] && ring[j] == r2[j]);
        }
    }
}

/// Schedule a timed note whose duration is positive
/// (`duration_positive`); a note of no positive duration changes nothing.
///
/// The note's first pending note-off of the same `(channel, note)` is
/// released one sample early; the note sounds at `sample_offset`; its
/// note-off, due at `end`, takes the first free slot of `ring`, or, when
/// the ring is full, the slot of the oldest pending note-off, whose note
/// is released at once. `seq` numbers the entries and wraps. Emitted
/// messages are appended to `out` in the order they are sent.
pub fn schedule_timed_note<B: Copy>(
    notes: &mut ActiveNotes,
    ring: &mut Vec<Option<PendingOff<B>>>,
    seq: &mut u64,
    channel: u8,
    note: u8,
    velocity: u8,
    sample_offset: u32,
    end: B,
    duration_positive: bool,
    out: &mut Vec<(u32, NoteMessage)>,
)
    requires
        ring_wf(old(ring)@),
        duration_positive ==> note < 128,
    ensures
        ring_wf(final(ring)@),
        keys_unique(old(ring)@) ==> keys_unique(final(ring)@),
        !duration_positive ==> {
            &&& *final(notes) == *old(notes)
            &&& final(ring)@ == old(ring)@
            &&& *final(seq) == *old(seq)
            &&& final(out)@ == old(out)@
        },
        duration_positive ==> {
            let ring1 = after_retrigger(old(ring)@, channel, note);
            let entry = PendingOff { end, channel, note, seq: *old(seq) };
            &&& final(ring)@ == placed(ring1, entry)
            &&& *final(seq) == next_seq(*old(seq))
            &&& final(out)@ == old(out)@ + retrigger_offs(old(ring)@, channel, note, sample_offset)
                + seq![(sample_offset, NoteMessage { channel, note, velocity, is_note_on: true })]
                + stolen_offs(ring1, sample_offset)
            &&& final(notes).notes() == without_stolen(old(notes).notes().insert((channel & 0x0F, note)), ring1)
        },
{
    if !duration_positive {
        return;
    }
    let ghost r0 = ring@;
    let ghost out0 = out@;
    let ghost notes0 = notes.notes();
    let len = ring.len();

    // Same-pitch retrigger: release the first pending note-off of this note.
    let mut i: usize = 0;
    while i < len
        invariant
            ring@ == r0,
            len == r0.len(),
            i <= len,
            first_holding(r0, channel, note, 0) == first_holding(r0, channel, note, i as int),
            forall|j: int| 0 <= j < i ==> !holds_note(#[trigger] r0[j], channel, note),
        ensures
            i <= len,
            i < len ==> holds_note(r0[i as int], channel, note),
            first_holding(r0, channel, note, 0) == first_holding(r0, channel, note, i as int),
            forall|j: int| 0 <= j < i ==> !holds_note(#[trigger] r0[j], channel, note),
        decreases len - i,
    {
        let hit = match ring[i] {
            Some(p) => p.channel == channel && p.note == note,
            None => false,
        };
        if hit {
            break;
        }
        i = i + 1;
    }
    let ghost r_idx = i as int;
    assert(first_holding(r0, channel, note, 0) == r_idx);
    if i < len {
        let off_at: u32 = if sample_offset == 0 { 0 } else { sample_offset - 1 };
        out.push((off_at, NoteMessage::new(channel, note, 0, false)));
        ring.set(i, None);
    }
    let ghost ring1 = ring@;
    assert(ring1 == after_retrigger(r0, channel, note));
    assert(out@ == out0 + retrigger_offs(r0, channel, note, sample_offset));
    proof {
        if keys_unique(r0) {
            assert forall|j: int| 0 <= j < ring1.len() implies !holds_note(#[trigger] ring1[j], channel, note) by {
                if j < r_idx {
                    assert(ring1[j] == r0[j]);
                } else if j > r_idx {
                    assert(ring1[j] == r0[j]);
                    if holds_note(r0[j], channel, note) {
                        assert(same_key(r0[r_idx], r0[j]));
                    }
                }
            }
            assert forall|a: int, b: int| 0 <= a < b < ring1.len() implies !same_key(#[trigger] ring1[a], #[trigger] ring1[b]) by {
                if a != r_idx && b != r_idx {
                    assert(ring1[a] == r0[a] && ring1[b] == r0[b]);
                }
            }
        }
    }

    notes.set_note_active(channel, note);
    out.push((sample_offset, NoteMessage::new(channel, note, velocity, true)));
    let entry = PendingOff { end, channel, note, seq: *seq };
    *seq = if *seq == u64::MAX { 0 } else { *seq + 1 };
    let ghost out1 = out@;
    let ghost notes1 = notes.notes();

    // A free slot for the new note-off.
    let mut f: usize = 0;
    while f < len
        invariant
            ring@ == ring1,
            len == ring1.len(),
            f <= len,
            first_free(ring1, 0) == first_free(ring1, f as int),
            forall|j: int| 0 <= j < f ==> #[trigger] ring1[j] is Some,
        ensures
            f <= len,
            f < len ==> ring1[f as int] is None,
            first_free(ring1, 0) == first_free(ring1, f as int),
            forall|j: int| 0 <= j < f ==> #[trigger] ring1[j] is Some,
        decreases len - f,
    {
        if ring[f].is_none() {
            break;
        }
        f = f + 1;
    }
    assert(first_free(ring1, 0) == f as int);
    if f < len {
        ring.set(f, Some(entry));
        assert(stolen(ring1) is None);
        assert(stolen_offs(ring1, sample_offset) =~= seq![]);
    } else {
        // Full ring: steal the oldest slot.
        let mut best: usize = 0;
        let mut best_seq: u64 = 0;
        let mut found = false;
        let mut k: usize = 0;
        assert(ring1.take(0) =~= Seq::<Option<PendingOff<B>>>::empty());
        while k < len
            invariant
                ring@ == ring1,
                len == ring1.len(),
                k <= len,
                forall|j: int| 0 <= j < len ==> #[trigger] ring1[j] is Some,
                found ==> best < k,
                found ==> ring1[best as int] is Some && ring1[best as int]->Some_0.seq == best_seq,
                found ==> oldest_slot(ring1.take(k as int)) == best as int,
                !found ==> oldest_slot(ring1.take(k as int)) == -1,
                k > 0 ==> found,
            decreases len - k,
        {
            let ghost t = ring1.take(k + 1);
            proof {
                assert(t.drop_last() =~= ring1.take(k as int));
                assert(t.last() == ring1[k as int]);
                if found {
                    assert(t[best as int] == ring1[best as int]);
                }
            }
            match ring[k] {
                Some(p) => {
                    if !found || p.seq < best_seq {
                        best = k;
                        best_seq = p.seq;
                        found = true;
                    }
                },
                None => {},
            }
            k = k + 1;
            proof {
                assert(ring1.take(k as int) == t);
            }
        }
        assert(ring1.take(len as int) =~= ring1);
        assert(oldest_slot(ring1) == best as int);
        let victim = match ring[best] {
            Some(p) => p,
            None => entry,
        };
        assert(stolen(ring1) == Some(victim));
        assert(victim.note < 128);
        out.push((sample_offset, NoteMessage::new(victim.channel, victim.note, 0, false)));
        notes.set_note_inactive(victim.channel, victim.note);
        ring.set(best, Some(entry));
    }
    proof {
        if keys_unique(r0) {
            let x = if (f as int) < ring1.len() { f as int } else { oldest_slot(ring1) };
            lemma_oldest_slot_range(ring1);
            lemma_place_keeps_unique(ring1, x, entry);
        }
    }
}

/// The note-off a same-pitch retrigger sends comes strictly before the new
/// note-on, whenever the note-on is not at the buffer's first sample.
pub proof fn lemma_retrigger_off_precedes_on<B>(ring: Seq<Option<PendingOff<B>>>, channel: u8, note: u8, sample_offset: u32)
    requires
        first_holding(ring, channel, note, 0) < ring.len(),
        sample_offset > 0,
    ensures
        retrigger_offs(ring, channel, note, sample_offset).len() == 1,
        retrigger_offs(ring, channel, note, sample_offset)[0].0 < sample_offset,
        retrigger_offs(ring, channel, note, sample_offset)[0].1.is_note_on == false,
{
}

/// A note event of a fugue as the scheduler handles it. For a timed note,
/// `positive` says whether its duration is above zero and `end` is when its
/// note-off is due.
#[derive(Clone, Copy, Debug)]
pub enum NoteEvent<B> {
    NoteOn { channel: u8, note: u8, velocity: u8 },
    NoteOff { channel: u8, note: u8 },
    TimedNote { channel: u8, note: u8, velocity: u8, positive: bool, end: B },
}

/// The note an event is about.
pub open spec fn event_note<B>(event: NoteEvent<B>) -> u8 {
    match event {
        NoteEvent::NoteOn { note, .. } => note,
        NoteEvent::NoteOff { note, .. } => note,
        NoteEvent::TimedNote { note, .. } => note,
    }
}

/// Whether handling an event marks its note in the sounding-note bitset:
/// all do but a timed note of no positive duration, which is dropped.
pub open spec fn marks_note<B>(event: NoteEvent<B>) -> bool {
    match event {
        NoteEvent::TimedNote { positive, .. } => positive,
        _ => true,
    }
}

/// Handles one note event at `sample_offset`: a note-on or note-off is
/// sent at once and marks the note sounding or released; a timed note is
/// scheduled as [`schedule_timed_note`] says.
pub fn process_note_event<B: Copy>(
    notes: &mut ActiveNotes,
    ring: &mut Vec<Option<PendingOff<B>>>,
    seq: &mut u64,
    event: NoteEvent<B>,
    sample_offset: u32,
    out: &mut Vec<(u32, NoteMessage)>,
)
    requires
        ring_wf(old(ring)@),
        marks_note(event) ==> event_note(event) < 128,
    ensures
        ring_wf(final(ring)@),
        keys_unique(old(ring)@) ==> keys_unique(final(ring)@),
        match event {
            NoteEvent::NoteOn { channel, note, velocity } => {
                &&& final(notes).notes() == old(notes).notes().insert((channel & 0x0F, note))
                &&& final(out)@ == old(out)@.push((sample_offset, NoteMessage { channel, note, velocity, is_note_on: true }))
                &&& final(ring)@ == old(ring)@
                &&& *final(seq) == *old(seq)
            },
            NoteEvent::NoteOff { channel, note } => {
                &&& final(notes).notes() == old(notes).notes().remove((channel & 0x0F, note))
                &&& final(out)@ == old(out)@.push((sample_offset, NoteMessage { channel, note, velocity: 0, is_note_on: false }))
                &&& final(ring)@ == old(ring)@
                &&& *final(seq) == *old(seq)
            },
            NoteEvent::TimedNote { channel, note, velocity, positive, end } => {
                &&& !positive ==> {
                    &&& *final(notes) == *old(notes)
                    &&& final(ring)@ == old(ring)@
                    &&& *final(seq) == *old(seq)
                    &&& final(out)@ == old(out)@
                }
                &&& positive ==> {
                    let ring1 = after_retrigger(old(ring)@, channel, note);
                    let entry = PendingOff { end, channel, note, seq: *old(seq) };
                    &&& final(ring)@ == placed(ring1, entry)
                    &&& *final(seq) == next_seq(*old(seq))
                    &&& final(out)@ == old(out)@ + retrigger_offs(old(ring)@, channel, note, sample_offset)
                        + seq![(sample_offset, NoteMessage { channel, note, velocity, is_note_on: true })]
                        + stolen_offs(ring1, sample_offset)
                    &&& final(notes).notes() == without_stolen(old(notes).notes().insert((channel & 0x0F, note)), ring1)
                }
            },
        },
{
    match event {
        NoteEvent::NoteOn { channel, note, velocity } => {
            notes.set_note_active(channel, note);
            out.push((sample_offset, NoteMessage::new(channel, note, velocity, true)));
        },
        NoteEvent::NoteOff { channel, note } => {
            notes.set_note_inactive(channel, note);
            out.push((sample_offset, NoteMessage::new(channel, note, 0, false)));
        },
        NoteEvent::TimedNote { channel, note, velocity, positive, end } => {
            schedule_timed_note(notes, ring, seq, channel, note, velocity, sample_offset, end, positive, out);
        },
    }
}

} // verus!
