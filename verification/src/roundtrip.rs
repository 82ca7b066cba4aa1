//! What importing gives back of an export: the note-ons and controller
//! changes of a named track come back unchanged, in tick order, with the
//! track's name and its length.

use vstd::prelude::*;
use crate::export::{delta_encoded, encoded_events, is_named_track, widen_ticks};
use crate::import::{
    dangling_offs, lemma_scan_in_tick_order, lemma_scan_rejects_extend, lemma_track_events_unsorted,
    scan_track, track_events, close_tick, track_duration, track_name_text, scan_start, scan_event, ImportEvent, TrackDuration,
};
use crate::smf::{message_in_range, SmfEvent, SmfEventKind, SmfMessage, SmfWriteEvent, SmfWriteKind};
use crate::sort::sort_by_tick;

verus! {

/// How a reader sees a written event kind.
pub open spec fn read_kind(k: SmfWriteKind) -> SmfEventKind {
    match k {
        SmfWriteKind::TrackName(b) => SmfEventKind::TrackName(b),
        SmfWriteKind::Tempo(t) => SmfEventKind::Tempo(t),
        SmfWriteKind::EndOfTrack => SmfEventKind::EndOfTrack,
        SmfWriteKind::Midi { channel, message } => SmfEventKind::Midi { channel, message },
    }
}

/// How a reader sees written events.
pub open spec fn as_read(t: Seq<SmfWriteEvent>) -> Seq<SmfEvent> {
    Seq::new(t.len(), |i: int| SmfEvent { delta: t[i].delta, kind: read_kind(t[i].kind) })
}

/// Whether an imported event sounds: a note-on or a controller change.
pub open spec fn sounds(e: ImportEvent) -> bool {
    e is NoteOn || e is Cc
}

/// The note-ons and controller changes among imported events, in order.
pub open spec fn sounding(s: Seq<(u64, ImportEvent)>) -> Seq<(u64, ImportEvent)>
    decreases s.len(),
{
    if s.len() == 0 {
        Seq::empty()
    } else if sounds(s.last().1) {
        sounding(s.drop_last()).push(s.last())
    } else {
        sounding(s.drop_last())
    }
}

/// What a written event imports as, when it is a note-on with a nonzero
/// velocity or a controller change.
pub open spec fn written_sound(t: u64, k: SmfWriteKind) -> Option<ImportEvent> {
    match k {
        SmfWriteKind::Midi { channel, message } => match message {
            SmfMessage::NoteOn { key, vel } => if vel > 0 {
                Some(ImportEvent::NoteOn { channel, note: key, velocity: vel })
            } else {
                None
            },
            SmfMessage::Controller { controller, value } => Some(ImportEvent::Cc { channel, cc: controller, value }),
            _ => None,
        },
        _ => None,
    }
}

/// The note-ons (nonzero velocity) and controller changes among written
/// events, as they import, in order.
pub open spec fn written_sounding(s: Seq<(u64, SmfWriteKind)>) -> Seq<(u64, ImportEvent)>
    decreases s.len(),
{
    if s.len() == 0 {
        Seq::empty()
    } else {
        match written_sound(s.last().0, s.last().1) {
            Some(e) => written_sounding(s.drop_last()).push((s.last().0, e)),
            None => written_sounding(s.drop_last()),
        }
    }
}

/// A channel message within MIDI's ranges.
pub open spec fn is_channel_message(k: SmfWriteKind) -> bool {
    match k {
        SmfWriteKind::Midi { channel, message } => channel < 16 && message_in_range(message),
        _ => false,
    }
}

/// Every event is a channel message within MIDI's ranges.
pub open spec fn channel_messages(events: Seq<(u32, SmfWriteKind)>) -> bool {
    forall|i: int| 0 <= i < events.len() ==> is_channel_message(#[trigger] events[i].1)
}

proof fn lemma_sounding_append(a: Seq<(u64, ImportEvent)>, b: Seq<(u64, ImportEvent)>)
    ensures
        sounding(a + b) == sounding(a) + sounding(b),
    decreases b.len(),
{
    if b.len() == 0 {
        assert(a + b =~= a);
        assert(sounding(a) + sounding(b) =~= sounding(a));
    } else {
        assert((a + b).drop_last() =~= a + b.drop_last());
        assert((a + b).last() == b.last());
        lemma_sounding_append(a, b.drop_last());
        if sounds(b.last().1) {
            assert(sounding(a) + sounding(b.drop_last()).push(b.last()) =~= (sounding(a) + sounding(b.drop_last())).push(b.last()));
        }
    }
}

proof fn lemma_dangling_silent(open: Seq<nat>, tick: u64)
    ensures
        sounding(dangling_offs(open, tick)) == Seq::<(u64, ImportEvent)>::empty(),
    decreases open.len(),
{
    if open.len() > 0 {
        let k = open.len() - 1;
        let x = (tick, ImportEvent::NoteOff { channel: (k / 128) as u8, note: (k % 128) as u8 });
        let rest = Seq::new(open.last(), |j: int| x);
        lemma_dangling_silent(open.drop_last(), tick);
        lemma_sounding_append(dangling_offs(open.drop_last(), tick), rest);
        lemma_repeat_silent(open.last(), x);
    }
}

proof fn lemma_repeat_silent(m: nat, x: (u64, ImportEvent))
    requires
        !sounds(x.1),
    ensures
        sounding(Seq::new(m, |j: int| x)) == Seq::<(u64, ImportEvent)>::empty(),
    decreases m,
{
    if m > 0 {
        assert(Seq::new(m, |j: int| x).drop_last() =~= Seq::new((m - 1) as nat, |j: int| x));
        lemma_repeat_silent((m - 1) as nat, x);
    }
}

/// After the track name and the first `k - 1` events of the body, the
/// reader is at the tick of the last of them, has seen no end of track,
/// and has emitted their note-ons and controller changes.
proof fn lemma_body_prefix(
    events: Seq<(u32, SmfWriteKind)>,
    r: Seq<SmfWriteEvent>,
    strict: bool,
    k: int,
)
    requires
        r.len() == events.len() + 2,
        r[0].delta == 0,
        r[0].kind is TrackName,
        forall|j: int| 1 <= j <= events.len() ==> #[trigger] r[j] == encoded_events(events)[j - 1],
        channel_messages(events),
        scan_track(as_read(r), strict) is Some,
        1 <= k <= events.len() + 1,
    ensures
        ({
            let sorted = sort_by_tick(widen_ticks(events));
            &&& scan_track(as_read(r).take(k), strict) is Some
            &&& scan_track(as_read(r).take(k), strict)->Some_0.abs == (if k == 1 { 0 } else { sorted[k - 2].0 })
            &&& scan_track(as_read(r).take(k), strict)->Some_0.end is None
            &&& sounding(scan_track(as_read(r).take(k), strict)->Some_0.events) == written_sounding(sorted.take(k - 1))
            &&& scan_track(as_read(r).take(k), strict)->Some_0.name == scan_track(as_read(r).take(1), strict)->Some_0.name
        }),
    decreases k,
{
    let rd = as_read(r);
    let sorted = sort_by_tick(widen_ticks(events));
    if scan_track(rd.take(k), strict) is None {
        lemma_scan_rejects_extend(rd, k, strict);
    }
    assert(rd.take(k).drop_last() =~= rd.take(k - 1));
    assert(rd.take(k).last() == rd[k - 1]);
    if k == 1 {
        assert(rd.take(0) =~= Seq::<SmfEvent>::empty());
        assert(sorted.take(0) =~= Seq::<(u64, SmfWriteKind)>::empty());
        assert(rd[0].delta == 0);
    } else {
        lemma_body_prefix(events, r, strict, k - 1);
        crate::sort::lemma_sort_by_tick_sorted(widen_ticks(events));
        crate::sort::lemma_sort_by_tick_bounded(widen_ticks(events), u32::MAX as u64);
        lemma_sorted_channel_messages(events);
        let st = scan_track(rd.take(k - 1), strict)->Some_0;
        let st1 = scan_track(rd.take(k), strict)->Some_0;
        let ev = rd[k - 1];
        let prev: u64 = if k == 2 { 0 } else { sorted[k - 3].0 };
        let t = sorted[k - 2].0;
        assert(prev <= t);
        assert(r[k - 1] == encoded_events(events)[k - 2]);
        assert(encoded_events(events)[k - 2] == delta_encoded(sorted)[k - 2]);
        assert(ev.delta == t - prev);
        assert(st1.abs == t);
        assert(sorted.take(k - 1).drop_last() =~= sorted.take(k - 2));
        assert(sorted.take(k - 1).last() == sorted[k - 2]);
        assert(ev.kind == read_kind(sorted[k - 2].1));
        if st1.events.len() > st.events.len() {
            assert(st1.events == st.events.push(st1.events.last()));
            assert(st1.events.drop_last() =~= st.events);
        } else {
            assert(st1.events == st.events);
        }
    }
}

/// The name a reader gives a track written under `name`: the name as its
/// UTF-8 bytes read back and trimmed, none when that is blank.
pub open spec fn name_read_back(name: Seq<char>) -> Option<Seq<char>> {
    let s = track_name_text(vstd::utf8::encode_utf8(name));
    if s.len() > 0 { Some(s) } else { None }
}

/// The tick of the last of `events`, 0 for none: where a written track
/// ends.
pub open spec fn last_written_tick(events: Seq<(u32, SmfWriteKind)>) -> u64 {
    let sorted = sort_by_tick(widen_ticks(events));
    if sorted.len() == 0 { 0 } else { sorted.last().0 }
}

/// Importing a named track gives back its note-ons (those with a nonzero
/// velocity) and controller changes exactly: same ticks, channels, keys,
/// velocities, controllers and values, in the track's tick order. It also
/// gives back the track's name, and its length ends at its end-of-track
/// event, at the tick of its last event. The track is read as a reader
/// sees the events written for it.
pub proof fn lemma_named_track_round_trip(
    name: Seq<char>,
    events: Seq<(u32, SmfWriteKind)>,
    r: Seq<SmfWriteEvent>,
    strict: bool,
)
    requires
        is_named_track(r, name, events),
        channel_messages(events),
        scan_track(as_read(r), strict) is Some,
    ensures
        sounding(track_events(scan_track(as_read(r), strict)->Some_0))
            == written_sounding(sort_by_tick(widen_ticks(events))),
        scan_track(as_read(r), strict)->Some_0.name == name_read_back(name),
        scan_track(as_read(r), strict)->Some_0.end == Some(last_written_tick(events)),
        forall|ppq: u16| track_duration(scan_track(as_read(r), strict)->Some_0, ppq)
            == TrackDuration::EndOfTrack(last_written_tick(events)),
{
    let n = events.len() as int;
    let sorted = sort_by_tick(widen_ticks(events));
    let rd = as_read(r);
    crate::sort::lemma_sort_by_tick_sorted(widen_ticks(events));
    assert forall|j: int| 1 <= j <= n implies #[trigger] r[j] == encoded_events(events)[j - 1] by {
        assert(r.subrange(1, r.len() - 1)[j - 1] == r[j]);
    }
    lemma_body_prefix(events, r, strict, n + 1);
    let st = scan_track(rd.take(n + 1), strict)->Some_0;
    assert(rd.take(n + 2) =~= rd);
    assert(rd.take(n + 2).drop_last() =~= rd.take(n + 1));
    assert(rd[n + 1].kind == SmfEventKind::EndOfTrack);
    let fin = scan_track(rd, strict)->Some_0;
    assert(fin.events == st.events);
    assert(fin.end == Some(fin.abs));
    lemma_scan_in_tick_order(rd, strict);
    assert(close_tick(fin) == fin.abs);
    lemma_track_events_unsorted(fin);
    lemma_sounding_append(fin.events, dangling_offs(fin.open, close_tick(fin)));
    lemma_dangling_silent(fin.open, close_tick(fin));
    assert(sorted.take(n) =~= sorted);
    assert(sounding(fin.events) + Seq::<(u64, ImportEvent)>::empty() =~= sounding(fin.events));
    assert(rd.take(1).drop_last() =~= Seq::<SmfEvent>::empty());
    assert(rd.take(1).last() == rd[0]);
    assert(scan_track(rd.take(1).drop_last(), strict) == Some(scan_start()));
    assert(rd[0] == SmfEvent { delta: r[0].delta, kind: read_kind(r[0].kind) });
    match r[0].kind {
        SmfWriteKind::TrackName(b) => {
            assert(b@ == vstd::utf8::encode_utf8(name));
            assert(rd[0].kind == SmfEventKind::TrackName(b));
            assert(scan_track(rd.take(1), strict) == scan_event(scan_start(), rd[0], strict));
        },
        _ => {},
    }
    assert(fin.name == st.name);
    assert(fin.abs == st.abs);
}

proof fn lemma_sorted_channel_messages(events: Seq<(u32, SmfWriteKind)>)
    requires
        channel_messages(events),
    ensures
        forall|i: int| 0 <= i < sort_by_tick(widen_ticks(events)).len() ==>
            is_channel_message(#[trigger] sort_by_tick(widen_ticks(events))[i].1),
{
    let w = widen_ticks(events);
    let p = |e: (u64, SmfWriteKind)| is_channel_message(e.1);
    assert forall|i: int| 0 <= i < w.len() implies p(#[trigger] w[i]) by {
        assert(w[i].1 == events[i].1);
    }
    crate::sort::lemma_sort_by_tick_all(w, p);
}

} // verus!
