//! Standard MIDI File import: turns the tracks of a parsed file into timed
//! note and controller events, pairing each note-off with the oldest open
//! note-on of its channel and key, and closing notes left open at the end
//! of the track. Times stay in ticks; the track keeps its own length.

use vstd::prelude::*;
use crate::smf::{SmfContent, SmfEvent, SmfEventKind, SmfMessage, SmfTiming, kind_in_range, track_in_range, smf_parse, smf_parse_outcome};
use crate::sort::{sort_by_tick, stable_sort_by_tick};
use crate::text::{utf8_lossy, trim, string_from_utf8_lossy, str_chars, trim_chars, string_from_chars, decimal, push_decimal};

verus! {

/// A playable event read from a track.
#[derive(Clone, Copy, PartialEq, Eq, Structural, Debug)]
pub enum ImportEvent {
    NoteOn { channel: u8, note: u8, velocity: u8 },
    NoteOff { channel: u8, note: u8 },
    Cc { channel: u8, cc: u8, value: u8 },
}

/// How long an imported track lasts.
#[derive(Clone, Copy, PartialEq, Eq, Structural, Debug)]
pub enum TrackDuration {
    /// Up to the tick of the track's end-of-track event.
    EndOfTrack(u64),
    /// The last event's tick rounded up to whole beats, at least one beat.
    WholeBeats(u64),
}

/// One track's content: its name (the last non-blank `TrackName`, trimmed),
/// its events sorted by tick, and its length.
#[derive(Clone, Debug)]
pub struct ImportedTrack {
    pub name: Option<String>,
    pub events: Vec<(u64, ImportEvent)>,
    pub duration: TrackDuration,
}

/// A whole imported file: its ticks per quarter note and the tracks that
/// carry at least one playable event.
#[derive(Clone, Debug)]
pub struct ImportedMidi {
    pub ppq: u16,
    pub tracks: Vec<ImportedTrack>,
}

/// Number of (channel, key) pairs: 16 channels of 128 keys.
pub const NOTE_SLOTS: usize = 2048;

/// The slot of a (channel, key) pair.
pub open spec fn slot_of(channel: u8, note: u8) -> int {
    channel as int * 128 + note as int
}

/// What the importer knows after reading a prefix of a track.
pub ghost struct TrackScan {
    /// Absolute tick of the last event read (delta times summed, saturating).
    pub abs: u64,
    /// Largest absolute tick seen.
    pub max: u64,
    /// Tick of the last end-of-track event, if any.
    pub end: Option<u64>,
    /// The last non-blank track name, trimmed.
    pub name: Option<Seq<char>>,
    /// Per slot, the number of note-ons not yet paired with a note-off.
    pub open: Seq<nat>,
    /// Events emitted so far, in reading order.
    pub events: Seq<(u64, ImportEvent)>,
}

/// The state before the first event.
pub open spec fn scan_start() -> TrackScan {
    TrackScan {
        abs: 0,
        max: 0,
        end: None,
        name: None,
        open: Seq::new(NOTE_SLOTS as nat, |k: int| 0nat),
        events: Seq::empty(),
    }
}

/// Pairs a note-off with an open note-on of the same channel and key, if
/// there is one; an orphan note-off is dropped.
pub open spec fn close_note(st: TrackScan, channel: u8, note: u8) -> TrackScan {
    let k = slot_of(channel, note);
    if st.open[k] > 0 {
        TrackScan {
            open: st.open.update(k, (st.open[k] - 1) as nat),
            events: st.events.push((st.abs, ImportEvent::NoteOff { channel, note })),
            ..st
        }
    } else {
        st
    }
}

/// The name a `TrackName` meta event gives: its bytes decoded as lossy
/// UTF-8 and trimmed.
pub open spec fn track_name_text(bytes: Seq<u8>) -> Seq<char> {
    trim(utf8_lossy(bytes))
}

/// The message with which strict mode rejects pitch bend and aftertouch.
pub open spec fn strict_error() -> Seq<char> {
    "file contains per-note expression (pitch bend / aftertouch) which this importer cannot represent; disable strict mode to drop those events"@
}

/// Reads one event; `None` when strict mode rejects it.
pub open spec fn scan_event(st0: TrackScan, ev: SmfEvent, strict: bool) -> Option<TrackScan> {
    let abs = st0.abs.saturating_add(ev.delta as u64);
    let max = if abs > st0.max { abs } else { st0.max };
    let st = TrackScan { abs, max, ..st0 };
    match ev.kind {
        SmfEventKind::TrackName(b) => {
            let s = track_name_text(b@);
            Some(if s.len() > 0 { TrackScan { name: Some(s), ..st } } else { st })
        },
        SmfEventKind::EndOfTrack => Some(TrackScan { end: Some(abs), ..st }),
        SmfEventKind::Midi { channel, message } => match message {
            SmfMessage::NoteOn { key, vel } => {
                if vel == 0 {
                    Some(close_note(st, channel, key))
                } else {
                    let k = slot_of(channel, key);
                    Some(TrackScan {
                        open: st.open.update(k, st.open[k] + 1),
                        events: st.events.push((abs, ImportEvent::NoteOn { channel, note: key, velocity: vel })),
                        ..st
                    })
                }
            },
            SmfMessage::NoteOff { key, vel } => Some(close_note(st, channel, key)),
            SmfMessage::Controller { controller, value } => Some(TrackScan {
                events: st.events.push((abs, ImportEvent::Cc { channel, cc: controller, value })),
                ..st
            }),
            SmfMessage::PitchBend { .. } => if strict { None } else { Some(st) },
            SmfMessage::Aftertouch { .. } => if strict { None } else { Some(st) },
            _ => Some(st),
        },
        _ => Some(st),
    }
}

/// Reads a whole track, front to back; `None` when strict mode rejects an
/// event.
pub open spec fn scan_track(track: Seq<SmfEvent>, strict: bool) -> Option<TrackScan>
    decreases track.len(),
{
    if track.len() == 0 {
        Some(scan_start())
    } else {
        match scan_track(track.drop_last(), strict) {
            Some(st) => scan_event(st, track.last(), strict),
            None => None,
        }
    }
}

/// One note-off for each note still open, slot by slot in (channel, key)
/// order, all at `tick`.
pub open spec fn dangling_offs(open: Seq<nat>, tick: u64) -> Seq<(u64, ImportEvent)>
    decreases open.len(),
{
    if open.len() == 0 {
        Seq::empty()
    } else {
        let k = open.len() - 1;
        dangling_offs(open.drop_last(), tick) + Seq::new(
            open.last(),
            |j: int| (tick, ImportEvent::NoteOff { channel: (k / 128) as u8, note: (k % 128) as u8 }),
        )
    }
}

/// Where notes left open are closed: at the end-of-track event, or at the
/// last event's tick when there is none.
pub open spec fn close_tick(st: TrackScan) -> u64 {
    match st.end {
        Some(t) => t,
        None => st.max,
    }
}

/// The events of a read track: those emitted, then the closing note-offs,
/// stably sorted by tick.
pub open spec fn track_events(st: TrackScan) -> Seq<(u64, ImportEvent)> {
    sort_by_tick(st.events + dangling_offs(st.open, close_tick(st)))
}

/// `ticks` divided by `ppq`, rounded up, and at least one.
pub open spec fn whole_beats(ticks: u64, ppq: u16) -> u64 {
    let q: int = if ticks % (ppq as u64) == 0 { (ticks / (ppq as u64)) as int } else { ticks / (ppq as u64) + 1 };
    if q == 0 { 1 } else { q as u64 }
}

/// The length of a read track.
pub open spec fn track_duration(st: TrackScan, ppq: u16) -> TrackDuration {
    match st.end {
        Some(t) => TrackDuration::EndOfTrack(t),
        None => TrackDuration::WholeBeats(whole_beats(st.max, ppq)),
    }
}

/// The characters of an optional string.
pub open spec fn opt_text(o: Option<String>) -> Option<Seq<char>> {
    match o {
        Some(s) => Some(s@),
        None => None,
    }
}

/// `t` is what reading a track into `st` yields.
pub open spec fn track_matches(t: ImportedTrack, st: TrackScan, ppq: u16) -> bool {
    &&& opt_text(t.name) == st.name
    &&& t.events@ == track_events(st)
    &&& t.duration == track_duration(st, ppq)
}

/// The importer's working state, whose view is a [`TrackScan`].
struct TrackScanner {
    abs: u64,
    max: u64,
    end: Option<u64>,
    name: Option<String>,
    open: Vec<usize>,
    events: Vec<(u64, ImportEvent)>,
}

impl TrackScanner {
    spec fn view(&self) -> TrackScan {
        TrackScan {
            abs: self.abs,
            max: self.max,
            end: self.end,
            name: opt_text(self.name),
            open: Seq::new(self.open@.len(), |k: int| self.open@[k] as nat),
            events: self.events@,
        }
    }

    /// Well formed after reading `n` events: one counter per slot, none
    /// above `n`, and at most `n` events emitted.
    spec fn wf(&self, n: nat) -> bool {
        &&& self.open@.len() == NOTE_SLOTS
        &&& forall|k: int| 0 <= k < NOTE_SLOTS ==> self.open@[k] <= n
        &&& self.events@.len() <= n
    }

    fn new() -> (r: Self)
        ensures
            r.view() == scan_start(),
            r.wf(0),
    {
        let mut open: Vec<usize> = Vec::new();
        let mut k: usize = 0;
        while k < NOTE_SLOTS
            invariant
                k <= NOTE_SLOTS,
                open@.len() == k,
                forall|j: int| 0 <= j < k ==> open@[j] == 0,
            decreases NOTE_SLOTS - k,
        {
            open.push(0);
            k = k + 1;
        }
        let r = TrackScanner { abs: 0, max: 0, end: None, name: None, open, events: Vec::new() };
        assert(r.view().open =~= scan_start().open);
        r
    }

    fn close_note(&mut self, channel: u8, note: u8)
        requires
            old(self).open@.len() == NOTE_SLOTS,
            channel < 16,
            note < 128,
        ensures
            final(self).view() == close_note(old(self).view(), channel, note),
            final(self).abs == old(self).abs,
            final(self).open@.len() == NOTE_SLOTS,
            forall|k: int| 0 <= k < NOTE_SLOTS ==> final(self).open@[k] <= old(self).open@[k],
            final(self).events@.len() <= old(self).events@.len() + 1,
    {
        let k: usize = channel as usize * 128 + note as usize;
        let ghost before = self.view();
        if self.open[k] > 0 {
            let c = self.open[k];
            self.open.set(k, c - 1);
            self.events.push((self.abs, ImportEvent::NoteOff { channel, note }));
            assert(self.view().open =~= before.open.update(k as int, (before.open[k as int] - 1) as nat));
        }
    }

    /// Reads one event; `false` when strict mode rejects it.
    fn step(&mut self, ev: &SmfEvent, strict: bool, Ghost(n): Ghost<nat>) -> (ok: bool)
        requires
            old(self).wf(n),
            n < usize::MAX,
            ev.delta < 0x1000_0000,
            kind_in_range(ev.kind),
        ensures
            ok == scan_event(old(self).view(), *ev, strict) is Some,
            ok ==> scan_event(old(self).view(), *ev, strict) == Some(final(self).view()),
            ok ==> final(self).wf(n + 1),
    {
        let ghost st0 = self.view();
        self.abs = self.abs.saturating_add(ev.delta as u64);
        if self.abs > self.max {
            self.max = self.abs;
        }
        let ghost st = self.view();
        assert(st == TrackScan { abs: st.abs, max: st.max, ..st0 });
        match &ev.kind {
            SmfEventKind::TrackName(b) => {
                let decoded = string_from_utf8_lossy(b.as_slice());
                let chars = str_chars(decoded.as_str());
                let trimmed = trim_chars(&chars);
                if trimmed.len() > 0 {
                    self.name = Some(string_from_chars(&trimmed));
                }
                true
            },
            SmfEventKind::EndOfTrack => {
                self.end = Some(self.abs);
                true
            },
            SmfEventKind::Midi { channel, message } => match message {
                SmfMessage::NoteOn { key, vel } => {
                    if *vel == 0 {
                        self.close_note(*channel, *key);
                    } else {
                        let k: usize = *channel as usize * 128 + *key as usize;
                        let c = self.open[k];
                        self.open.set(k, c + 1);
                        self.events.push((self.abs, ImportEvent::NoteOn { channel: *channel, note: *key, velocity: *vel }));
                        assert(self.view().open =~= st.open.update(k as int, st.open[k as int] + 1));
                    }
                    true
                },
                SmfMessage::NoteOff { key, vel } => {
                    self.close_note(*channel, *key);
                    true
                },
                SmfMessage::Controller { controller, value } => {
                    self.events.push((self.abs, ImportEvent::Cc { channel: *channel, cc: *controller, value: *value }));
                    true
                },
                SmfMessage::PitchBend { .. } => !strict,
                SmfMessage::Aftertouch { .. } => !strict,
                _ => true,
            },
            _ => true,
        }
    }
}

/// A prefix that strict mode rejects makes the whole track rejected.
pub(crate) proof fn lemma_scan_rejects_extend(track: Seq<SmfEvent>, j: int, strict: bool)
    requires
        0 <= j <= track.len(),
        scan_track(track.take(j), strict) is None,
    ensures
        scan_track(track, strict) is None,
    decreases track.len(),
{
    if j == track.len() {
        assert(track.take(j) =~= track);
    } else {
        assert(track.drop_last().take(j) =~= track.take(j));
        lemma_scan_rejects_extend(track.drop_last(), j, strict);
    }
}

fn whole_beats_of(ticks: u64, ppq: u16) -> (r: u64)
    requires
        ppq > 0,
    ensures
        r == whole_beats(ticks, ppq),
{
    let p = ppq as u64;
    let q = ticks / p;
    let c = if ticks % p == 0 {
        q
    } else {
        assert(p >= 2) by {
            if p == 1 {
                assert(ticks % 1 == 0);
            }
        }
        assert(q < u64::MAX) by (nonlinear_arith)
            requires
                q == ticks / p,
                p >= 2,
        ;
        q + 1
    };
    if c == 0 { 1 } else { c }
}

/// Appends one note-off per note still open, slot by slot, at `tick`.
fn push_dangling_offs(events: &mut Vec<(u64, ImportEvent)>, open: &Vec<usize>, tick: u64)
    requires
        open@.len() == NOTE_SLOTS,
    ensures
        final(events)@ == old(events)@ + dangling_offs(Seq::new(open@.len(), |k: int| open@[k] as nat), tick),
{
    let ghost counts = Seq::new(open@.len(), |k: int| open@[k] as nat);
    let ghost base = events@;
    let mut k: usize = 0;
    assert(counts.take(0) =~= Seq::<nat>::empty());
    assert(base + dangling_offs(counts.take(0), tick) =~= base);
    while k < NOTE_SLOTS
        invariant
            k <= NOTE_SLOTS,
            open@.len() == NOTE_SLOTS,
            counts == Seq::new(open@.len(), |k: int| open@[k] as nat),
            events@ == base + dangling_offs(counts.take(k as int), tick),
        decreases NOTE_SLOTS - k,
    {
        let channel: u8 = (k / 128) as u8;
        let note: u8 = (k % 128) as u8;
        let ghost before = events@;
        let ghost off = (tick, ImportEvent::NoteOff { channel, note });
        let count = open[k];
        let mut c: usize = 0;
        while c < count
            invariant
                c <= count,
                off == (tick, ImportEvent::NoteOff { channel, note }),
                events@ == before + Seq::new(c as nat, |j: int| off),
            decreases count - c,
        {
            events.push((tick, ImportEvent::NoteOff { channel, note }));
            c = c + 1;
            assert(events@ =~= before + Seq::new(c as nat, |j: int| off));
        }
        proof {
            let t1 = counts.take(k + 1);
            assert(t1.drop_last() =~= counts.take(k as int));
            assert(t1.last() == count as nat);
            assert(channel == ((t1.len() - 1) / 128) as u8);
            assert(note == ((t1.len() - 1) % 128) as u8);
            let added = Seq::new(t1.last(), |j: int| (tick, ImportEvent::NoteOff { channel: ((t1.len() - 1) / 128) as u8, note: ((t1.len() - 1) % 128) as u8 }));
            assert(added =~= Seq::new(c as nat, |j: int| off));
            assert(dangling_offs(t1, tick) == dangling_offs(counts.take(k as int), tick) + added);
            assert(events@ =~= base + dangling_offs(t1, tick));
        }
        k = k + 1;
    }
    assert(counts.take(NOTE_SLOTS as int) =~= counts);
}

/// Reads one track of a file with `ppq` ticks per quarter note: the
/// events of [`scan_track`], closed and sorted as [`track_events`] says,
/// its name and its length; or the strict-mode error.
pub fn parse_track(track: &Vec<SmfEvent>, ppq: u16, strict: bool) -> (r: Result<ImportedTrack, String>)
    requires
        ppq > 0,
        track_in_range(track@),
    ensures
        match scan_track(track@, strict) {
            Some(st) => r is Ok && track_matches(r->Ok_0, st, ppq),
            None => r is Err && r->Err_0@ == strict_error(),
        },
{
    let mut sc = TrackScanner::new();
    let mut i: usize = 0;
    assert(track@.take(0) =~= Seq::<SmfEvent>::empty());
    while i < track.len()
        invariant
            i <= track@.len(),
            track_in_range(track@),
            sc.wf(i as nat),
            scan_track(track@.take(i as int), strict) == Some(sc.view()),
        decreases track@.len() - i,
    {
        proof {
            assert(track@.take(i + 1).drop_last() =~= track@.take(i as int));
            assert(track@.take(i + 1).last() == track@[i as int]);
        }
        let ok = sc.step(&track[i], strict, Ghost(i as nat));
        if !ok {
            proof {
                lemma_scan_rejects_extend(track@, i + 1, strict);
            }
            return Err(String::from_str("file contains per-note expression (pitch bend / aftertouch) which this importer cannot represent; disable strict mode to drop those events"));
        }
        i = i + 1;
    }
    assert(track@.take(track@.len() as int) =~= track@);
    let close = match sc.end {
        Some(t) => t,
        None => sc.max,
    };
    let ghost st = sc.view();
    let TrackScanner { abs, max, end, name, open, events } = sc;
    let mut all = events;
    push_dangling_offs(&mut all, &open, close);
    let sorted = stable_sort_by_tick(all);
    let duration = match end {
        Some(t) => TrackDuration::EndOfTrack(t),
        None => TrackDuration::WholeBeats(whole_beats_of(max, ppq)),
    };
    Ok(ImportedTrack { name, events: sorted, duration })
}

/// The scans of the tracks that carry at least one event, in file order;
/// `None` when strict mode rejects any track.
pub open spec fn kept_scans(tracks: Seq<Vec<SmfEvent>>, strict: bool) -> Option<Seq<TrackScan>>
    decreases tracks.len(),
{
    if tracks.len() == 0 {
        Some(Seq::empty())
    } else {
        match kept_scans(tracks.drop_last(), strict) {
            None => None,
            Some(prev) => match scan_track(tracks.last()@, strict) {
                None => None,
                Some(st) => if track_events(st).len() > 0 { Some(prev.push(st)) } else { Some(prev) },
            },
        }
    }
}

/// The message for a file timed in SMPTE frames.
pub open spec fn smpte_error() -> Seq<char> {
    "SMPTE-timed MIDI files are not supported (only PPQ/metrical)"@
}

/// The message for a file that declares zero ticks per quarter note.
pub open spec fn zero_ppq_error() -> Seq<char> {
    "MIDI file declares zero PPQ"@
}

/// `r` is what importing `content` gives: an error for SMPTE timing, for
/// zero PPQ and for a track that strict mode rejects; otherwise the file's
/// PPQ and one track per track of the file that carries an event.
pub open spec fn import_result(content: SmfContent, strict: bool, r: Result<ImportedMidi, String>) -> bool {
    match content.timing {
        SmfTiming::Timecode => r is Err && r->Err_0@ == smpte_error(),
        SmfTiming::Metrical(ppq) => if ppq == 0 {
            r is Err && r->Err_0@ == zero_ppq_error()
        } else {
            match kept_scans(content.tracks@, strict) {
                None => r is Err && r->Err_0@ == strict_error(),
                Some(scans) => {
                    &&& r is Ok
                    &&& r->Ok_0.ppq == ppq
                    &&& r->Ok_0.tracks@.len() == scans.len()
                    &&& forall|i: int| 0 <= i < scans.len() ==> track_matches(#[trigger] r->Ok_0.tracks@[i], scans[i], ppq)
                },
            }
        },
    }
}

proof fn lemma_kept_rejects_extend(tracks: Seq<Vec<SmfEvent>>, j: int, strict: bool)
    requires
        0 <= j <= tracks.len(),
        kept_scans(tracks.take(j), strict) is None,
    ensures
        kept_scans(tracks, strict) is None,
    decreases tracks.len(),
{
    if j == tracks.len() {
        assert(tracks.take(j) =~= tracks);
    } else {
        assert(tracks.drop_last().take(j) =~= tracks.take(j));
        lemma_kept_rejects_extend(tracks.drop_last(), j, strict);
    }
}

/// The message for bytes that are no Standard MIDI File.
pub open spec fn parse_error(e: Seq<char>) -> Seq<char> {
    "failed to parse MIDI file: "@ + e
}

impl ImportedMidi {
    /// Imports the content of a parsed file, as [`import_result`] says.
    pub fn from_content(content: &SmfContent, strict: bool) -> (r: Result<ImportedMidi, String>)
        requires
            content.in_range(),
        ensures
            import_result(*content, strict, r),
    {
        let ppq = match content.timing {
            SmfTiming::Timecode => {
                return Err(String::from_str("SMPTE-timed MIDI files are not supported (only PPQ/metrical)"));
            },
            SmfTiming::Metrical(n) => n,
        };
        if ppq == 0 {
            return Err(String::from_str("MIDI file declares zero PPQ"));
        }
        let ghost all = content.tracks@;
        let mut tracks: Vec<ImportedTrack> = Vec::new();
        let mut i: usize = 0;
        assert(all.take(0) =~= Seq::<Vec<SmfEvent>>::empty());
        while i < content.tracks.len()
            invariant
                i <= all.len(),
                all == content.tracks@,
                content.in_range(),
                content.timing == SmfTiming::Metrical(ppq),
                ppq > 0,
                kept_scans(all.take(i as int), strict) is Some,
                tracks@.len() == kept_scans(all.take(i as int), strict)->Some_0.len(),
                forall|j: int| 0 <= j < tracks@.len() ==> track_matches(#[trigger] tracks@[j], kept_scans(all.take(i as int), strict)->Some_0[j], ppq),
            decreases all.len() - i,
        {
            proof {
                assert(all.take(i + 1).drop_last() =~= all.take(i as int));
                assert(all.take(i + 1).last() == all[i as int]);
                assert(track_in_range(all[i as int]@));
            }
            let parsed = parse_track(&content.tracks[i], ppq, strict);
            match parsed {
                Err(e) => {
                    proof {
                        assert(scan_track(all[i as int]@, strict) is None);
                        assert(kept_scans(all.take(i + 1), strict) is None);
                        lemma_kept_rejects_extend(all, i + 1, strict);
                    }
                    return Err(e);
                },
                Ok(t) => {
                    if t.events.len() > 0 {
                        tracks.push(t);
                    }
                },
            }
            i = i + 1;
        }
        assert(all.take(all.len() as int) =~= all);
        Ok(ImportedMidi { ppq, tracks })
    }

    /// Parses Standard MIDI File bytes with `midly` and imports them; a
    /// parse failure is reported with midly's message.
    pub fn parse(bytes: &[u8], strict: bool) -> (r: Result<ImportedMidi, String>)
        ensures
            match smf_parse_outcome(bytes@) {
                Err(e) => r is Err && r->Err_0@ == parse_error(e),
                Ok(c) => import_result(c, strict, r),
            },
    {
        match smf_parse(bytes) {
            Err(e) => {
                let mut m = String::from_str("failed to parse MIDI file: ");
                m.append(e.as_str());
                Err(m)
            },
            Ok(c) => ImportedMidi::from_content(&c, strict),
        }
    }
}

/// Number of tracks without a name among `names`.
pub open spec fn unnamed_count(names: Seq<Option<Seq<char>>>) -> nat
    decreases names.len(),
{
    if names.len() == 0 {
        0
    } else {
        unnamed_count(names.drop_last()) + if names.last() is None { 1nat } else { 0nat }
    }
}

/// The tag of an imported fugue: the track's name, or `imported-N` for the
/// `N`th track without one, behind the prefix when there is one.
pub open spec fn fugue_tag(name: Option<Seq<char>>, synth: nat, prefix: Option<Seq<char>>) -> Seq<char> {
    let base = match name {
        Some(n) => n,
        None => "imported-"@ + decimal(synth),
    };
    match prefix {
        Some(p) => p + base,
        None => base,
    }
}

/// The tags of the fugues made from tracks with the given names, in order;
/// unnamed tracks are numbered from one in the order they come.
pub open spec fn import_tags(names: Seq<Option<Seq<char>>>, prefix: Option<Seq<char>>) -> Seq<Seq<char>>
    decreases names.len(),
{
    if names.len() == 0 {
        Seq::empty()
    } else {
        import_tags(names.drop_last(), prefix).push(
            fugue_tag(names.last(), unnamed_count(names.drop_last()) + 1, prefix),
        )
    }
}

proof fn lemma_import_tags_len(names: Seq<Option<Seq<char>>>, prefix: Option<Seq<char>>)
    ensures
        import_tags(names, prefix).len() == names.len(),
    decreases names.len(),
{
    if names.len() > 0 {
        lemma_import_tags_len(names.drop_last(), prefix);
    }
}

/// The names of imported tracks.
pub open spec fn track_names(tracks: Seq<ImportedTrack>) -> Seq<Option<Seq<char>>> {
    Seq::new(tracks.len(), |i: int| opt_text(tracks[i].name))
}

/// The characters of an optional string slice.
pub open spec fn opt_str(o: Option<&str>) -> Option<Seq<char>> {
    match o {
        Some(s) => Some(s@),
        None => None,
    }
}

impl ImportedMidi {
    /// The tag of the fugue made from each track, in track order, as
    /// [`import_tags`] says.
    pub fn fugue_tags(&self, tag_prefix: Option<&str>) -> (r: Vec<String>)
        ensures
            r@.len() == self.tracks@.len(),
            forall|i: int| 0 <= i < r@.len() ==> (#[trigger] r@[i])@ == import_tags(track_names(self.tracks@), opt_str(tag_prefix))[i],
    {
        let ghost names = track_names(self.tracks@);
        let ghost prefix = opt_str(tag_prefix);
        let mut out: Vec<String> = Vec::new();
        let mut synth: usize = 0;
        let mut i: usize = 0;
        assert(names.take(0) =~= Seq::<Option<Seq<char>>>::empty());
        while i < self.tracks.len()
            invariant
                i <= self.tracks@.len(),
                names == track_names(self.tracks@),
                prefix == opt_str(tag_prefix),
                synth as nat == unnamed_count(names.take(i as int)),
                synth <= i,
                out@.len() == i,
                forall|j: int| 0 <= j < i ==> (#[trigger] out@[j])@ == import_tags(names.take(i as int), prefix)[j],
            decreases self.tracks@.len() - i,
        {
            let ghost t1 = names.take(i + 1);
            proof {
                assert(t1.drop_last() =~= names.take(i as int));
                assert(t1.last() == opt_text(self.tracks@[i as int].name));
            }
            let mut tag = match tag_prefix {
                Some(p) => String::from_str(p),
                None => String::new(),
            };
            match &self.tracks[i].name {
                Some(n) => {
                    tag.append(n.as_str());
                },
                None => {
                    synth = synth + 1;
                    tag.append("imported-");
                    push_decimal(&mut tag, synth as u64);
                },
            }
            proof {
                assert(tag@ =~= fugue_tag(t1.last(), unnamed_count(t1.drop_last()) + 1, prefix));
                lemma_import_tags_len(t1.drop_last(), prefix);
                assert(import_tags(t1, prefix) == import_tags(names.take(i as int), prefix).push(tag@));
            }
            out.push(tag);
            i = i + 1;
            proof {
                assert(names.take(i as int) == t1);
            }
        }
        assert(names.take(i as int) =~= names);
        proof {
            lemma_import_tags_len(names, prefix);
        }
        out
    }
}

/// Number of events of `s` whose kind satisfies `f`.
pub open spec fn count_where(s: Seq<(u64, ImportEvent)>, f: spec_fn(ImportEvent) -> bool) -> nat
    decreases s.len(),
{
    if s.len() == 0 {
        0
    } else {
        count_where(s.drop_last(), f) + if f(s.last().1) { 1nat } else { 0nat }
    }
}

/// `e` is a note-on of `channel` and `note`, at any velocity.
pub open spec fn is_note_on_of(e: ImportEvent, channel: u8, note: u8) -> bool {
    e matches ImportEvent::NoteOn { channel: c, note: n, .. } && c == channel && n == note
}

/// `e` is a note-off of `channel` and `note`.
pub open spec fn is_note_off_of(e: ImportEvent, channel: u8, note: u8) -> bool {
    e == ImportEvent::NoteOff { channel, note }
}

/// Number of note-ons of `channel` and `note` in `s`.
pub open spec fn count_ons(s: Seq<(u64, ImportEvent)>, channel: u8, note: u8) -> nat {
    count_where(s, |e: ImportEvent| is_note_on_of(e, channel, note))
}

/// Number of note-offs of `channel` and `note` in `s`.
pub open spec fn count_offs(s: Seq<(u64, ImportEvent)>, channel: u8, note: u8) -> nat {
    count_where(s, |e: ImportEvent| is_note_off_of(e, channel, note))
}

proof fn lemma_count_push(s: Seq<(u64, ImportEvent)>, x: (u64, ImportEvent), f: spec_fn(ImportEvent) -> bool)
    ensures
        count_where(s.push(x), f) == count_where(s, f) + if f(x.1) { 1nat } else { 0nat },
{
    assert(s.push(x).drop_last() =~= s);
}

proof fn lemma_count_append(a: Seq<(u64, ImportEvent)>, b: Seq<(u64, ImportEvent)>, f: spec_fn(ImportEvent) -> bool)
    ensures
        count_where(a + b, f) == count_where(a, f) + count_where(b, f),
    decreases b.len(),
{
    if b.len() == 0 {
        assert(a + b =~= a);
    } else {
        assert((a + b).drop_last() =~= a + b.drop_last());
        assert((a + b).last() == b.last());
        lemma_count_append(a, b.drop_last(), f);
    }
}

proof fn lemma_count_insert(s: Seq<(u64, ImportEvent)>, i: int, x: (u64, ImportEvent), f: spec_fn(ImportEvent) -> bool)
    requires
        0 <= i <= s.len(),
    ensures
        count_where(s.insert(i, x), f) == count_where(s, f) + if f(x.1) { 1nat } else { 0nat },
{
    let pre = s.take(i);
    let post = s.skip(i);
    assert(s =~= pre + post);
    assert(s.insert(i, x) =~= pre.push(x) + post);
    lemma_count_append(pre, post, f);
    lemma_count_append(pre.push(x), post, f);
    lemma_count_push(pre, x, f);
}

proof fn lemma_count_sorted(s: Seq<(u64, ImportEvent)>, f: spec_fn(ImportEvent) -> bool)
    ensures
        count_where(sort_by_tick(s), f) == count_where(s, f),
    decreases s.len(),
{
    if s.len() > 0 {
        let d = s.drop_last();
        lemma_count_sorted(d, f);
        crate::sort::lemma_sort_by_tick_sorted(d);
        let sorted = sort_by_tick(d);
        let p = crate::sort::insert_pos(sorted, s.last().0);
        crate::sort::lemma_insert_pos_bounds(sorted, s.last().0);
        lemma_count_insert(sorted, p, s.last(), f);
    }
}

proof fn lemma_count_repeat(m: nat, x: (u64, ImportEvent), f: spec_fn(ImportEvent) -> bool)
    ensures
        count_where(Seq::new(m, |j: int| x), f) == if f(x.1) { m } else { 0nat },
    decreases m,
{
    if m > 0 {
        assert(Seq::new(m, |j: int| x).drop_last() =~= Seq::new((m - 1) as nat, |j: int| x));
        lemma_count_repeat((m - 1) as nat, x, f);
    }
}

proof fn lemma_dangling_counts(open: Seq<nat>, tick: u64, channel: u8, note: u8)
    requires
        open.len() <= NOTE_SLOTS,
        channel < 16,
        note < 128,
    ensures
        count_ons(dangling_offs(open, tick), channel, note) == 0,
        count_offs(dangling_offs(open, tick), channel, note)
            == if slot_of(channel, note) < open.len() { open[slot_of(channel, note)] } else { 0nat },
    decreases open.len(),
{
    if open.len() > 0 {
        let k = open.len() - 1;
        let x = (tick, ImportEvent::NoteOff { channel: (k / 128) as u8, note: (k % 128) as u8 });
        lemma_dangling_counts(open.drop_last(), tick, channel, note);
        let on_f = |e: ImportEvent| is_note_on_of(e, channel, note);
        let off_f = |e: ImportEvent| is_note_off_of(e, channel, note);
        let rest = Seq::new(open.last(), |j: int| x);
        lemma_count_append(dangling_offs(open.drop_last(), tick), rest, on_f);
        lemma_count_append(dangling_offs(open.drop_last(), tick), rest, off_f);
        lemma_count_repeat(open.last(), x, on_f);
        lemma_count_repeat(open.last(), x, off_f);
        assert(off_f(x.1) <==> k == slot_of(channel, note));
    }
}

/// What a scan keeps: per channel and key, the note-ons emitted equal the
/// note-offs emitted plus the notes still open.
pub open spec fn scan_balanced(st: TrackScan) -> bool {
    &&& st.open.len() == NOTE_SLOTS
    &&& forall|c: u8, n: u8| c < 16 && n < 128 ==>
        #[trigger] count_ons(st.events, c, n) == count_offs(st.events, c, n) + st.open[slot_of(c, n)]
}

proof fn lemma_scan_balanced(track: Seq<SmfEvent>, strict: bool)
    requires
        track_in_range(track),
        scan_track(track, strict) is Some,
    ensures
        scan_balanced(scan_track(track, strict)->Some_0),
    decreases track.len(),
{
    if track.len() == 0 {
        let st = scan_start();
        assert forall|c: u8, n: u8| c < 16 && n < 128 implies
            #[trigger] count_ons(st.events, c, n) == count_offs(st.events, c, n) + st.open[slot_of(c, n)] by {}
    } else {
        let d = track.drop_last();
        assert forall|i: int| 0 <= i < d.len() implies (#[trigger] d[i]).delta < 0x1000_0000 && kind_in_range(d[i].kind) by {
            assert(d[i] == track[i]);
        }
        lemma_scan_balanced(d, strict);
        let st0 = scan_track(d, strict)->Some_0;
        let ev = track.last();
        assert(kind_in_range(ev.kind));
        let st1 = scan_track(track, strict)->Some_0;
        assert forall|c: u8, n: u8| c < 16 && n < 128 implies
            #[trigger] count_ons(st1.events, c, n) == count_offs(st1.events, c, n) + st1.open[slot_of(c, n)] by {
            let on_f = |e: ImportEvent| is_note_on_of(e, c, n);
            let off_f = |e: ImportEvent| is_note_off_of(e, c, n);
            assert(count_ons(st0.events, c, n) == count_offs(st0.events, c, n) + st0.open[slot_of(c, n)]);
            if st1.events.len() > st0.events.len() {
                let x = st1.events.last();
                assert(st1.events == st0.events.push(x));
                lemma_count_push(st0.events, x, on_f);
                lemma_count_push(st0.events, x, off_f);
            } else {
                assert(st1.events == st0.events);
            }
        }
    }
}

/// Every note that an imported track opens is closed: per channel and key,
/// the track's events hold as many note-offs as note-ons.
pub proof fn lemma_track_notes_balanced(track: Seq<SmfEvent>, strict: bool, channel: u8, note: u8)
    requires
        track_in_range(track),
        scan_track(track, strict) is Some,
        channel < 16,
        note < 128,
    ensures
        count_ons(track_events(scan_track(track, strict)->Some_0), channel, note)
            == count_offs(track_events(scan_track(track, strict)->Some_0), channel, note),
{
    let st = scan_track(track, strict)->Some_0;
    lemma_scan_balanced(track, strict);
    let on_f = |e: ImportEvent| is_note_on_of(e, channel, note);
    let off_f = |e: ImportEvent| is_note_off_of(e, channel, note);
    let all = st.events + dangling_offs(st.open, close_tick(st));
    lemma_count_sorted(all, on_f);
    lemma_count_sorted(all, off_f);
    lemma_count_append(st.events, dangling_offs(st.open, close_tick(st)), on_f);
    lemma_count_append(st.events, dangling_offs(st.open, close_tick(st)), off_f);
    lemma_dangling_counts(st.open, close_tick(st), channel, note);
    assert(count_ons(st.events, channel, note) == count_offs(st.events, channel, note) + st.open[slot_of(channel, note)]);
}

/// An imported track's events come in non-decreasing tick order.
pub proof fn lemma_track_events_sorted(st: TrackScan)
    ensures
        crate::sort::ticks_sorted(track_events(st)),
{
    crate::sort::lemma_sort_by_tick_sorted(st.events + dangling_offs(st.open, close_tick(st)));
}

/// Reading never goes back in time: the largest tick seen is the tick of
/// the last event read, events are emitted in tick order and none after
/// that tick, and an end-of-track event lies at or before it.
pub proof fn lemma_scan_in_tick_order(track: Seq<SmfEvent>, strict: bool)
    requires
        scan_track(track, strict) is Some,
    ensures
        ({
            let st = scan_track(track, strict)->Some_0;
            &&& st.max == st.abs
            &&& crate::sort::ticks_sorted(st.events)
            &&& forall|i: int| 0 <= i < st.events.len() ==> (#[trigger] st.events[i]).0 <= st.abs
            &&& (st.end matches Some(e) ==> e <= st.abs)
        }),
    decreases track.len(),
{
    if track.len() > 0 {
        let d = track.drop_last();
        if scan_track(d, strict) is None {
            assert(scan_track(track, strict) is None);
        } else {
            lemma_scan_in_tick_order(d, strict);
            let st0 = scan_track(d, strict)->Some_0;
            let st1 = scan_track(track, strict)->Some_0;
            assert(st1.abs >= st0.abs);
            if st1.events.len() > st0.events.len() {
                assert(st1.events == st0.events.push(st1.events.last()));
                assert(st1.events.last().0 == st1.abs);
                assert forall|i: int, j: int| 0 <= i < j < st1.events.len() implies st1.events[i].0 <= st1.events[j].0 by {
                    if j < st0.events.len() {
                        assert(st1.events[i] == st0.events[i] && st1.events[j] == st0.events[j]);
                    } else {
                        assert(st1.events[i] == st0.events[i]);
                    }
                }
                assert forall|i: int| 0 <= i < st1.events.len() implies (#[trigger] st1.events[i]).0 <= st1.abs by {
                    if i < st0.events.len() {
                        assert(st1.events[i] == st0.events[i]);
                    }
                }
            } else {
                assert(st1.events == st0.events);
            }
        }
    }
}

/// When no event lies after the tick where open notes are closed, the
/// final sort changes nothing: a track's events are those emitted, then
/// the closing note-offs.
pub proof fn lemma_track_events_unsorted(st: TrackScan)
    requires
        crate::sort::ticks_sorted(st.events),
        forall|i: int| 0 <= i < st.events.len() ==> (#[trigger] st.events[i]).0 <= close_tick(st),
    ensures
        track_events(st) == st.events + dangling_offs(st.open, close_tick(st)),
{
    let all = st.events + dangling_offs(st.open, close_tick(st));
    lemma_dangling_at_tick(st.open, close_tick(st));
    assert forall|i: int, j: int| 0 <= i < j < all.len() implies all[i].0 <= all[j].0 by {
        if j < st.events.len() {
            assert(all[i] == st.events[i] && all[j] == st.events[j]);
        } else if i < st.events.len() {
            assert(all[i] == st.events[i]);
            assert(all[j] == dangling_offs(st.open, close_tick(st))[j - st.events.len()]);
        } else {
            assert(all[i] == dangling_offs(st.open, close_tick(st))[i - st.events.len()]);
            assert(all[j] == dangling_offs(st.open, close_tick(st))[j - st.events.len()]);
        }
    }
    crate::sort::lemma_sort_by_tick_sorted_identity(all);
}

proof fn lemma_dangling_at_tick(open: Seq<nat>, tick: u64)
    ensures
        forall|i: int| 0 <= i < dangling_offs(open, tick).len() ==> (#[trigger] dangling_offs(open, tick)[i]).0 == tick,
    decreases open.len(),
{
    if open.len() > 0 {
        lemma_dangling_at_tick(open.drop_last(), tick);
        let k = open.len() - 1;
        let a = dangling_offs(open.drop_last(), tick);
        let b = Seq::new(open.last(), |j: int| (tick, ImportEvent::NoteOff { channel: (k / 128) as u8, note: (k % 128) as u8 }));
        assert forall|i: int| 0 <= i < (a + b).len() implies (#[trigger] (a + b)[i]).0 == tick by {
            if i < a.len() {
                assert((a + b)[i] == a[i]);
            } else {
                assert((a + b)[i] == b[i - a.len()]);
            }
        }
    }
}

/// Every track an import keeps has something to play, and the tracks keep
/// the order of the file.
pub proof fn lemma_kept_tracks_nonempty(tracks: Seq<Vec<SmfEvent>>, strict: bool)
    requires
        kept_scans(tracks, strict) is Some,
    ensures
        forall|i: int| 0 <= i < kept_scans(tracks, strict)->Some_0.len()
            ==> track_events(#[trigger] kept_scans(tracks, strict)->Some_0[i]).len() > 0,
        kept_scans(tracks, strict)->Some_0.len() <= tracks.len(),
    decreases tracks.len(),
{
    if tracks.len() > 0 {
        lemma_kept_tracks_nonempty(tracks.drop_last(), strict);
        let prev = kept_scans(tracks.drop_last(), strict)->Some_0;
        let cur = kept_scans(tracks, strict)->Some_0;
        assert forall|i: int| 0 <= i < cur.len() implies track_events(#[trigger] cur[i]).len() > 0 by {
            if i < prev.len() {
                assert(cur[i] == prev[i]);
            }
        }
    }
}

} // verus!
