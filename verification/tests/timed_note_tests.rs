use droplets::midi::NoteMessage;
use droplets::notes::ActiveNotes;
use droplets::timed_notes::{process_note_event, schedule_timed_note, NoteEvent, PendingOff, PENDING_RING_SLOTS};

struct Voice<B: Copy> {
    notes: ActiveNotes,
    ring: Vec<Option<PendingOff<B>>>,
    seq: u64,
    out: Vec<(u32, NoteMessage)>,
}

impl<B: Copy> Voice<B> {
    fn new() -> Self {
        Voice { notes: ActiveNotes::new(), ring: vec![None; PENDING_RING_SLOTS], seq: 0, out: Vec::new() }
    }

    fn play(&mut self, channel: u8, note: u8, sample_offset: u32, end: B, positive: bool) {
        schedule_timed_note(
            &mut self.notes, &mut self.ring, &mut self.seq, channel, note, 100, sample_offset, end, positive, &mut self.out,
        );
    }

    fn pending(&self) -> Vec<PendingOff<B>> {
        self.ring.iter().filter_map(|s| *s).collect()
    }

    fn on_count(&self) -> usize {
        self.out.iter().filter(|(_, m)| m.is_note_on).count()
    }

    fn off_count(&self) -> usize {
        self.out.iter().filter(|(_, m)| !m.is_note_on).count()
    }
}

#[test]
fn same_pitch_retrigger_emits_note_off_strictly_before_next_note_on() {
    let mut v: Voice<f64> = Voice::new();
    v.play(0, 60, 0, 4.0, true);
    v.play(0, 60, 480, 4.0, true);
    let off = v.out.iter().find(|(_, m)| m.note == 60 && !m.is_note_on).expect("A's NoteOff at retrigger point missing");
    let new_on = v.out.iter().filter(|(_, m)| m.note == 60 && m.is_note_on).nth(1).expect("B's NoteOn at retrigger point missing");
    assert!(off.0 < new_on.0, "retrigger: NoteOff at {} should come strictly before NoteOn at {}", off.0, new_on.0);
    assert_eq!(off.0, 479);
    let pos_off = v.out.iter().position(|(_, m)| !m.is_note_on).unwrap();
    assert_eq!(pos_off, 1);
    // A's eviction now, B's note-off still pending: two in all.
    assert_eq!(v.off_count() + v.pending().len(), 2);
    assert_eq!(v.pending().len(), 1);
    assert_eq!(v.pending()[0].seq, 1);
    assert!(v.notes.is_note_active(0, 60));
}

#[test]
fn retrigger_at_first_sample_stays_at_first_sample() {
    let mut v: Voice<u64> = Voice::new();
    v.play(3, 10, 0, 100, true);
    v.play(3, 10, 0, 200, true);
    assert_eq!(v.out[1], (0, NoteMessage::new(3, 10, 0, false)));
    assert_eq!(v.out[2], (0, NoteMessage::new(3, 10, 100, true)));
    assert_eq!(v.pending().len(), 1);
    assert_eq!(v.pending()[0].end, 200);
}

#[test]
fn zero_duration_timed_note_is_dropped() {
    let mut v: Voice<f64> = Voice::new();
    for (beat, note, dur) in [(0.0f64, 60u8, 0.0f64), (1.0, 62, 1.0), (2.0, 64, -0.5)] {
        v.play(0, note, 0, beat + dur, dur > 0.0);
    }
    assert_eq!(v.on_count(), 1, "only note 62 should NoteOn. Events: {:?}", v.out);
    assert_eq!(v.pending().len(), 1, "only note 62 should NoteOff. Events: {:?}", v.out);
    assert!(v.out.iter().any(|(_, m)| m.note == 62 && m.is_note_on));
    assert_eq!(v.seq, 1);
    assert!(!v.notes.is_note_active(0, 60));
}

#[test]
fn many_concurrent_timed_notes_each_get_their_own_off() {
    let mut v: Voice<f64> = Voice::new();
    for i in 0..16u8 {
        v.play(0, 60 + i, 0, 1.0 + 0.1 * i as f64, true);
    }
    assert_eq!(v.on_count(), 16, "16 concurrent TimedNotes should produce 16 NoteOns. Events: {:?}", v.out);
    assert_eq!(v.pending().len(), 16, "...and 16 matching NoteOffs");
    for i in 0..16u8 {
        let pitch = 60 + i;
        let expected_end = 1.0 + 0.1 * i as f64;
        let off = v.pending().into_iter().find(|p| p.note == pitch).expect(&format!("missing NoteOff for pitch {}", pitch));
        assert!((off.end - expected_end).abs() < 1e-9, "pitch {} NoteOff at {:.3}, expected ≈ {:.3}", pitch, off.end, expected_end);
        assert_eq!(off.seq, i as u64);
    }
}

#[test]
fn ring_full_voice_steals_oldest_slot_and_emits_its_note_off() {
    let count = PENDING_RING_SLOTS + 4;
    let mut v: Voice<f64> = Voice::new();
    for i in 0..count {
        v.play(0, (i % 128) as u8, i as u32, 8.0, true);
    }
    // Every note-on is paired with a note-off sent now or still pending.
    assert_eq!(v.on_count(), v.off_count() + v.pending().len());
    assert_eq!(v.pending().len(), PENDING_RING_SLOTS);
}

#[test]
fn full_ring_releases_the_oldest_note() {
    let mut v: Voice<u32> = Voice::new();
    for n in 0..128u8 {
        v.play(0, n, 0, 1000 + n as u32, true);
    }
    assert_eq!(v.off_count(), 0);
    v.play(1, 0, 7, 5000, true);
    // Note-on first, then the stolen note's note-off at the same sample.
    let len = v.out.len();
    assert_eq!(v.out[len - 2], (7, NoteMessage::new(1, 0, 100, true)));
    assert_eq!(v.out[len - 1], (7, NoteMessage::new(0, 0, 0, false)));
    assert!(!v.notes.is_note_active(0, 0));
    assert!(v.notes.is_note_active(1, 0));
    let slot0 = v.ring[0].unwrap();
    assert_eq!((slot0.channel, slot0.note, slot0.end, slot0.seq), (1, 0, 5000, 128));
    // The next steal takes the next oldest.
    v.play(2, 0, 9, 6000, true);
    assert_eq!(v.out[v.out.len() - 1], (9, NoteMessage::new(0, 1, 0, false)));
    assert_eq!(v.ring[1].unwrap().seq, 129);
}

#[test]
fn sequence_numbers_wrap() {
    let mut v: Voice<u8> = Voice::new();
    v.seq = u64::MAX;
    v.play(0, 1, 0, 1, true);
    assert_eq!(v.seq, 0);
    assert_eq!(v.pending()[0].seq, u64::MAX);
}

#[test]
fn note_events_in_order() {
    let mut v: Voice<u32> = Voice::new();
    process_note_event(&mut v.notes, &mut v.ring, &mut v.seq, NoteEvent::NoteOn { channel: 17, note: 40, velocity: 90 }, 3, &mut v.out);
    assert!(v.notes.is_note_active(1, 40));
    process_note_event(
        &mut v.notes, &mut v.ring, &mut v.seq,
        NoteEvent::TimedNote { channel: 2, note: 50, velocity: 80, positive: true, end: 960 }, 4, &mut v.out,
    );
    process_note_event(
        &mut v.notes, &mut v.ring, &mut v.seq,
        NoteEvent::TimedNote { channel: 2, note: 51, velocity: 80, positive: false, end: 960 }, 5, &mut v.out,
    );
    process_note_event(&mut v.notes, &mut v.ring, &mut v.seq, NoteEvent::NoteOff { channel: 1, note: 40 }, 6, &mut v.out);
    assert!(!v.notes.is_note_active(1, 40));
    assert!(v.notes.is_note_active(2, 50));
    assert!(!v.notes.is_note_active(2, 51));
    assert_eq!(
        v.out,
        vec![
            (3, NoteMessage::new(17, 40, 90, true)),
            (4, NoteMessage::new(2, 50, 80, true)),
            (6, NoteMessage::new(1, 40, 0, false)),
        ]
    );
    assert_eq!(v.pending().len(), 1);
    assert_eq!(v.seq, 1);
}

#[test]
fn dropped_timed_note_needs_no_valid_pitch() {
    let mut v: Voice<u32> = Voice::new();
    process_note_event(
        &mut v.notes, &mut v.ring, &mut v.seq,
        NoteEvent::TimedNote { channel: 0, note: 200, velocity: 80, positive: false, end: 1 }, 0, &mut v.out,
    );
    assert!(v.out.is_empty());
    assert!(v.pending().is_empty());
    assert_eq!(v.seq, 0);
}
