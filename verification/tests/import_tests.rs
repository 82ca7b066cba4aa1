use droplets::export::{build_named_track, ExportedMidi, ExportedTrack};
use droplets::import::{parse_track, ImportEvent, ImportedMidi, TrackDuration};
use droplets::smf::{SmfEvent, SmfEventKind, SmfMessage, SmfWriteKind};
use midly::num::{u14, u15, u28, u4, u7};
use midly::{Format, Header, MetaMessage, MidiMessage, PitchBend, Smf, Timing, TrackEvent, TrackEventKind};

fn smf_bytes(tracks: Vec<Vec<TrackEvent<'static>>>) -> Vec<u8> {
    let format = if tracks.len() == 1 { Format::SingleTrack } else { Format::Parallel };
    let smf = Smf { header: Header { format, timing: Timing::Metrical(u15::new(480)) }, tracks };
    let mut bytes = Vec::new();
    smf.write_std(&mut bytes).unwrap();
    bytes
}

fn midi(delta: u32, message: MidiMessage) -> TrackEvent<'static> {
    TrackEvent { delta: u28::new(delta), kind: TrackEventKind::Midi { channel: u4::new(0), message } }
}

fn end_of_track(delta: u32) -> TrackEvent<'static> {
    TrackEvent { delta: u28::new(delta), kind: TrackEventKind::Meta(MetaMessage::EndOfTrack) }
}

fn note_on(delta: u32, key: u8, vel: u8) -> TrackEvent<'static> {
    midi(delta, MidiMessage::NoteOn { key: u7::new(key), vel: u7::new(vel) })
}

fn count_notes(events: &[(u64, ImportEvent)]) -> (usize, usize) {
    let on = events.iter().filter(|e| matches!(e.1, ImportEvent::NoteOn { .. })).count();
    let off = events.iter().filter(|e| matches!(e.1, ImportEvent::NoteOff { .. })).count();
    (on, off)
}

#[test]
fn rejects_malformed_bytes() {
    let r = ImportedMidi::parse(b"not a MIDI file", false);
    let e = r.unwrap_err();
    assert!(e.starts_with("failed to parse MIDI file: "));
}

#[test]
fn synthetic_tag_when_track_name_missing() {
    let bytes = smf_bytes(vec![vec![
        note_on(0, 60, 100),
        midi(480, MidiMessage::NoteOff { key: u7::new(60), vel: u7::new(0) }),
        end_of_track(0),
    ]]);
    let imported = ImportedMidi::parse(&bytes, false).unwrap();
    assert_eq!(imported.tracks.len(), 1);
    assert_eq!(imported.fugue_tags(None), vec!["imported-1".to_string()]);
}

#[test]
fn note_on_velocity_zero_treated_as_off() {
    let bytes = smf_bytes(vec![vec![note_on(0, 60, 100), note_on(480, 60, 0), end_of_track(0)]]);
    let imported = ImportedMidi::parse(&bytes, false).unwrap();
    assert_eq!(count_notes(&imported.tracks[0].events), (1, 1));
    assert_eq!(
        imported.tracks[0].events,
        vec![
            (0, ImportEvent::NoteOn { channel: 0, note: 60, velocity: 100 }),
            (480, ImportEvent::NoteOff { channel: 0, note: 60 }),
        ]
    );
}

#[test]
fn dangling_note_on_closes_at_eot() {
    let bytes = smf_bytes(vec![vec![note_on(0, 60, 100), end_of_track(960)]]);
    let imported = ImportedMidi::parse(&bytes, false).unwrap();
    let t = &imported.tracks[0];
    assert_eq!(count_notes(&t.events), (1, 1));
    assert_eq!(t.events[1], (960, ImportEvent::NoteOff { channel: 0, note: 60 }));
    assert_eq!(t.duration, TrackDuration::EndOfTrack(960));
}

#[test]
fn cc_passthrough() {
    let mut track = Vec::new();
    for (delta, val) in [(0u32, 0u8), (120, 64), (120, 127)] {
        track.push(midi(delta, MidiMessage::Controller { controller: u7::new(74), value: u7::new(val) }));
    }
    track.push(end_of_track(0));
    let imported = ImportedMidi::parse(&smf_bytes(vec![track]), false).unwrap();
    let cc: Vec<(u64, u8, u8)> = imported.tracks[0]
        .events
        .iter()
        .filter_map(|e| match e.1 {
            ImportEvent::Cc { cc, value, .. } => Some((e.0, cc, value)),
            _ => None,
        })
        .collect();
    assert_eq!(cc, vec![(0, 74, 0), (120, 74, 64), (240, 74, 127)]);
}

#[test]
fn strict_mode_rejects_pitch_bend() {
    let bytes = smf_bytes(vec![vec![
        midi(0, MidiMessage::PitchBend { bend: PitchBend(u14::new(8192)) }),
        end_of_track(0),
    ]]);
    let err = ImportedMidi::parse(&bytes, true).unwrap_err();
    assert_eq!(
        err,
        "file contains per-note expression (pitch bend / aftertouch) which this importer cannot represent; disable strict mode to drop those events"
    );
    let imported = ImportedMidi::parse(&bytes, false).unwrap();
    assert!(imported.tracks.is_empty());
}

#[test]
fn smpte_timing_is_rejected() {
    let smf = Smf {
        header: Header { format: Format::SingleTrack, timing: Timing::Timecode(midly::Fps::Fps25, 40) },
        tracks: vec![vec![end_of_track(0)]],
    };
    let mut bytes = Vec::new();
    smf.write_std(&mut bytes).unwrap();
    assert_eq!(
        ImportedMidi::parse(&bytes, false).unwrap_err(),
        "SMPTE-timed MIDI files are not supported (only PPQ/metrical)"
    );
}

#[test]
fn zero_ppq_is_rejected() {
    let smf = Smf {
        header: Header { format: Format::SingleTrack, timing: Timing::Metrical(u15::new(0)) },
        tracks: vec![vec![end_of_track(0)]],
    };
    let mut bytes = Vec::new();
    smf.write_std(&mut bytes).unwrap();
    assert_eq!(ImportedMidi::parse(&bytes, false).unwrap_err(), "MIDI file declares zero PPQ");
}

#[test]
fn track_name_is_trimmed_and_last_wins() {
    let track = vec![
        SmfEvent { delta: 0, kind: SmfEventKind::TrackName(b"  first ".to_vec()) },
        SmfEvent { delta: 0, kind: SmfEventKind::TrackName(b"   ".to_vec()) },
        SmfEvent { delta: 0, kind: SmfEventKind::TrackName(b" bass\t".to_vec()) },
        SmfEvent { delta: 10, kind: SmfEventKind::Midi { channel: 1, message: SmfMessage::NoteOn { key: 36, vel: 90 } } },
    ];
    let t = parse_track(&track, 480, false).unwrap();
    assert_eq!(t.name.as_deref(), Some("bass"));
    // No end-of-track: the note closes at the last tick, length rounds up to a whole beat.
    assert_eq!(
        t.events,
        vec![
            (10, ImportEvent::NoteOn { channel: 1, note: 36, velocity: 90 }),
            (10, ImportEvent::NoteOff { channel: 1, note: 36 }),
        ]
    );
    assert_eq!(t.duration, TrackDuration::WholeBeats(1));
}

#[test]
fn whole_beats_round_up() {
    let track = vec![
        SmfEvent { delta: 0, kind: SmfEventKind::Midi { channel: 0, message: SmfMessage::Controller { controller: 1, value: 5 } } },
        SmfEvent { delta: 961, kind: SmfEventKind::Midi { channel: 0, message: SmfMessage::Controller { controller: 1, value: 6 } } },
    ];
    let t = parse_track(&track, 480, false).unwrap();
    assert_eq!(t.duration, TrackDuration::WholeBeats(3));
}

#[test]
fn retriggered_notes_pair_first_in_first_out_and_orphans_drop() {
    let track = vec![
        SmfEvent { delta: 0, kind: SmfEventKind::Midi { channel: 0, message: SmfMessage::NoteOff { key: 50, vel: 0 } } },
        SmfEvent { delta: 0, kind: SmfEventKind::Midi { channel: 0, message: SmfMessage::NoteOn { key: 60, vel: 100 } } },
        SmfEvent { delta: 100, kind: SmfEventKind::Midi { channel: 0, message: SmfMessage::NoteOn { key: 60, vel: 80 } } },
        SmfEvent { delta: 100, kind: SmfEventKind::Midi { channel: 0, message: SmfMessage::NoteOff { key: 60, vel: 0 } } },
        SmfEvent { delta: 100, kind: SmfEventKind::Midi { channel: 2, message: SmfMessage::NoteOn { key: 10, vel: 1 } } },
        SmfEvent { delta: 100, kind: SmfEventKind::EndOfTrack },
    ];
    let t = parse_track(&track, 480, false).unwrap();
    assert_eq!(
        t.events,
        vec![
            (0, ImportEvent::NoteOn { channel: 0, note: 60, velocity: 100 }),
            (100, ImportEvent::NoteOn { channel: 0, note: 60, velocity: 80 }),
            (200, ImportEvent::NoteOff { channel: 0, note: 60 }),
            (300, ImportEvent::NoteOn { channel: 2, note: 10, velocity: 1 }),
            (400, ImportEvent::NoteOff { channel: 0, note: 60 }),
            (400, ImportEvent::NoteOff { channel: 2, note: 10 }),
        ]
    );
}

#[test]
fn tag_prefix_namespaces_imports() {
    let named = build_named_track("melody", vec![(0, SmfWriteKind::Midi { channel: 0, message: SmfMessage::NoteOn { key: 60, vel: 100 } })]);
    assert_eq!(named.len(), 3);
    let export = ExportedMidi {
        tempo_us: 500_000,
        tracks: vec![
            ExportedTrack { name: "melody".to_string(), events: vec![(0, SmfWriteKind::Midi { channel: 0, message: SmfMessage::NoteOn { key: 60, vel: 100 } }), (480, SmfWriteKind::Midi { channel: 0, message: SmfMessage::NoteOff { key: 60, vel: 0 } })] },
        ],
    };
    let bytes = export.to_bytes().unwrap();
    let imported = ImportedMidi::parse(&bytes, false).unwrap();
    assert_eq!(imported.fugue_tags(Some("edited-")), vec!["edited-melody".to_string()]);
    assert_eq!(imported.fugue_tags(None), vec!["melody".to_string()]);
}

#[test]
fn round_trip_multi_track() {
    let export = ExportedMidi {
        tempo_us: 500_000,
        tracks: vec![
            ExportedTrack { name: "bass".to_string(), events: vec![(0, SmfWriteKind::Midi { channel: 0, message: SmfMessage::NoteOn { key: 36, vel: 100 } }), (480, SmfWriteKind::Midi { channel: 0, message: SmfMessage::NoteOff { key: 36, vel: 0 } })] },
            ExportedTrack { name: "lead".to_string(), events: vec![(240, SmfWriteKind::Midi { channel: 1, message: SmfMessage::NoteOff { key: 60, vel: 0 } }), (0, SmfWriteKind::Midi { channel: 1, message: SmfMessage::NoteOn { key: 60, vel: 100 } })] },
        ],
    };
    let imported = ImportedMidi::parse(&export.to_bytes().unwrap(), false).unwrap();
    assert_eq!(imported.ppq, 480);
    assert_eq!(imported.tracks.len(), 2);
    assert_eq!(imported.fugue_tags(None), vec!["bass".to_string(), "lead".to_string()]);
    assert_eq!(
        imported.tracks[1].events,
        vec![
            (0, ImportEvent::NoteOn { channel: 1, note: 60, velocity: 100 }),
            (240, ImportEvent::NoteOff { channel: 1, note: 60 }),
        ]
    );
}

#[test]
fn empty_track_produces_no_fugue() {
    let export = ExportedMidi { tempo_us: 500_000, tracks: vec![] };
    let imported = ImportedMidi::parse(&export.to_bytes().unwrap(), false).unwrap();
    assert!(imported.tracks.is_empty());
}

#[test]
fn unnamed_tracks_are_numbered_in_order() {
    let t = |name: Option<&str>| droplets::import::ImportedTrack {
        name: name.map(|s| s.to_string()),
        events: vec![],
        duration: TrackDuration::WholeBeats(1),
    };
    let m = ImportedMidi { ppq: 480, tracks: vec![t(None), t(Some("x")), t(None)] };
    assert_eq!(
        m.fugue_tags(Some("p-")),
        vec!["p-imported-1".to_string(), "p-x".to_string(), "p-imported-2".to_string()]
    );
}
