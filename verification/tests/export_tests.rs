use droplets::bridge::FugueRecord;
use droplets::export::select_for_drag;
use droplets::export::{
    build_conductor_track, encode_events, fugue_to_smf, generate_filename, group_by_tag, track_names, EXPORT_PPQ,
};
use droplets::import::{ImportEvent, ImportedMidi};
use droplets::smf::{SmfMessage, SmfWriteEvent, SmfWriteKind};

fn tags(v: &[Option<&str>]) -> Vec<Option<String>> {
    v.iter().map(|t| t.map(|s| s.to_string())).collect()
}

fn groups(v: &[Option<&str>]) -> Vec<(Option<String>, Vec<usize>)> {
    group_by_tag(&tags(v)).into_iter().map(|g| (g.tag, g.members)).collect()
}

#[test]
fn groups_share_tags_in_first_seen_order() {
    let g = groups(&[Some("bass"), None, Some("lead"), Some("bass"), None, Some("lead")]);
    assert_eq!(
        g,
        vec![
            (Some("bass".to_string()), vec![0, 3]),
            (None, vec![1]),
            (Some("lead".to_string()), vec![2, 5]),
            (None, vec![4]),
        ]
    );
}

#[test]
fn grouping_nothing_gives_nothing() {
    assert!(groups(&[]).is_empty());
}

#[test]
fn all_retagged_fugues_form_one_group() {
    let g = groups(&[Some("_merged"), Some("_merged"), Some("_merged")]);
    assert_eq!(g, vec![(Some("_merged".to_string()), vec![0, 1, 2])]);
}

#[test]
fn untagged_tracks_are_named_fugue_n() {
    let names = track_names(&tags(&[None, Some("bass"), None, None]));
    assert_eq!(names, vec!["fugue-1", "bass", "fugue-2", "fugue-3"]);
}

#[test]
fn filename_sanitises_tag() {
    assert_eq!(generate_filename(Some("my bass/line-1_x"), 1700000000), "my_bass_line-1_x_1700000000.mid");
    assert_eq!(generate_filename(None, 0), "fugue_0.mid");
    assert_eq!(generate_filename(Some("héllo!"), 42), "héllo__42.mid");
}

#[test]
fn events_are_sorted_stably_and_delta_encoded() {
    let encoded = encode_events(vec![
        (480, SmfWriteKind::Midi { channel: 0, message: SmfMessage::NoteOff { key: 60, vel: 0 } }),
        (0, SmfWriteKind::Midi { channel: 0, message: SmfMessage::NoteOn { key: 60, vel: 100 } }),
        (480, SmfWriteKind::Midi { channel: 0, message: SmfMessage::NoteOn { key: 64, vel: 90 } }),
        (960, SmfWriteKind::Midi { channel: 0, message: SmfMessage::NoteOff { key: 64, vel: 0 } }),
    ]);
    let deltas: Vec<u32> = encoded.iter().map(|e| e.delta).collect();
    assert_eq!(deltas, vec![0, 480, 0, 480]);
    assert!(matches!(encoded[1].kind, SmfWriteKind::Midi { message: SmfMessage::NoteOff { key: 60, .. }, .. }));
    assert!(matches!(encoded[2].kind, SmfWriteKind::Midi { message: SmfMessage::NoteOn { key: 64, .. }, .. }));
}

#[test]
fn conductor_track_holds_tempo_then_end() {
    let t = build_conductor_track(500_000);
    assert_eq!(t.len(), 2);
    assert!(matches!(t[0], SmfWriteEvent { delta: 0, kind: SmfWriteKind::Tempo(500_000) }));
    assert!(matches!(t[1], SmfWriteEvent { delta: 0, kind: SmfWriteKind::EndOfTrack }));
}

#[test]
fn export_test_simple_export() {
    let bytes = fugue_to_smf(
        500_000,
        vec![
            (0, SmfWriteKind::Midi { channel: 0, message: SmfMessage::NoteOn { key: 60, vel: 100 } }),
            (480, SmfWriteKind::Midi { channel: 0, message: SmfMessage::NoteOff { key: 60, vel: 0 } }),
        ],
    )
    .unwrap();
    assert!(!bytes.is_empty());
    assert_eq!(&bytes[0..4], b"MThd");
    let imported = ImportedMidi::parse(&bytes, false).unwrap();
    assert_eq!(imported.ppq, EXPORT_PPQ);
    assert_eq!(
        imported.tracks[0].events,
        vec![
            (0, ImportEvent::NoteOn { channel: 0, note: 60, velocity: 100 }),
            (480, ImportEvent::NoteOff { channel: 0, note: 60 }),
        ]
    );
}

#[test]
fn drag_selection_by_id_strings() {
    let defs = || -> Vec<FugueRecord<u8>> {
        vec![
            FugueRecord { id: 1, tag: None, payload: 0 },
            FugueRecord { id: 2, tag: Some("bass".to_string()), payload: 0 },
            FugueRecord { id: 3, tag: None, payload: 0 },
        ]
    };
    let picked: Vec<u64> = select_for_drag(defs(), Some(&vec!["3".to_string(), "x".to_string(), "+1".to_string()]))
        .iter()
        .map(|d| d.id)
        .collect();
    assert_eq!(picked, vec![1, 3]);
    assert_eq!(select_for_drag(defs(), None).len(), 3);
    assert!(select_for_drag(defs(), Some(&vec![])).is_empty());
}
