use droplets::arith::lcm_ticks_capped;
use droplets::export::{group_by_tag, track_names, ExportedMidi, ExportedTrack};
use droplets::import::{ImportEvent, ImportedMidi};
use droplets::notes::ActiveNotes;
use droplets::smf::{SmfMessage, SmfWriteKind};

/// Ticks per beat at which merged lengths are compared.
const TICKS_PER_BEAT: u64 = 960;
/// The 128-beat cap on merged lengths, in ticks.
const CAP_TICKS: u64 = 128 * TICKS_PER_BEAT;

fn tags(v: &[Option<&str>]) -> Vec<Option<String>> {
    v.iter().map(|t| t.map(|s| s.to_string())).collect()
}

fn note_on(tick: u32, key: u8) -> (u32, SmfWriteKind) {
    (tick, SmfWriteKind::Midi { channel: 0, message: SmfMessage::NoteOn { key, vel: 100 } })
}

fn note_off(tick: u32, key: u8) -> (u32, SmfWriteKind) {
    (tick, SmfWriteKind::Midi { channel: 0, message: SmfMessage::NoteOff { key, vel: 0 } })
}

fn export(names: &[&str], events: Vec<Vec<(u32, SmfWriteKind)>>) -> Vec<u8> {
    let tracks = names
        .iter()
        .zip(events)
        .map(|(n, e)| ExportedTrack { name: n.to_string(), events: e })
        .collect();
    ExportedMidi { tempo_us: 500_000, tracks }.to_bytes().unwrap()
}

fn midly_track_count(bytes: &[u8]) -> usize {
    midly::Smf::parse(bytes).unwrap().tracks.len()
}

#[test]
fn fugue_test_note_tracking() {
    let mut notes = ActiveNotes::new();
    assert!(!notes.is_note_active(0, 60));
    assert!(notes.get_active_notes().is_empty());
    notes.set_note_active(0, 60);
    assert!(notes.is_note_active(0, 60));
    assert_eq!(notes.get_active_notes(), vec![(0, 60)]);
    notes.set_note_active(1, 64);
    assert!(notes.is_note_active(1, 64));
    assert_eq!(notes.get_active_notes(), vec![(0, 60), (1, 64)]);
    notes.set_note_inactive(0, 60);
    assert!(!notes.is_note_active(0, 60));
    assert!(notes.is_note_active(1, 64));
    notes.clear_active_notes();
    assert!(notes.get_active_notes().is_empty());
}

#[test]
fn fugue_test_note_tracking_high_notes() {
    let mut notes = ActiveNotes::new();
    notes.set_note_active(0, 100);
    notes.set_note_active(0, 127);
    assert!(notes.is_note_active(0, 100));
    assert!(notes.is_note_active(0, 127));
    assert!(!notes.is_note_active(0, 60));
}

#[test]
fn state_test_note_tracking() {
    let mut notes = ActiveNotes::new();
    assert!(!notes.is_note_active(0, 60));
    notes.set_note_active(0, 60);
    assert_eq!(notes.get_active_notes(), vec![(0, 60)]);
    notes.set_note_active(1, 64);
    assert_eq!(notes.get_active_notes(), vec![(0, 60), (1, 64)]);
    notes.set_note_inactive(0, 60);
    assert!(!notes.is_note_active(0, 60));
    assert!(notes.is_note_active(1, 64));
    notes.clear_active_notes();
    assert!(notes.get_active_notes().is_empty());
}

#[test]
fn state_test_note_tracking_high_notes() {
    let mut notes = ActiveNotes::new();
    notes.set_note_active(0, 100);
    notes.set_note_active(0, 127);
    assert!(notes.is_note_active(0, 100));
    assert!(notes.is_note_active(0, 127));
    assert!(!notes.is_note_active(0, 60));
}

#[test]
fn export_fugues_to_smf_empty_input_still_valid_file() {
    let bytes = export(&[], vec![]);
    assert_eq!(midly_track_count(&bytes), 1);
}

#[test]
fn export_fugues_to_smf_one_track_per_tag() {
    let groups = group_by_tag(&tags(&[Some("bass"), Some("lead")]));
    assert_eq!(groups.len(), 2);
    let bytes = export(
        &["bass", "lead"],
        vec![vec![note_on(0, 36), note_off(480, 36)], vec![note_on(0, 60), note_off(240, 60)]],
    );
    let smf = midly::Smf::parse(&bytes).unwrap();
    assert_eq!(smf.tracks.len(), 3);
    assert!(smf.tracks[0]
        .iter()
        .any(|e| matches!(e.kind, midly::TrackEventKind::Meta(midly::MetaMessage::Tempo(_)))));
}

#[test]
fn export_fugues_to_smf_track_names_match_tags() {
    let names = track_names(&tags(&[Some("bass"), Some("lead")]));
    let bytes = export(&[names[0].as_str(), names[1].as_str()], vec![vec![], vec![]]);
    let smf = midly::Smf::parse(&bytes).unwrap();
    let name_of = |t: &midly::Track| {
        t.iter().find_map(|e| match e.kind {
            midly::TrackEventKind::Meta(midly::MetaMessage::TrackName(n)) => Some(String::from_utf8_lossy(n).into_owned()),
            _ => None,
        })
    };
    assert_eq!(name_of(&smf.tracks[1]).as_deref(), Some("bass"));
    assert_eq!(name_of(&smf.tracks[2]).as_deref(), Some("lead"));
}

#[test]
fn export_fugues_to_smf_same_tag_merges_events_into_one_track() {
    let groups = group_by_tag(&tags(&[Some("bass"), Some("bass")]));
    assert_eq!(groups.len(), 1);
    assert_eq!(groups[0].members, vec![0, 1]);
    // Both members last 4 beats: the merged track lasts 4 beats too.
    assert_eq!(lcm_ticks_capped(&vec![4 * TICKS_PER_BEAT, 4 * TICKS_PER_BEAT], CAP_TICKS), 4 * TICKS_PER_BEAT);
}

#[test]
fn export_fugues_to_smf_untagged_fugues_get_unique_tracks() {
    let names = track_names(&tags(&[None, None]));
    assert_eq!(names, vec!["fugue-1", "fugue-2"]);
    let bytes = export(&["fugue-1", "fugue-2"], vec![vec![note_on(0, 60)], vec![note_on(0, 62)]]);
    assert_eq!(midly_track_count(&bytes), 3);
}

#[test]
fn export_merge_keeps_untagged_fugues_separate() {
    let groups = group_by_tag(&tags(&[None, None]));
    assert_eq!(groups.len(), 2);
    assert!(groups.iter().all(|g| g.tag.is_none()));
}

#[test]
fn export_merge_folds_same_tag_into_one_definition() {
    let groups = group_by_tag(&tags(&[Some("bass"), Some("bass")]));
    assert_eq!(groups.len(), 1);
    assert_eq!(groups[0].tag.as_deref(), Some("bass"));
    assert_eq!(lcm_ticks_capped(&vec![4 * TICKS_PER_BEAT, 8 * TICKS_PER_BEAT], CAP_TICKS), 8 * TICKS_PER_BEAT);
}

#[test]
fn merge_lcm_expands_shorter_fugue_to_fill_longer() {
    assert_eq!(lcm_ticks_capped(&vec![4 * TICKS_PER_BEAT, 16 * TICKS_PER_BEAT], CAP_TICKS), 16 * TICKS_PER_BEAT);
}

#[test]
fn merge_lcm_coprime_durations_within_cap() {
    assert_eq!(lcm_ticks_capped(&vec![3 * TICKS_PER_BEAT, 5 * TICKS_PER_BEAT], CAP_TICKS), 15 * TICKS_PER_BEAT);
}

#[test]
fn merge_lcm_oversized_truncates_at_cap() {
    assert_eq!(lcm_ticks_capped(&vec![127 * TICKS_PER_BEAT, 128 * TICKS_PER_BEAT], CAP_TICKS), CAP_TICKS);
}

#[test]
fn merge_lcm_short_against_huge_truncates_cleanly() {
    assert_eq!(lcm_ticks_capped(&vec![TICKS_PER_BEAT, 131 * TICKS_PER_BEAT], CAP_TICKS), CAP_TICKS);
}

#[test]
fn export_merge_preserves_first_seen_order() {
    let groups = group_by_tag(&tags(&[Some("lead"), Some("bass")]));
    assert_eq!(groups[0].tag.as_deref(), Some("lead"));
    assert_eq!(groups[1].tag.as_deref(), Some("bass"));
}

#[test]
fn export_exported_midi_structure_is_inspectable() {
    let names = track_names(&tags(&[Some("bass"), Some("lead")]));
    assert_eq!(names, vec!["bass", "lead"]);
    let bytes = export(&["bass", "lead"], vec![vec![], vec![]]);
    assert_eq!(midly_track_count(&bytes), 3);
}

#[test]
fn round_trip_single_tagged_fugue() {
    let bytes = export(
        &["melody"],
        vec![vec![note_on(0, 60), note_off(480, 60), note_on(480, 64), note_off(960, 64)]],
    );
    let imported = ImportedMidi::parse(&bytes, false).unwrap();
    assert_eq!(imported.tracks.len(), 1);
    assert_eq!(imported.fugue_tags(None), vec!["melody".to_string()]);
    let on = imported.tracks[0].events.iter().filter(|e| matches!(e.1, ImportEvent::NoteOn { .. })).count();
    let off = imported.tracks[0].events.iter().filter(|e| matches!(e.1, ImportEvent::NoteOff { .. })).count();
    assert_eq!((on, off), (2, 2));
}

#[test]
fn parse_produces_intermediate_without_policy() {
    let bytes = export(&["bass"], vec![vec![note_on(0, 60), note_off(480, 60)]]);
    let parsed = ImportedMidi::parse(&bytes, false).unwrap();
    assert_eq!(parsed.ppq, 480);
    assert_eq!(parsed.tracks.len(), 1);
    assert_eq!(parsed.tracks[0].name.as_deref(), Some("bass"));
    assert_eq!(parsed.fugue_tags(Some("a-")), vec!["a-bass".to_string()]);
    assert_eq!(parsed.fugue_tags(None), vec!["bass".to_string()]);
}
