use droplets::api::{
    action_response, cancel_fugue, clear_fugues, get_activity, get_instances, note_off, note_on, queue_fugue_response,
    rename_instance, reveal_exports, update_settings, updated_settings, ActivityEvent,
};
use droplets::arith::lcm_ticks_capped;
use droplets::bridge::FugueBridge;
use droplets::hacks::note_off_skewed_sample;
use droplets::instance_param::{param_at_index, param_count, param_name_len, slot_for_param, slot_param_id, ParamIndex};
use droplets::midi::{incoming_cc, midi_bytes, CcMessage, ChannelMessage, NoteMessage};
use droplets::notes::{default_cc_state, ActiveNotes};
use droplets::server::{default_instance, fugue_list_changed, ServerFlag};
use droplets::settings::{set_export_path, Settings, SettingsResponse, SettingsStore, UpdateSettingsRequest};
use droplets::sort::stable_sort_by_tick;
use droplets::text::{parse_unsigned_chars, push_decimal, trim_chars};
use droplets::types::{is_finished, total_loops, LoopMode, StartMode};

fn settings(path: &str, instr: &str) -> Settings {
    Settings { export_path: path.to_string(), custom_instructions: instr.to_string() }
}

#[test]
fn note_bitset_channel_masking() {
    let mut n = ActiveNotes::new();
    n.set_note_active(0, 60);
    n.set_note_active(0, 64);
    n.set_note_active(15, 127);
    n.set_note_active(16, 1);
    assert!(n.is_note_active(0, 60));
    assert!(n.is_note_active(0, 1));
    assert_eq!(n.get_active_notes(), vec![(0, 1), (0, 60), (0, 64), (15, 127)]);
    n.set_note_inactive(0, 60);
    assert!(!n.is_note_active(0, 60));
    n.clear_active_notes();
    assert!(n.get_active_notes().is_empty());
}

#[test]
fn cc_state_starts_unset() {
    let s = default_cc_state();
    assert!(s.iter().all(|ch| ch.iter().all(|v| v.is_none())));
}

#[test]
fn midi_encoding() {
    assert_eq!(midi_bytes(ChannelMessage::Cc(CcMessage::new(3, 74, 64))), [0xB3, 74, 64]);
    assert_eq!(midi_bytes(ChannelMessage::Note(NoteMessage::new(1, 60, 100, true))), [0x91, 60, 100]);
    assert_eq!(midi_bytes(ChannelMessage::Note(NoteMessage::new(0x12, 60, 0, false))), [0x82, 60, 0]);
    assert_eq!(incoming_cc(0xB5, 7), Some((5, 7)));
    assert_eq!(incoming_cc(0x90, 7), None);
}

#[test]
fn skewed_note_off() {
    assert_eq!(note_off_skewed_sample(0), 0);
    assert_eq!(note_off_skewed_sample(10), 9);
}

#[test]
fn host_parameters() {
    assert_eq!(param_count(), 17);
    assert_eq!(param_at_index(0), ParamIndex::InstanceId);
    assert_eq!(param_at_index(16), ParamIndex::Slot(15));
    assert_eq!(param_at_index(17), ParamIndex::OutOfRange);
    assert_eq!(slot_param_id(3), 103);
    assert_eq!(slot_for_param(103), Some(3));
    assert_eq!(slot_for_param(116), None);
    assert_eq!(slot_for_param(1), None);
    assert_eq!(param_name_len(10), 10);
    assert_eq!(param_name_len(200), 63);
}

#[test]
fn loop_bookkeeping() {
    assert!(is_finished(true, LoopMode::Forever, 0));
    assert!(!is_finished(false, LoopMode::Forever, 1000));
    assert!(is_finished(false, LoopMode::Once, 1));
    assert!(!is_finished(false, LoopMode::Times(3), 2));
    assert!(is_finished(false, LoopMode::Times(3), 3));
    assert_eq!(total_loops(LoopMode::Once), Some(1));
    assert_eq!(total_loops(LoopMode::Forever), None);
    assert_eq!(StartMode::default(), StartMode::Phase);
}

#[test]
fn lcm_of_durations_is_capped() {
    // 4 beats and 16 beats at 960 ticks per beat.
    assert_eq!(lcm_ticks_capped(&vec![3840, 15360], 122880), 15360);
    // 3 and 4 beats meet at 12 beats.
    assert_eq!(lcm_ticks_capped(&vec![2880, 3840], 122880), 11520);
    // Zero-length members are skipped.
    assert_eq!(lcm_ticks_capped(&vec![3840, 0, 1920], 122880), 3840);
    // Coprime lengths past the cap clamp to it.
    assert_eq!(lcm_ticks_capped(&vec![7 * 960 + 1, 11 * 960 + 1, 13 * 960 + 1], 122880), 122880);
    assert_eq!(lcm_ticks_capped(&vec![], 122880), 0);
    // A single member longer than the cap is clamped to it as well.
    assert_eq!(lcm_ticks_capped(&vec![200 * 960], 122880), 122880);
    assert_eq!(lcm_ticks_capped(&vec![200 * 960, 960], 122880), 122880);
}

#[test]
fn stable_sort_keeps_equal_ticks_in_order() {
    let sorted = stable_sort_by_tick(vec![(5u64, 'a'), (1, 'b'), (5, 'c'), (0, 'd'), (1, 'e')]);
    assert_eq!(sorted, vec![(0, 'd'), (1, 'b'), (1, 'e'), (5, 'a'), (5, 'c')]);
}

#[test]
fn text_helpers() {
    let mut s = String::from("n=");
    push_decimal(&mut s, 1234567890);
    assert_eq!(s, "n=1234567890");
    assert_eq!(parse_unsigned_chars(&"+42".chars().collect(), 255), Some(42));
    assert_eq!(parse_unsigned_chars(&"256".chars().collect(), 255), None);
    assert_eq!(parse_unsigned_chars(&"".chars().collect(), 255), None);
    assert_eq!(trim_chars(&" \t a b \n".chars().collect()), vec!['a', ' ', 'b']);
}

#[test]
fn server_bookkeeping() {
    assert_eq!(default_instance(), "default");
    let mut f = ServerFlag::new();
    assert!(!f.is_server_running());
    assert!(f.start());
    assert!(!f.start());
    assert!(f.is_server_running());
    assert!(!fugue_list_changed(&vec![1, 2], &vec![false, true], &vec![1, 2], &vec![false, true]));
    assert!(fugue_list_changed(&vec![1, 2], &vec![false, false], &vec![1, 2], &vec![false, true]));
    assert!(fugue_list_changed(&vec![2], &vec![false], &vec![1], &vec![false]));
}

#[test]
fn settings_store_commits_only_saved_updates() {
    let mut store = SettingsStore::new();
    assert!(store.get_settings().is_none());
    let loaded = store.install(settings("/exports", ""));
    assert_eq!(loaded.export_path, "/exports");
    let r = store.update_settings(settings("/other", "x"), Err("disk full".to_string()));
    assert_eq!(r, Err("disk full".to_string()));
    assert_eq!(store.get_settings().unwrap().export_path, "/exports");
    assert_eq!(store.update_settings(settings("/other", "x"), Ok(())), Ok(()));
    assert_eq!(store.get_settings().unwrap().export_path, "/other");
    let moved = set_export_path(settings("/a", "keep"), "/b".to_string());
    assert_eq!((moved.export_path.as_str(), moved.custom_instructions.as_str()), ("/b", "keep"));
}

#[test]
fn settings_response_and_updates() {
    let r = SettingsResponse::new(&settings("/e", "be brief"), 3100);
    assert_eq!(r.mcp_url, "http://localhost:3100/mcp");
    assert_eq!(r.export_path, "/e");
    let merged = updated_settings(
        settings("/e", "old"),
        UpdateSettingsRequest { export_path: None, custom_instructions: Some("new".to_string()) },
    );
    assert_eq!(merged.export_path, "/e");
    assert_eq!(merged.custom_instructions, "new");
    let mut store = SettingsStore::new();
    let ok = update_settings(&mut store, settings("/x", ""), Ok(())).unwrap();
    assert_eq!(ok.message.as_deref(), Some("Settings updated"));
}

#[test]
fn api_responses() {
    let renamed = rename_instance(Ok("Drums".to_string()), "Perc").unwrap();
    assert_eq!(renamed.message.as_deref(), Some("Renamed 'Drums' to 'Perc'"));
    assert_eq!(rename_instance(Err("Instance not found".to_string()), "x").unwrap_err(), "Instance not found");
    assert!(action_response(Ok(())).unwrap().message.is_none());
    assert_eq!(reveal_exports(Ok(())).unwrap().message.as_deref(), Some("Opened exports folder"));
    let q = queue_fugue_response(Err("Instance not found"));
    assert!(!q.ok && q.fugue_id.is_none());
    assert_eq!(q.error.as_deref(), Some("Instance not found"));
    assert_eq!(queue_fugue_response(Ok(9)).fugue_id, Some(9));
    let on = note_on(200, 90);
    assert_eq!((on.note, on.velocity, on.is_note_on), (127, 90, true));
    let off = note_off(61);
    assert_eq!((off.note, off.velocity, off.is_note_on), (61, 0, false));
}

#[test]
fn activity_and_instances() {
    let a = get_activity(vec![ActivityEvent {
        timestamp_ms: 12,
        instance: "default".to_string(),
        channel: 2,
        cc: Some(74),
        value: 10,
        note: None,
        is_note_on: None,
        expression_type: None,
    }]);
    assert_eq!(a.events.len(), 1);
    assert_eq!(a.events[0].timestamp, 12);
    assert_eq!(a.events[0].cc, Some(74));
    let i = get_instances(vec![("id".to_string(), "Drums".to_string())]);
    assert_eq!((i.instances[0].id.as_str(), i.instances[0].name.as_str()), ("id", "Drums"));
}

#[test]
fn fugue_actions_through_the_registry() {
    let mut b: FugueBridge<u32, u32, u32> = FugueBridge::new();
    assert_eq!(clear_fugues(&mut b, "default").unwrap_err(), "No instances connected");
    let (_c, _h) = b.register("id", "Drums", 0);
    assert_eq!(cancel_fugue(&mut b, "Drums", 7).unwrap().message.as_deref(), Some("Cancelled fugue 7"));
    assert_eq!(clear_fugues(&mut b, "default").unwrap().message.as_deref(), Some("Cleared all fugues"));
}

#[test]
fn decimal_text_reads_back() {
    for n in [0u64, 7, 10, 4096, u64::MAX] {
        let mut s = String::new();
        push_decimal(&mut s, n);
        assert_eq!(s, n.to_string());
        assert_eq!(parse_unsigned_chars(&s.chars().collect(), u64::MAX), Some(n));
    }
}
