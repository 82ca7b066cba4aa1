use droplets::api::{export_lookup, export_response};
use droplets::arith::{lcm_checked, lcm_ticks_fit};
use droplets::bridge::{wait_step, FugueRecord, WaitAction, WaitGoal};
use droplets::sequencer::{plan_cancel, release_on_jump, CancelAction, CancelRequest, FugueStatus};
use droplets::sequencer::CancelAction::{Cancel, Keep, Remove};
use droplets::state::restore_slot;
use droplets::webview::{classify_request, find_query_instance, instance_for_request, ProtocolRequest};

fn status(id: u64, tag: Option<&str>, finished: bool, waiting: bool) -> FugueStatus {
    FugueStatus { id, tag: tag.map(|t| t.to_string()), finished, waiting_for_start: waiting }
}

#[test]
fn jump_releases_all_but_beat_zero_retriggers() {
    let held = vec![(0, 60), (0, 64), (1, 36)];
    let starts = vec![(0, 64), (2, 10), (1, 36)];
    assert_eq!(release_on_jump(&held, &starts, true), vec![(0, 60)]);
    assert_eq!(release_on_jump(&held, &starts, false), held);
    assert_eq!(release_on_jump(&held, &vec![], true), held);
}

#[test]
fn retrigger_memory_is_capped() {
    let held: Vec<(u8, u8)> = (0..40).map(|n| (0u8, n as u8)).collect();
    let released = release_on_jump(&held, &held, true);
    let expected: Vec<(u8, u8)> = (32..40).map(|n| (0u8, n as u8)).collect();
    assert_eq!(released, expected);
}

#[test]
fn cancellation_plans() {
    let fugues = vec![
        status(1, Some("bass"), false, false),
        status(2, Some("bass"), true, false),
        status(3, Some("bass"), false, true),
        status(4, None, false, false),
    ];
    assert_eq!(plan_cancel(&fugues, &CancelRequest::ById(3)), vec![Keep, Keep, Cancel, Keep]);
    assert_eq!(plan_cancel(&fugues, &CancelRequest::ById(2)), vec![Keep, Keep, Keep, Keep]);
    assert_eq!(plan_cancel(&fugues, &CancelRequest::ByTag("bass".to_string())), vec![Cancel, Keep, Cancel, Keep]);
    assert_eq!(
        plan_cancel(&fugues, &CancelRequest::ByTagWhenStarting("bass".to_string())),
        vec![Cancel, Keep, Keep, Keep]
    );
    assert_eq!(plan_cancel(&fugues, &CancelRequest::All), vec![Remove, Remove, Remove, Remove]);
    assert_eq!(plan_cancel(&fugues, &CancelRequest::AllStarted), vec![Remove, Remove, Keep, Remove]);
}

#[test]
fn waiting_decisions() {
    let infos = vec![FugueRecord { id: 5, tag: Some("lead".to_string()), payload: () }];
    assert_eq!(wait_step(&WaitGoal::FugueVisible(5), Some(&infos), true), WaitAction::Done(true));
    assert_eq!(wait_step(&WaitGoal::FugueVisible(6), Some(&infos), true), WaitAction::Poll);
    assert_eq!(wait_step(&WaitGoal::FugueGone(6), Some(&infos), true), WaitAction::Done(true));
    assert_eq!(wait_step(&WaitGoal::TagGone("lead".to_string()), Some(&infos), true), WaitAction::Poll);
    assert_eq!(wait_step(&WaitGoal::NoFugues, Some(&infos), true), WaitAction::Poll);
    assert_eq!(wait_step::<()>(&WaitGoal::NoFugues, None, true), WaitAction::Poll);
    assert_eq!(wait_step(&WaitGoal::FugueVisible(5), Some(&infos), false), WaitAction::Done(true));
    assert_eq!(wait_step(&WaitGoal::FugueVisible(6), Some(&infos), false), WaitAction::Done(false));
    assert_eq!(wait_step::<()>(&WaitGoal::NoFugues, None, false), WaitAction::Done(false));
}

#[test]
fn restored_slots() {
    let s = restore_slot(Some(74), Some("Cutoff"), Some(3));
    assert_eq!((s.cc, s.name.as_str(), s.channel), (74, "Cutoff", Some(3)));
    let d = restore_slot(None, None, None);
    assert_eq!((d.cc, d.name.as_str(), d.channel), (255, "Slot", None));
    let t = restore_slot(Some(300), None, Some(257));
    assert_eq!((t.cc, t.channel), (44, Some(1)));
}

#[test]
fn export_responses() {
    let missing = export_lookup::<u32>(Ok(None), 12).unwrap_err();
    assert!(!missing.ok);
    assert_eq!(missing.error.as_deref(), Some("Fugue 12 not found"));
    let unknown = export_lookup::<u32>(Err("Instance not found"), 12).unwrap_err();
    assert_eq!(unknown.error.as_deref(), Some("Instance not found"));
    assert_eq!(export_lookup(Ok(Some(7u32)), 12).unwrap(), 7);
    let written = export_response(Ok("/tmp/x.mid".to_string()));
    assert!(written.ok && written.error.is_none());
    assert_eq!(written.path.as_deref(), Some("/tmp/x.mid"));
    let failed = export_response(Err("Failed to write MIDI file: denied".to_string()));
    assert!(!failed.ok && failed.path.is_none());
}

#[test]
fn checked_lcm() {
    assert_eq!(lcm_checked(4, 6), Some(12));
    assert_eq!(lcm_checked(0, 6), Some(0));
    assert_eq!(lcm_checked(u64::MAX, u64::MAX - 1), None);
    assert!(lcm_ticks_fit(&vec![3840, 15360], 122880));
    // A first duration past the cap is clamped before any LCM is taken.
    assert!(lcm_ticks_fit(&vec![u64::MAX, u64::MAX - 1], 122880));
    assert!(!lcm_ticks_fit(&vec![3, u64::MAX - 1], 122880));
    assert!(lcm_ticks_fit(&vec![], 0));
}

#[test]
fn protocol_requests() {
    assert!(matches!(classify_request("/"), ProtocolRequest::Page));
    assert!(matches!(classify_request(""), ProtocolRequest::Page));
    assert!(matches!(classify_request("/assets/index.js"), ProtocolRequest::Asset("application/javascript")));
    assert!(matches!(classify_request("/font.woff2"), ProtocolRequest::Asset("font/woff2")));
    assert!(matches!(classify_request("/font.woff"), ProtocolRequest::Asset("font/woff")));
    assert!(matches!(classify_request("/fugues"), ProtocolRequest::Api));
}

#[test]
fn request_instances() {
    assert_eq!(find_query_instance("a=1&instance=Bass%20One&b=2"), Some("Bass%20One".chars().collect()));
    assert_eq!(find_query_instance("instances=x"), None);
    assert_eq!(instance_for_request(Some("x=1&instance=Lead%21"), "own"), "Lead!");
    assert_eq!(instance_for_request(Some("x=1"), "own"), "own");
    assert_eq!(instance_for_request(None, "own"), "own");
}
