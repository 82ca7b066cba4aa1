use droplets::routes::{handle_request, Route, RouteError};
use droplets::webview::simple_percent_decode;

#[test]
fn fixed_routes() {
    assert_eq!(handle_request("/self", "GET"), Route::SelfInfo);
    assert_eq!(handle_request("/slots", "GET"), Route::Slots);
    assert_eq!(handle_request("/slots", "POST"), Route::Slots);
    assert_eq!(handle_request("/settings", "GET"), Route::GetSettings);
    assert_eq!(handle_request("/settings", "POST"), Route::UpdateSettings);
    assert_eq!(handle_request("/project_layout", "POST"), Route::PostProjectLayout);
    assert_eq!(handle_request("/queue_fugue", "GET"), Route::Error(RouteError::NotFound));
}

#[test]
fn note_routes_parse_and_clamp() {
    assert_eq!(handle_request("/note_on/60", "POST"), Route::NoteOn { note: 60, velocity: 100 });
    assert_eq!(handle_request("/note_on/200/90", "POST"), Route::NoteOn { note: 127, velocity: 90 });
    assert_eq!(handle_request("/note_on/60/x", "POST"), Route::Error(RouteError::InvalidVelocity));
    assert_eq!(handle_request("/note_on/300", "POST"), Route::Error(RouteError::InvalidNote));
    assert_eq!(handle_request("/note_on/1/2/3", "POST"), Route::Error(RouteError::InvalidPath));
    assert_eq!(handle_request("/note_off/+64", "POST"), Route::NoteOff(64));
}

#[test]
fn slot_routes() {
    assert_eq!(handle_request("/start_learn/3", "POST"), Route::StartLearn(3));
    assert_eq!(handle_request("/start_learn/x", "POST"), Route::Error(RouteError::InvalidSlot));
    assert_eq!(handle_request("/slots/2/cc", "POST"), Route::SetSlotCc(2));
    assert_eq!(handle_request("/slots/2/name", "POST"), Route::RenameSlot(2));
    assert_eq!(handle_request("/slots/5/channel", "POST"), Route::SetSlotChannel(5));
    assert_eq!(handle_request("/slots/4", "DELETE"), Route::RemoveSlot(4));
    assert_eq!(handle_request("/slots/4", "GET"), Route::Error(RouteError::NotFound));
    assert_eq!(handle_request("/slots/a/cc", "POST"), Route::Error(RouteError::InvalidSlotIndex));
    assert_eq!(handle_request("/fugue/18446744073709551615", "GET"), Route::FugueById(u64::MAX));
    assert_eq!(handle_request("/fugue/-1", "GET"), Route::Error(RouteError::InvalidId));
    assert_eq!(RouteError::InvalidSlotIndex.message(), "invalid slot index");
}

#[test]
fn percent_decoding() {
    assert_eq!(simple_percent_decode("a%20b"), "a b");
    assert_eq!(simple_percent_decode("100%"), "100%");
    assert_eq!(simple_percent_decode("%zz%41"), "%zzA");
    assert_eq!(simple_percent_decode("a+b"), "a+b");
    assert_eq!(simple_percent_decode("%C3%A9"), "é");
    assert_eq!(simple_percent_decode("%FF"), "\u{FFFD}");
}
