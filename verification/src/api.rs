//! Shared handlers behind the GUI endpoints (custom protocol and HTTP).
//!
//! Each handler here takes what the plugin-side services answered (the
//! instance registry, the CC bridge's outcome, the settings store) and
//! builds the response the endpoint returns.

use vstd::prelude::*;
use crate::bridge::{FugueBridge, lookup_error, resolve_instance, cancelled, cancelled_by_tag, cleared};
use crate::midi::NoteMessage;
use crate::settings::{Settings, SettingsResponse, SettingsStore, UpdateSettingsRequest};
use crate::text::{decimal, push_decimal};

verus! {

/// Generic success response.
#[derive(Debug)]
pub struct OkResponse {
    pub ok: bool,
    pub message: Option<String>,
}

/// Generic error response.
#[derive(Debug)]
pub struct ErrorResponse {
    pub error: String,
}

/// One recent MIDI event as the CC bridge records it.
#[derive(Debug)]
pub struct ActivityEvent {
    pub timestamp_ms: u64,
    pub instance: String,
    pub channel: u8,
    pub cc: Option<u8>,
    pub value: u8,
    pub note: Option<u8>,
    pub is_note_on: Option<bool>,
    pub expression_type: Option<String>,
}

/// A single activity event for the UI.
#[derive(Debug)]
pub struct ActivityEventDto {
    pub timestamp: u64,
    pub instance: String,
    pub channel: u8,
    pub cc: Option<u8>,
    pub value: u8,
    pub note: Option<u8>,
    pub is_note_on: Option<bool>,
    pub expression_type: Option<String>,
}

/// Recent MIDI activity.
#[derive(Debug)]
pub struct ActivityResponse {
    pub events: Vec<ActivityEventDto>,
}

/// A plugin instance.
#[derive(Debug)]
pub struct InstanceInfo {
    pub id: String,
    pub name: String,
}

/// The available instances.
#[derive(Debug)]
pub struct InstancesResponse {
    pub instances: Vec<InstanceInfo>,
}

/// Response from queuing a fugue.
#[derive(Debug)]
pub struct QueueFugueResponse {
    pub ok: bool,
    pub fugue_id: Option<u64>,
    pub error: Option<String>,
}

/// Request to cancel a fugue by id.
#[derive(Debug)]
pub struct CancelFugueRequest {
    pub id: u64,
}

/// Request to cancel fugues by tag.
#[derive(Debug)]
pub struct CancelByTagRequest {
    pub tag: String,
}

/// Response from exporting a fugue.
#[derive(Debug)]
pub struct ExportFugueResponse {
    pub ok: bool,
    pub path: Option<String>,
    pub error: Option<String>,
}

/// `r` is a success carrying message `m`.
pub open spec fn ok_with_message(r: Result<OkResponse, String>, m: Seq<char>) -> bool {
    match r {
        Ok(ok) => ok.ok && (match ok.message {
            Some(x) => x@ == m,
            None => false,
        }),
        Err(_) => false,
    }
}

/// `r` is a success without a message.
pub open spec fn ok_without_message(r: Result<OkResponse, String>) -> bool {
    match r {
        Ok(ok) => ok.ok && ok.message is None,
        Err(_) => false,
    }
}

/// `r` is an error with text `e`.
pub open spec fn err_with(r: Result<OkResponse, String>, e: Seq<char>) -> bool {
    match r {
        Ok(_) => false,
        Err(x) => x@ == e,
    }
}

/// The UI form of an activity event: channels are shown 1-based.
pub open spec fn activity_dto_matches(e: ActivityEvent, d: ActivityEventDto) -> bool {
    &&& d.timestamp == e.timestamp_ms
    &&& d.instance@ == e.instance@
    &&& d.channel == e.channel + 1
    &&& d.cc == e.cc
    &&& d.value == e.value
    &&& d.note == e.note
    &&& d.is_note_on == e.is_note_on
    &&& d.expression_type == e.expression_type
}

/// Recent activity for display, in the order the CC bridge reported it,
/// with channels made 1-based.
pub fn get_activity(activity: Vec<ActivityEvent>) -> (r: ActivityResponse)
    requires
        forall|i: int| 0 <= i < activity@.len() ==> #[trigger] activity@[i].channel < 255,
    ensures
        r.events@.len() == activity@.len(),
        forall|i: int| 0 <= i < activity@.len() ==> activity_dto_matches(activity@[i], #[trigger] r.events@[i]),
{
    let ghost all = activity@;
    let mut events: Vec<ActivityEventDto> = Vec::new();
    for e in it: activity.into_iter()
        invariant
            it.seq() == all,
            forall|i: int| 0 <= i < all.len() ==> #[trigger] all[i].channel < 255,
            events@.len() == it.index(),
            forall|i: int| 0 <= i < events@.len() ==> activity_dto_matches(all[i], #[trigger] events@[i]),
    {
        events.push(ActivityEventDto {
            timestamp: e.timestamp_ms,
            instance: e.instance,
            channel: e.channel + 1,
            cc: e.cc,
            value: e.value,
            note: e.note,
            is_note_on: e.is_note_on,
            expression_type: e.expression_type,
        });
    }
    ActivityResponse { events }
}

/// The instance list from `(id, name)` pairs, order kept.
pub fn get_instances(instances: Vec<(String, String)>) -> (r: InstancesResponse)
    ensures
        r.instances@.len() == instances@.len(),
        forall|i: int| 0 <= i < instances@.len() ==> (#[trigger] r.instances@[i]).id@ == instances@[i].0@
            && r.instances@[i].name@ == instances@[i].1@,
{
    let ghost all = instances@;
    let mut out: Vec<InstanceInfo> = Vec::new();
    for p in it: instances.into_iter()
        invariant
            it.seq() == all,
            out@.len() == it.index(),
            forall|i: int| 0 <= i < out@.len() ==> (#[trigger] out@[i]).id@ == all[i].0@ && out@[i].name@ == all[i].1@,
    {
        let (id, name) = p;
        out.push(InstanceInfo { id, name });
    }
    InstancesResponse { instances: out }
}

/// A success response with an optional message.
pub fn ok_response(message: Option<String>) -> (r: OkResponse)
    ensures
        r.ok,
        r.message == message,
{
    OkResponse { ok: true, message }
}

/// The rename confirmation message.
pub open spec fn rename_message(old_name: Seq<char>, new_name: Seq<char>) -> Seq<char> {
    "Renamed '"@ + old_name + "' to '"@ + new_name + "'"@
}

/// Response to renaming an instance, given the CC bridge's answer (the
/// previous name, or an error).
pub fn rename_instance(renamed: Result<String, String>, new_name: &str) -> (r: Result<OkResponse, String>)
    ensures
        match renamed {
            Ok(old_name) => ok_with_message(r, rename_message(old_name@, new_name@)),
            Err(e) => r == Err::<OkResponse, String>(e),
        },
{
    match renamed {
        Ok(old_name) => {
            let mut m = String::from_str("Renamed '");
            m.append(old_name.as_str());
            m.append("' to '");
            m.append(new_name);
            m.append("'");
            Ok(ok_response(Some(m)))
        },
        Err(e) => Err(e),
    }
}

/// Response to an action with no message (start / cancel learn, note on /
/// off), given the CC bridge's answer.
pub fn action_response(outcome: Result<(), String>) -> (r: Result<OkResponse, String>)
    ensures
        match outcome {
            Ok(()) => ok_without_message(r),
            Err(e) => r == Err::<OkResponse, String>(e),
        },
{
    match outcome {
        Ok(()) => Ok(ok_response(None)),
        Err(e) => Err(e),
    }
}

/// Response to starting MIDI learn on a slot.
pub fn start_learn(outcome: Result<(), String>) -> (r: Result<OkResponse, String>)
    ensures
        match outcome {
            Ok(()) => ok_without_message(r),
            Err(e) => r == Err::<OkResponse, String>(e),
        },
{
    action_response(outcome)
}

/// Response to cancelling MIDI learn.
pub fn cancel_learn(outcome: Result<(), String>) -> (r: Result<OkResponse, String>)
    ensures
        match outcome {
            Ok(()) => ok_without_message(r),
            Err(e) => r == Err::<OkResponse, String>(e),
        },
{
    action_response(outcome)
}

/// The Note On a GUI key press sends: channel 0, note and velocity clamped
/// to 127.
pub fn note_on(note: u8, velocity: u8) -> (r: NoteMessage)
    ensures
        r == (NoteMessage {
            channel: 0,
            note: if note > 127 { 127 } else { note },
            velocity: if velocity > 127 { 127 } else { velocity },
            is_note_on: true,
        }),
{
    let n = if note > 127 { 127 } else { note };
    let v = if velocity > 127 { 127 } else { velocity };
    NoteMessage::new(0, n, v, true)
}

/// The Note Off a GUI key release sends: channel 0, velocity 0, note
/// clamped to 127.
pub fn note_off(note: u8) -> (r: NoteMessage)
    ensures
        r == (NoteMessage { channel: 0, note: if note > 127 { 127 } else { note }, velocity: 0, is_note_on: false }),
{
    let n = if note > 127 { 127 } else { note };
    NoteMessage::new(0, n, 0, false)
}

/// The response to queuing a fugue, given the registry's answer.
pub fn queue_fugue_response(queued: Result<u64, &'static str>) -> (r: QueueFugueResponse)
    ensures
        match queued {
            Ok(id) => r.ok && r.fugue_id == Some(id) && r.error is None,
            Err(e) => !r.ok && r.fugue_id is None && r.error is Some && r.error.unwrap()@ == e@,
        },
{
    match queued {
        Ok(id) => QueueFugueResponse { ok: true, fugue_id: Some(id), error: None },
        Err(e) => QueueFugueResponse { ok: false, fugue_id: None, error: Some(e.to_owned()) },
    }
}

/// Cancels a fugue by id on an instance and reports it.
pub fn cancel_fugue<D: Clone, I: Clone, T>(bridge: &mut FugueBridge<D, I, T>, instance: &str, id: u64) -> (r: Result<OkResponse, String>)
    ensures
        final(bridge)@ == old(bridge)@,
        match resolve_instance(old(bridge)@, instance@) {
            Some(k) => {
                &&& r is Ok ==> ok_with_message(r, "Cancelled fugue "@ + decimal(id as nat))
                &&& r is Err ==> err_with(r, "Queue full"@)
                &&& cancelled(old(bridge).entries(), final(bridge).entries(), k, id, r is Ok)
            },
            None => err_with(r, lookup_error(instance@)@) && final(bridge).entries() == old(bridge).entries(),
        },
{
    match bridge.cancel(instance, id) {
        Ok(()) => {
            let mut m = String::from_str("Cancelled fugue ");
            push_decimal(&mut m, id);
            Ok(ok_response(Some(m)))
        },
        Err(e) => Err(e.to_owned()),
    }
}

/// Cancels every fugue tagged `tag` on an instance and reports it.
pub fn cancel_fugues_by_tag<D: Clone, I: Clone, T>(bridge: &mut FugueBridge<D, I, T>, instance: &str, tag: &str) -> (r: Result<OkResponse, String>)
    ensures
        final(bridge)@ == old(bridge)@,
        match resolve_instance(old(bridge)@, instance@) {
            Some(k) => {
                &&& r is Ok ==> ok_with_message(r, "Cancelled fugues with tag '"@ + tag@ + "'"@)
                &&& r is Err ==> err_with(r, "Queue full"@)
                &&& cancelled_by_tag(old(bridge).entries(), final(bridge).entries(), k, tag@, r is Ok)
            },
            None => err_with(r, lookup_error(instance@)@) && final(bridge).entries() == old(bridge).entries(),
        },
{
    match bridge.cancel_by_tag(instance, tag) {
        Ok(()) => {
            let mut m = String::from_str("Cancelled fugues with tag '");
            m.append(tag);
            m.append("'");
            Ok(ok_response(Some(m)))
        },
        Err(e) => Err(e.to_owned()),
    }
}

/// Clears every fugue on an instance and reports it.
pub fn clear_fugues<D, I, T>(bridge: &mut FugueBridge<D, I, T>, instance: &str) -> (r: Result<OkResponse, String>)
    ensures
        final(bridge)@ == old(bridge)@,
        match resolve_instance(old(bridge)@, instance@) {
            Some(k) => {
                &&& r is Ok ==> ok_with_message(r, "Cleared all fugues"@)
                &&& r is Err ==> err_with(r, "Queue full"@)
                &&& cleared(old(bridge).entries(), final(bridge).entries(), k, r is Ok)
            },
            None => err_with(r, lookup_error(instance@)@) && final(bridge).entries() == old(bridge).entries(),
        },
{
    match bridge.clear_all(instance) {
        Ok(()) => Ok(ok_response(Some(String::from_str("Cleared all fugues")))),
        Err(e) => Err(e.to_owned()),
    }
}

/// The settings panel's view of `settings`.
pub fn get_settings(settings: &Settings, mcp_port: u16) -> (r: SettingsResponse)
    ensures
        r.export_path@ == settings.export_path@,
        r.mcp_port == mcp_port,
        r.mcp_url@ == crate::settings::mcp_url(mcp_port),
        r.custom_instructions@ == settings.custom_instructions@,
{
    SettingsResponse::new(settings, mcp_port)
}

/// `current` with the fields the request sets replaced.
pub fn updated_settings(current: Settings, req: UpdateSettingsRequest) -> (r: Settings)
    ensures
        r.export_path@ == (match req.export_path { Some(p) => p@, None => current.export_path@ }),
        r.custom_instructions@ == (match req.custom_instructions { Some(t) => t@, None => current.custom_instructions@ }),
{
    let export_path = match req.export_path {
        Some(p) => p,
        None => current.export_path,
    };
    let custom_instructions = match req.custom_instructions {
        Some(t) => t,
        None => current.custom_instructions,
    };
    Settings { export_path, custom_instructions }
}

/// Commits updated settings once they were saved, and reports it.
pub fn update_settings(store: &mut SettingsStore, new_settings: Settings, saved: Result<(), String>) -> (r: Result<OkResponse, String>)
    ensures
        match saved {
            Ok(()) => final(store).cached() == Some(new_settings@) && ok_with_message(r, "Settings updated"@),
            Err(e) => final(store).cached() == old(store).cached() && r == Err::<OkResponse, String>(e),
        },
{
    store.update_settings(new_settings, saved)?;
    Ok(ok_response(Some(String::from_str("Settings updated"))))
}

/// Response to opening the exports folder, given whether it opened.
pub fn reveal_exports(opened: Result<(), String>) -> (r: Result<OkResponse, String>)
    ensures
        match opened {
            Ok(()) => ok_with_message(r, "Opened exports folder"@),
            Err(e) => r == Err::<OkResponse, String>(e),
        },
{
    opened?;
    Ok(ok_response(Some(String::from_str("Opened exports folder"))))
}

/// The message for a fugue id that an instance does not list.
pub open spec fn fugue_not_found(id: u64) -> Seq<char> {
    "Fugue "@ + decimal(id as nat) + " not found"@
}

/// A failed export reporting `error`.
pub open spec fn export_failed(r: ExportFugueResponse, error: Seq<char>) -> bool {
    &&& !r.ok
    &&& r.path is None
    &&& r.error matches Some(e) && e@ == error
}

/// The definition to export, from the registry's answer to looking it up;
/// or the failed response for an unknown instance or id.
pub fn export_lookup<D>(found: Result<Option<D>, &'static str>, id: u64) -> (r: Result<D, ExportFugueResponse>)
    ensures
        match found {
            Ok(Some(d)) => r == Ok::<D, ExportFugueResponse>(d),
            Ok(None) => r matches Err(resp) && export_failed(resp, fugue_not_found(id)),
            Err(e) => r matches Err(resp) && export_failed(resp, e@),
        },
{
    match found {
        Ok(Some(d)) => Ok(d),
        Ok(None) => {
            let mut m = String::from_str("Fugue ");
            push_decimal(&mut m, id);
            m.append(" not found");
            Err(ExportFugueResponse { ok: false, path: None, error: Some(m) })
        },
        Err(e) => Err(ExportFugueResponse { ok: false, path: None, error: Some(e.to_owned()) }),
    }
}

/// The response once the file was written (its path) or could not be
/// (the error).
pub fn export_response(written: Result<String, String>) -> (r: ExportFugueResponse)
    ensures
        match written {
            Ok(path) => r.ok && r.path == Some(path) && r.error is None,
            Err(e) => !r.ok && r.path is None && r.error == Some(e),
        },
{
    match written {
        Ok(path) => ExportFugueResponse { ok: true, path: Some(path), error: None },
        Err(e) => ExportFugueResponse { ok: false, path: None, error: Some(e) },
    }
}

} // verus!
