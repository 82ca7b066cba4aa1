//! Routing of GUI API requests (`droplets://` custom protocol paths) to
//! their handlers, including parsing of the path parameters.

use vstd::prelude::*;
use crate::text::{parse_unsigned, parse_unsigned_chars, str_chars};

verus! {

/// The handler a request goes to, with its parsed path parameters, or the
/// error message the request is answered with.
#[derive(PartialEq, Eq, Structural, Debug)]
pub enum Route {
    SelfInfo,
    Slots,
    Activity,
    Fugues,
    Transport,
    Instances,
    GetProjectLayout,
    PostProjectLayout,
    CancelLearn,
    ClearFugues,
    GetSettings,
    RevealExports,
    QueueFugue,
    CancelFugue,
    CancelFuguesByTag,
    RenameInstance,
    UpdateSettings,
    ExportFugue,
    ImportFugue,
    AddSlot,
    StartLearn(usize),
    Wiggle(usize),
    NoteOn { note: u8, velocity: u8 },
    NoteOff(u8),
    FugueById(u64),
    SetSlotCc(usize),
    RenameSlot(usize),
    SetSlotChannel(usize),
    RemoveSlot(usize),
    Error(RouteError),
}

/// Why a request was rejected.
#[derive(Clone, Copy, PartialEq, Eq, Structural, Debug)]
pub enum RouteError {
    InvalidSlot,
    InvalidNote,
    InvalidVelocity,
    InvalidPath,
    InvalidId,
    InvalidSlotIndex,
    NotFound,
}

/// The message an error response carries.
pub open spec fn route_error_text(e: RouteError) -> Seq<char> {
    match e {
        RouteError::InvalidSlot => "invalid slot"@,
        RouteError::InvalidNote => "invalid note"@,
        RouteError::InvalidVelocity => "invalid velocity"@,
        RouteError::InvalidPath => "invalid path"@,
        RouteError::InvalidId => "invalid id"@,
        RouteError::InvalidSlotIndex => "invalid slot index"@,
        RouteError::NotFound => "not found"@,
    }
}

impl RouteError {
    /// The message the error response carries (see [`route_error_text`]).
    pub fn message(&self) -> (r: &'static str)
        ensures
            r@ == route_error_text(*self),
    {
        match self {
            RouteError::InvalidSlot => "invalid slot",
            RouteError::InvalidNote => "invalid note",
            RouteError::InvalidVelocity => "invalid velocity",
            RouteError::InvalidPath => "invalid path",
            RouteError::InvalidId => "invalid id",
            RouteError::InvalidSlotIndex => "invalid slot index",
            RouteError::NotFound => "not found",
        }
    }
}

/// `s` without prefix `p`, if `s` starts with it.
pub open spec fn strip_prefix(s: Seq<char>, p: Seq<char>) -> Option<Seq<char>> {
    if s.len() >= p.len() && s.subrange(0, p.len() as int) == p {
        Some(s.subrange(p.len() as int, s.len() as int))
    } else {
        None
    }
}

/// `s` without suffix `p`, if `s` ends with it.
pub open spec fn strip_suffix(s: Seq<char>, p: Seq<char>) -> Option<Seq<char>> {
    if s.len() >= p.len() && s.subrange(s.len() - p.len(), s.len() as int) == p {
        Some(s.subrange(0, s.len() - p.len()))
    } else {
        None
    }
}

/// Index of the first `/` in `s` at or after `from`.
pub open spec fn first_slash(s: Seq<char>, from: int) -> Option<int>
    decreases s.len() - from,
{
    if from < 0 || from >= s.len() {
        None
    } else if s[from] == '/' {
        Some(from)
    } else {
        first_slash(s, from + 1)
    }
}

/// A parsed `u8` clamped to 127 (a MIDI data byte).
pub open spec fn clamp7(v: nat) -> u8 {
    if v > 127 { 127 } else { v as u8 }
}

/// `/note_on/{note}[/{velocity}]`: the path after the prefix splits on `/`
/// into one part (velocity 100) or two; values are clamped to 127.
pub open spec fn note_on_route(rest: Seq<char>) -> Route {
    match first_slash(rest, 0) {
        None => match parse_unsigned(rest, 255) {
            Some(n) => Route::NoteOn { note: clamp7(n), velocity: 100 },
            None => Route::Error(RouteError::InvalidNote),
        },
        Some(i) => {
            let note_s = rest.subrange(0, i);
            let vel_s = rest.subrange(i + 1, rest.len() as int);
            if first_slash(rest, i + 1) is Some {
                Route::Error(RouteError::InvalidPath)
            } else {
                match parse_unsigned(note_s, 255) {
                    None => Route::Error(RouteError::InvalidNote),
                    Some(n) => match parse_unsigned(vel_s, 255) {
                        None => Route::Error(RouteError::InvalidVelocity),
                        Some(v) => Route::NoteOn { note: clamp7(n), velocity: clamp7(v) },
                    },
                }
            }
        },
    }
}

/// A path parameter parsed as a `usize`, or the given error.
pub open spec fn usize_param(s: Seq<char>, on_ok: spec_fn(usize) -> Route, err: RouteError) -> Route {
    match parse_unsigned(s, usize::MAX as nat) {
        Some(v) => on_ok(v as usize),
        None => Route::Error(err),
    }
}

/// Routing of the paths with parameters.
pub open spec fn dynamic_route(path: Seq<char>, method: Seq<char>) -> Route {
    if strip_prefix(path, "/start_learn/"@) is Some {
        usize_param(strip_prefix(path, "/start_learn/"@).unwrap(), |v: usize| Route::StartLearn(v), RouteError::InvalidSlot)
    } else if strip_prefix(path, "/wiggle/"@) is Some {
        usize_param(strip_prefix(path, "/wiggle/"@).unwrap(), |v: usize| Route::Wiggle(v), RouteError::InvalidSlot)
    } else if strip_prefix(path, "/note_on/"@) is Some {
        note_on_route(strip_prefix(path, "/note_on/"@).unwrap())
    } else if strip_prefix(path, "/note_off/"@) is Some {
        match parse_unsigned(strip_prefix(path, "/note_off/"@).unwrap(), 255) {
            Some(n) => Route::NoteOff(clamp7(n)),
            None => Route::Error(RouteError::InvalidNote),
        }
    } else if strip_prefix(path, "/fugue/"@) is Some {
        match parse_unsigned(strip_prefix(path, "/fugue/"@).unwrap(), u64::MAX as nat) {
            Some(n) => Route::FugueById(n as u64),
            None => Route::Error(RouteError::InvalidId),
        }
    } else if strip_prefix(path, "/slots/"@) is Some {
        let rest = strip_prefix(path, "/slots/"@).unwrap();
        if strip_suffix(rest, "/cc"@) is Some {
            usize_param(strip_suffix(rest, "/cc"@).unwrap(), |v: usize| Route::SetSlotCc(v), RouteError::InvalidSlotIndex)
        } else if strip_suffix(rest, "/name"@) is Some {
            usize_param(strip_suffix(rest, "/name"@).unwrap(), |v: usize| Route::RenameSlot(v), RouteError::InvalidSlotIndex)
        } else if strip_suffix(rest, "/channel"@) is Some {
            usize_param(strip_suffix(rest, "/channel"@).unwrap(), |v: usize| Route::SetSlotChannel(v), RouteError::InvalidSlotIndex)
        } else if method == "DELETE"@ {
            usize_param(rest, |v: usize| Route::RemoveSlot(v), RouteError::InvalidSlotIndex)
        } else {
            Route::Error(RouteError::NotFound)
        }
    } else {
        Route::Error(RouteError::NotFound)
    }
}

/// Routing of every request: the fixed paths first, in table order (the
/// first matching row wins), then the paths with parameters.
pub open spec fn route_of(path: Seq<char>, method: Seq<char>) -> Route {
    let get = method == "GET"@;
    let post = method == "POST"@;
    if path == "/self"@ { Route::SelfInfo }
    else if path == "/slots"@ { Route::Slots }
    else if path == "/activity"@ { Route::Activity }
    else if path == "/fugues"@ { Route::Fugues }
    else if path == "/transport"@ { Route::Transport }
    else if path == "/instances"@ { Route::Instances }
    else if path == "/project_layout"@ && get { Route::GetProjectLayout }
    else if path == "/project_layout"@ && post { Route::PostProjectLayout }
    else if path == "/cancel_learn"@ { Route::CancelLearn }
    else if path == "/clear_fugues"@ { Route::ClearFugues }
    else if path == "/settings"@ && get { Route::GetSettings }
    else if path == "/reveal_exports"@ { Route::RevealExports }
    else if path == "/queue_fugue"@ && post { Route::QueueFugue }
    else if path == "/cancel_fugue"@ && post { Route::CancelFugue }
    else if path == "/cancel_fugues_by_tag"@ && post { Route::CancelFuguesByTag }
    else if path == "/rename_instance"@ && post { Route::RenameInstance }
    else if path == "/settings"@ && post { Route::UpdateSettings }
    else if path == "/export_fugue"@ && post { Route::ExportFugue }
    else if path == "/import_fugue"@ && post { Route::ImportFugue }
    else if path == "/slots"@ && post { Route::AddSlot }
    else { dynamic_route(path, method) }
}

/// Whether two strings are equal.
pub fn str_eq(a: &str, b: &str) -> (r: bool)
    ensures
        r == (a@ == b@),
{
    a.to_owned() == b.to_owned()
}

/// `s` without prefix `p`, if `s` starts with it.
pub fn strip_prefix_chars(s: &Vec<char>, p: &str) -> (r: Option<Vec<char>>)
    ensures
        match strip_prefix(s@, p@) {
            Some(t) => r matches Some(v) && v@ == t,
            None => r is None,
        },
{
    let pc = str_chars(p);
    if s.len() < pc.len() {
        return None;
    }
    let mut i: usize = 0;
    while i < pc.len()
        invariant
            pc@ == p@,
            pc@.len() <= s@.len(),
            i <= pc@.len(),
            forall|j: int| 0 <= j < i ==> s@[j] == pc@[j],
        decreases pc@.len() - i,
    {
        if s[i] != pc[i] {
            assert(s@.subrange(0, pc@.len() as int)[i as int] != pc@[i as int]);
            return None;
        }
        i = i + 1;
    }
    assert(s@.subrange(0, pc@.len() as int) =~= pc@);
    let mut out: Vec<char> = Vec::new();
    let mut k: usize = pc.len();
    while k < s.len()
        invariant
            pc@.len() <= k <= s@.len(),
            out@ =~= s@.subrange(pc@.len() as int, k as int),
        decreases s@.len() - k,
    {
        out.push(s[k]);
        k = k + 1;
    }
    Some(out)
}

/// `s` without suffix `p`, if `s` ends with it.
pub fn strip_suffix_chars(s: &Vec<char>, p: &str) -> (r: Option<Vec<char>>)
    ensures
        match strip_suffix(s@, p@) {
            Some(t) => r matches Some(v) && v@ == t,
            None => r is None,
        },
{
    let pc = str_chars(p);
    if s.len() < pc.len() {
        return None;
    }
    let base = s.len() - pc.len();
    let mut i: usize = 0;
    while i < pc.len()
        invariant
            pc@ == p@,
            base + pc@.len() == s@.len(),
            s@.len() == s.len(),
            i <= pc@.len(),
            forall|j: int| 0 <= j < i ==> s@[base + j] == pc@[j],
        decreases pc@.len() - i,
    {
        if s[base + i] != pc[i] {
            assert(s@.subrange(base as int, s@.len() as int)[i as int] != pc@[i as int]);
            return None;
        }
        i = i + 1;
    }
    assert(s@.subrange(base as int, s@.len() as int) =~= pc@);
    let mut out: Vec<char> = Vec::new();
    let mut k: usize = 0;
    while k < base
        invariant
            base <= s@.len(),
            k <= base,
            out@ =~= s@.subrange(0, k as int),
        decreases base - k,
    {
        out.push(s[k]);
        k = k + 1;
    }
    Some(out)
}

proof fn lemma_first_slash_bounds(s: Seq<char>, from: int)
    ensures
        first_slash(s, from) matches Some(i) ==> from <= i < s.len() && s[i] == '/',
    decreases s.len() - from,
{
    if from >= 0 && from < s.len() && s[from] != '/' {
        lemma_first_slash_bounds(s, from + 1);
    }
}

fn find_slash(s: &Vec<char>, from: usize) -> (r: Option<usize>)
    requires
        from <= s@.len(),
    ensures
        r is Some <==> first_slash(s@, from as int) is Some,
        r matches Some(i) ==> first_slash(s@, from as int) == Some(i as int) && from <= i < s@.len(),
{
    proof {
        lemma_first_slash_bounds(s@, from as int);
    }
    let mut i = from;
    while i < s.len()
        invariant
            from <= i <= s@.len(),
            first_slash(s@, from as int) == first_slash(s@, i as int),
        decreases s@.len() - i,
    {
        if s[i] == '/' {
            return Some(i);
        }
        i = i + 1;
    }
    None
}

fn sub_chars(s: &Vec<char>, lo: usize, hi: usize) -> (r: Vec<char>)
    requires
        lo <= hi <= s@.len(),
    ensures
        r@ == s@.subrange(lo as int, hi as int),
{
    let mut out: Vec<char> = Vec::new();
    let mut k = lo;
    while k < hi
        invariant
            lo <= k <= hi,
            hi <= s@.len(),
            out@ =~= s@.subrange(lo as int, k as int),
        decreases hi - k,
    {
        out.push(s[k]);
        k = k + 1;
    }
    out
}

fn clamp7_exec(v: u64) -> (r: u8)
    requires
        v <= 255,
    ensures
        r == clamp7(v as nat),
{
    if v > 127 { 127 } else { v as u8 }
}

fn parse_u8(s: &Vec<char>) -> (r: Option<u64>)
    ensures
        match parse_unsigned(s@, 255) {
            Some(v) => r == Some(v as u64),
            None => r is None,
        },
{
    parse_unsigned_chars(s, 255)
}

fn parse_usize(s: &Vec<char>) -> (r: Option<usize>)
    ensures
        match parse_unsigned(s@, usize::MAX as nat) {
            Some(v) => r == Some(v as usize),
            None => r is None,
        },
{
    match parse_unsigned_chars(s, usize::MAX as u64) {
        Some(v) => Some(v as usize),
        None => None,
    }
}

fn note_on_route_exec(rest: &Vec<char>) -> (r: Route)
    ensures
        r == note_on_route(rest@),
{
    let len = rest.len();
    match find_slash(rest, 0) {
        None => match parse_u8(rest) {
            Some(n) => Route::NoteOn { note: clamp7_exec(n), velocity: 100 },
            None => Route::Error(RouteError::InvalidNote),
        },
        Some(i) => {
            let note_s = sub_chars(rest, 0, i);
            let vel_s = sub_chars(rest, i + 1, len);
            let ghost spec_r = note_on_route(rest@);
            if find_slash(rest, i + 1).is_some() {
                assert(spec_r == Route::Error(RouteError::InvalidPath));
                Route::Error(RouteError::InvalidPath)
            } else {
                match parse_u8(&note_s) {
                    None => Route::Error(RouteError::InvalidNote),
                    Some(n) => match parse_u8(&vel_s) {
                        None => Route::Error(RouteError::InvalidVelocity),
                        Some(v) => {
                            let r = Route::NoteOn { note: clamp7_exec(n), velocity: clamp7_exec(v) };
                            assert(r == spec_r);
                            r
                        },
                    },
                }
            }
        },
    }
}

/// Routes a path with parameters (see [`dynamic_route`]).
pub fn handle_dynamic_route(path: &str, method: &str) -> (r: Route)
    ensures
        r == dynamic_route(path@, method@),
{
    let p = str_chars(path);
    if let Some(rest) = strip_prefix_chars(&p, "/start_learn/") {
        return match parse_usize(&rest) {
            Some(v) => Route::StartLearn(v),
            None => Route::Error(RouteError::InvalidSlot),
        };
    }
    if let Some(rest) = strip_prefix_chars(&p, "/wiggle/") {
        return match parse_usize(&rest) {
            Some(v) => Route::Wiggle(v),
            None => Route::Error(RouteError::InvalidSlot),
        };
    }
    if let Some(rest) = strip_prefix_chars(&p, "/note_on/") {
        return note_on_route_exec(&rest);
    }
    if let Some(rest) = strip_prefix_chars(&p, "/note_off/") {
        return match parse_u8(&rest) {
            Some(n) => Route::NoteOff(clamp7_exec(n)),
            None => Route::Error(RouteError::InvalidNote),
        };
    }
    if let Some(rest) = strip_prefix_chars(&p, "/fugue/") {
        return match parse_unsigned_chars(&rest, u64::MAX) {
            Some(n) => Route::FugueById(n),
            None => Route::Error(RouteError::InvalidId),
        };
    }
    if let Some(rest) = strip_prefix_chars(&p, "/slots/") {
        if let Some(idx) = strip_suffix_chars(&rest, "/cc") {
            return match parse_usize(&idx) {
                Some(v) => Route::SetSlotCc(v),
                None => Route::Error(RouteError::InvalidSlotIndex),
            };
        }
        if let Some(idx) = strip_suffix_chars(&rest, "/name") {
            return match parse_usize(&idx) {
                Some(v) => Route::RenameSlot(v),
                None => Route::Error(RouteError::InvalidSlotIndex),
            };
        }
        if let Some(idx) = strip_suffix_chars(&rest, "/channel") {
            return match parse_usize(&idx) {
                Some(v) => Route::SetSlotChannel(v),
                None => Route::Error(RouteError::InvalidSlotIndex),
            };
        }
        if str_eq(method, "DELETE") {
            return match parse_usize(&rest) {
                Some(v) => Route::RemoveSlot(v),
                None => Route::Error(RouteError::InvalidSlotIndex),
            };
        }
    }
    Route::Error(RouteError::NotFound)
}

/// Routes a GUI API request (see [`route_of`]).
pub fn handle_request(path: &str, method: &str) -> (r: Route)
    ensures
        r == route_of(path@, method@),
{
    let get = str_eq(method, "GET");
    let post = str_eq(method, "POST");
    if str_eq(path, "/self") { Route::SelfInfo }
    else if str_eq(path, "/slots") { Route::Slots }
    else if str_eq(path, "/activity") { Route::Activity }
    else if str_eq(path, "/fugues") { Route::Fugues }
    else if str_eq(path, "/transport") { Route::Transport }
    else if str_eq(path, "/instances") { Route::Instances }
    else if str_eq(path, "/project_layout") && get { Route::GetProjectLayout }
    else if str_eq(path, "/project_layout") && post { Route::PostProjectLayout }
    else if str_eq(path, "/cancel_learn") { Route::CancelLearn }
    else if str_eq(path, "/clear_fugues") { Route::ClearFugues }
    else if str_eq(path, "/settings") && get { Route::GetSettings }
    else if str_eq(path, "/reveal_exports") { Route::RevealExports }
    else if str_eq(path, "/queue_fugue") && post { Route::QueueFugue }
    else if str_eq(path, "/cancel_fugue") && post { Route::CancelFugue }
    else if str_eq(path, "/cancel_fugues_by_tag") && post { Route::CancelFuguesByTag }
    else if str_eq(path, "/rename_instance") && post { Route::RenameInstance }
    else if str_eq(path, "/settings") && post { Route::UpdateSettings }
    else if str_eq(path, "/export_fugue") && post { Route::ExportFugue }
    else if str_eq(path, "/import_fugue") && post { Route::ImportFugue }
    else if str_eq(path, "/slots") && post { Route::AddSlot }
    else { handle_dynamic_route(path, method) }
}

/// Each fixed path reaches its own handler and no other: a request goes to
/// one of the fixed-path handlers exactly when its path is that handler's
/// path and, for a handler bound to one method, its method is that one.
/// `POST /slots` is answered by the slot list, as every `/slots` request
/// is, so no request reaches the add-slot handler.
pub proof fn lemma_fixed_paths_route_to_their_handlers(path: Seq<char>, method: Seq<char>)
    ensures
        (route_of(path, method) == Route::SelfInfo) <==> path == "/self"@,
        (route_of(path, method) == Route::Slots) <==> path == "/slots"@,
        (route_of(path, method) == Route::Activity) <==> path == "/activity"@,
        (route_of(path, method) == Route::Fugues) <==> path == "/fugues"@,
        (route_of(path, method) == Route::Transport) <==> path == "/transport"@,
        (route_of(path, method) == Route::Instances) <==> path == "/instances"@,
        (route_of(path, method) == Route::GetProjectLayout) <==> (path == "/project_layout"@ && method == "GET"@),
        (route_of(path, method) == Route::PostProjectLayout) <==> (path == "/project_layout"@ && method == "POST"@),
        (route_of(path, method) == Route::CancelLearn) <==> path == "/cancel_learn"@,
        (route_of(path, method) == Route::ClearFugues) <==> path == "/clear_fugues"@,
        (route_of(path, method) == Route::GetSettings) <==> (path == "/settings"@ && method == "GET"@),
        (route_of(path, method) == Route::RevealExports) <==> path == "/reveal_exports"@,
        (route_of(path, method) == Route::QueueFugue) <==> (path == "/queue_fugue"@ && method == "POST"@),
        (route_of(path, method) == Route::CancelFugue) <==> (path == "/cancel_fugue"@ && method == "POST"@),
        (route_of(path, method) == Route::CancelFuguesByTag) <==> (path == "/cancel_fugues_by_tag"@ && method == "POST"@),
        (route_of(path, method) == Route::RenameInstance) <==> (path == "/rename_instance"@ && method == "POST"@),
        (route_of(path, method) == Route::UpdateSettings) <==> (path == "/settings"@ && method == "POST"@),
        (route_of(path, method) == Route::ExportFugue) <==> (path == "/export_fugue"@ && method == "POST"@),
        (route_of(path, method) == Route::ImportFugue) <==> (path == "/import_fugue"@ && method == "POST"@),
        route_of(path, method) != Route::AddSlot,
{
    reveal_strlit("/self");
    reveal_strlit("/slots");
    reveal_strlit("/activity");
    reveal_strlit("/fugues");
    reveal_strlit("/transport");
    reveal_strlit("/instances");
    reveal_strlit("/project_layout");
    reveal_strlit("/cancel_learn");
    reveal_strlit("/clear_fugues");
    reveal_strlit("/settings");
    reveal_strlit("/reveal_exports");
    reveal_strlit("/queue_fugue");
    reveal_strlit("/cancel_fugue");
    reveal_strlit("/cancel_fugues_by_tag");
    reveal_strlit("/rename_instance");
    reveal_strlit("/export_fugue");
    reveal_strlit("/import_fugue");
    reveal_strlit("GET");
    reveal_strlit("POST");
    assert("GET"@.len() != "POST"@.len());
    assert("/instances"@[1] != "/transport"@[1]);
    assert("/activity"@[1] != "/settings"@[1]);
    assert("/project_layout"@[1] != "/reveal_exports"@[1]);
    assert("/cancel_learn"@[3] != "/clear_fugues"@[3]);
    assert("/cancel_learn"@[8] != "/cancel_fugue"@[8]);
    assert("/cancel_learn"@[1] != "/export_fugue"@[1]);
    assert("/cancel_learn"@[1] != "/import_fugue"@[1]);
    assert("/clear_fugues"@[3] != "/cancel_fugue"@[3]);
    assert("/clear_fugues"@[1] != "/export_fugue"@[1]);
    assert("/clear_fugues"@[1] != "/import_fugue"@[1]);
    assert("/cancel_fugue"@[1] != "/export_fugue"@[1]);
    assert("/cancel_fugue"@[1] != "/import_fugue"@[1]);
    assert("/export_fugue"@[1] != "/import_fugue"@[1]);
}

/// A path that starts with one of the parameter prefixes is no fixed path,
/// so it is routed by its parameters.
proof fn lemma_prefixed_path_is_dynamic(path: Seq<char>, method: Seq<char>, pre: Seq<char>)
    requires
        pre == "/start_learn/"@ || pre == "/wiggle/"@ || pre == "/note_on/"@ || pre == "/note_off/"@
            || pre == "/fugue/"@ || pre == "/slots/"@,
        strip_prefix(path, pre) is Some,
    ensures
        route_of(path, method) == dynamic_route(path, method),
{
    reveal_strlit("/start_learn/");
    reveal_strlit("/wiggle/");
    reveal_strlit("/note_on/");
    reveal_strlit("/note_off/");
    reveal_strlit("/fugue/");
    reveal_strlit("/slots/");
    reveal_strlit("/self");
    reveal_strlit("/slots");
    reveal_strlit("/activity");
    reveal_strlit("/fugues");
    reveal_strlit("/transport");
    reveal_strlit("/instances");
    reveal_strlit("/project_layout");
    reveal_strlit("/cancel_learn");
    reveal_strlit("/clear_fugues");
    reveal_strlit("/settings");
    reveal_strlit("/reveal_exports");
    reveal_strlit("/queue_fugue");
    reveal_strlit("/cancel_fugue");
    reveal_strlit("/cancel_fugues_by_tag");
    reveal_strlit("/rename_instance");
    reveal_strlit("/export_fugue");
    reveal_strlit("/import_fugue");
    let head = path.subrange(0, pre.len() as int);
    assert(head == pre);
    assert(pre.len() >= 7);
    assert(path[1] == head[1] && path[2] == head[2] && path[6] == head[6]);
}

/// A request reaches a handler that takes a parameter only through that
/// handler's path prefix (and, to remove a slot, the `DELETE` method), with
/// the parameter read from the rest of the path; a note-on or note-off
/// carries MIDI data bytes, at most 127.
pub proof fn lemma_parameter_routes_come_from_their_paths(path: Seq<char>, method: Seq<char>)
    ensures
        route_of(path, method) matches Route::StartLearn(v) ==> strip_prefix(path, "/start_learn/"@) matches Some(rest)
            && parse_unsigned(rest, usize::MAX as nat) == Some(v as nat),
        route_of(path, method) matches Route::Wiggle(v) ==> strip_prefix(path, "/wiggle/"@) matches Some(rest)
            && parse_unsigned(rest, usize::MAX as nat) == Some(v as nat),
        route_of(path, method) matches Route::NoteOn { note, velocity } ==> strip_prefix(path, "/note_on/"@) is Some
            && note <= 127 && velocity <= 127,
        route_of(path, method) matches Route::NoteOff(n) ==> strip_prefix(path, "/note_off/"@) is Some && n <= 127,
        route_of(path, method) matches Route::FugueById(id) ==> strip_prefix(path, "/fugue/"@) matches Some(rest)
            && parse_unsigned(rest, u64::MAX as nat) == Some(id as nat),
        route_of(path, method) matches Route::SetSlotCc(i) ==> strip_prefix(path, "/slots/"@) matches Some(rest)
            && strip_suffix(rest, "/cc"@) matches Some(slot) && parse_unsigned(slot, usize::MAX as nat) == Some(i as nat),
        route_of(path, method) matches Route::RenameSlot(i) ==> strip_prefix(path, "/slots/"@) matches Some(rest)
            && strip_suffix(rest, "/name"@) matches Some(slot) && parse_unsigned(slot, usize::MAX as nat) == Some(i as nat),
        route_of(path, method) matches Route::SetSlotChannel(i) ==> strip_prefix(path, "/slots/"@) matches Some(rest)
            && strip_suffix(rest, "/channel"@) matches Some(slot) && parse_unsigned(slot, usize::MAX as nat) == Some(i as nat),
        route_of(path, method) matches Route::RemoveSlot(i) ==> method == "DELETE"@
            && (strip_prefix(path, "/slots/"@) matches Some(rest) && parse_unsigned(rest, usize::MAX as nat) == Some(i as nat)),
{
}

/// A request whose path names a parameter handler and a well-formed
/// parameter reaches that handler with that parameter: a slot, note or
/// fugue id written after its prefix is the one the handler gets, notes
/// above 127 are clamped to 127 ([`clamp7`]), and a note-on without a velocity plays
/// at velocity 100.
pub proof fn lemma_parameter_paths_reach_their_handlers(path: Seq<char>, method: Seq<char>)
    ensures
        strip_prefix(path, "/start_learn/"@) matches Some(rest) ==> (parse_unsigned(rest, usize::MAX as nat) matches Some(v)
            ==> route_of(path, method) == Route::StartLearn(v as usize)),
        strip_prefix(path, "/wiggle/"@) matches Some(rest) ==> (parse_unsigned(rest, usize::MAX as nat) matches Some(v)
            ==> route_of(path, method) == Route::Wiggle(v as usize)),
        strip_prefix(path, "/note_on/"@) matches Some(rest) ==> (!rest.contains('/') ==> (parse_unsigned(rest, 255) matches Some(n)
            ==> route_of(path, method) == (Route::NoteOn { note: clamp7(n), velocity: 100 }))),
        strip_prefix(path, "/note_off/"@) matches Some(rest) ==> (parse_unsigned(rest, 255) matches Some(n)
            ==> route_of(path, method) == Route::NoteOff(clamp7(n))),
        strip_prefix(path, "/fugue/"@) matches Some(rest) ==> (parse_unsigned(rest, u64::MAX as nat) matches Some(v)
            ==> route_of(path, method) == Route::FugueById(v as u64)),
{
    reveal_strlit("/start_learn/");
    reveal_strlit("/wiggle/");
    reveal_strlit("/note_on/");
    reveal_strlit("/note_off/");
    reveal_strlit("/fugue/");
    let pres = seq!["/start_learn/"@, "/wiggle/"@, "/note_on/"@, "/note_off/"@, "/fugue/"@];
    // Which of the prefixes `path` has, by its second and seventh characters.
    assert forall|k: int| 0 <= k < pres.len() && strip_prefix(path, #[trigger] pres[k]) is Some
        implies path[1] == pres[k][1] && path[6] == pres[k][6] by {
        lemma_prefix_chars(path, pres[k]);
    }
    assert(strip_prefix(path, pres[0]) == strip_prefix(path, "/start_learn/"@));
    assert(strip_prefix(path, pres[1]) == strip_prefix(path, "/wiggle/"@));
    assert(strip_prefix(path, pres[2]) == strip_prefix(path, "/note_on/"@));
    assert(strip_prefix(path, pres[3]) == strip_prefix(path, "/note_off/"@));
    assert(strip_prefix(path, pres[4]) == strip_prefix(path, "/fugue/"@));
    if let Some(rest) = strip_prefix(path, "/start_learn/"@) {
        lemma_prefixed_path_is_dynamic(path, method, "/start_learn/"@);
        if let Some(v) = parse_unsigned(rest, usize::MAX as nat) {
            assert(dynamic_route(path, method) == Route::StartLearn(v as usize));
            assert(route_of(path, method) == Route::StartLearn(v as usize));
        }
    }
    if let Some(rest) = strip_prefix(path, "/wiggle/"@) {
        lemma_prefixed_path_is_dynamic(path, method, "/wiggle/"@);
        if let Some(v) = parse_unsigned(rest, usize::MAX as nat) {
            assert(dynamic_route(path, method) == Route::Wiggle(v as usize));
        }
    }
    if strip_prefix(path, "/note_on/"@) is Some {
        lemma_prefixed_path_is_dynamic(path, method, "/note_on/"@);
        let rest = strip_prefix(path, "/note_on/"@).unwrap();
        if !rest.contains('/') {
            assert forall|j: int| 0 <= j < rest.len() implies rest[j] != '/' by {
                if rest[j] == '/' {
                    assert(rest.contains('/'));
                }
            }
            lemma_no_slash(rest, 0);
        }
    }
    if strip_prefix(path, "/note_off/"@) is Some {
        lemma_prefixed_path_is_dynamic(path, method, "/note_off/"@);
        lemma_prefix_chars(path, "/note_off/"@);
        if strip_prefix(path, "/note_on/"@) is Some {
            lemma_prefix_chars(path, "/note_on/"@);
            assert(path[7] == "/note_on/"@[7]);
            assert(path[7] == "/note_off/"@[7]);
        }
    }
    if strip_prefix(path, "/fugue/"@) is Some {
        lemma_prefixed_path_is_dynamic(path, method, "/fugue/"@);
    }
}

/// A path with prefix `pre` agrees with it on every character of `pre`.
proof fn lemma_prefix_chars(path: Seq<char>, pre: Seq<char>)
    requires
        strip_prefix(path, pre) is Some,
    ensures
        forall|i: int| 0 <= i < pre.len() ==> path[i] == #[trigger] pre[i],
{
    assert forall|i: int| 0 <= i < pre.len() implies path[i] == #[trigger] pre[i] by {
        assert(path.subrange(0, pre.len() as int)[i] == path[i]);
    }
}

proof fn lemma_no_slash(s: Seq<char>, from: int)
    requires
        forall|j: int| from <= j < s.len() ==> s[j] != '/',
        0 <= from,
    ensures
        first_slash(s, from) is None,
    decreases s.len() - from,
{
    if from < s.len() {
        lemma_no_slash(s, from + 1);
    }
}

proof fn lemma_first_slash_at(s: Seq<char>, from: int, i: int)
    requires
        0 <= from <= i < s.len(),
        s[i] == '/',
        forall|j: int| from <= j < i ==> s[j] != '/',
    ensures
        first_slash(s, from) == Some(i),
    decreases i - from,
{
    if from < i {
        lemma_first_slash_at(s, from + 1, i);
    }
}

/// A note-on path with a note and a velocity plays that note at that
/// velocity, each clamped to 127.
pub proof fn lemma_note_on_with_velocity(path: Seq<char>, method: Seq<char>, note: Seq<char>, velocity: Seq<char>, n: nat, v: nat)
    requires
        path == "/note_on/"@ + note + "/"@ + velocity,
        !note.contains('/'),
        !velocity.contains('/'),
        parse_unsigned(note, 255) == Some(n),
        parse_unsigned(velocity, 255) == Some(v),
    ensures
        route_of(path, method) == (Route::NoteOn { note: clamp7(n), velocity: clamp7(v) }),
{
    reveal_strlit("/note_on/");
    reveal_strlit("/");
    reveal_strlit("/start_learn/");
    reveal_strlit("/wiggle/");
    let rest = note + "/"@ + velocity;
    assert(path.subrange(0, 9) =~= "/note_on/"@);
    assert(path.subrange(9, path.len() as int) =~= rest);
    assert(strip_prefix(path, "/note_on/"@) == Some(rest));
    lemma_prefixed_path_is_dynamic(path, method, "/note_on/"@);
    let i = note.len() as int;
    assert forall|j: int| 0 <= j < i implies rest[j] != '/' by {
        assert(rest[j] == note[j]);
    }
    lemma_first_slash_at(rest, 0, i);
    assert forall|j: int| i + 1 <= j < rest.len() implies rest[j] != '/' by {
        assert(rest[j] == velocity[j - i - 1]);
    }
    lemma_no_slash(rest, i + 1);
    assert(rest.subrange(0, i) =~= note);
    assert(rest.subrange(i + 1, rest.len() as int) =~= velocity);
    lemma_prefix_chars(path, "/note_on/"@);
    let pres = seq!["/start_learn/"@, "/wiggle/"@];
    assert forall|k: int| 0 <= k < pres.len() implies strip_prefix(path, #[trigger] pres[k]) is None by {
        if strip_prefix(path, pres[k]) is Some {
            lemma_prefix_chars(path, pres[k]);
            assert(path[1] == pres[k][1]);
            assert(path[1] == "/note_on/"@[1]);
        }
    }
    assert(strip_prefix(path, pres[0]) == strip_prefix(path, "/start_learn/"@));
    assert(strip_prefix(path, pres[1]) == strip_prefix(path, "/wiggle/"@));
}

/// A request on a slot's sub-path reaches that slot's handler: `/cc`,
/// `/name` and `/channel` after `/slots/{i}` set the slot's controller,
/// name and channel, and `DELETE /slots/{i}` removes the slot.
pub proof fn lemma_slot_paths_reach_their_handlers(path: Seq<char>, method: Seq<char>)
    ensures
        strip_prefix(path, "/slots/"@) matches Some(rest) ==> (strip_suffix(rest, "/cc"@) matches Some(slot)
            ==> (parse_unsigned(slot, usize::MAX as nat) matches Some(i) ==> route_of(path, method) == Route::SetSlotCc(i as usize))),
        strip_prefix(path, "/slots/"@) matches Some(rest) ==> (strip_suffix(rest, "/name"@) matches Some(slot)
            ==> (parse_unsigned(slot, usize::MAX as nat) matches Some(i) ==> route_of(path, method) == Route::RenameSlot(i as usize))),
        strip_prefix(path, "/slots/"@) matches Some(rest) ==> (strip_suffix(rest, "/channel"@) matches Some(slot)
            ==> (parse_unsigned(slot, usize::MAX as nat) matches Some(i) ==> route_of(path, method) == Route::SetSlotChannel(i as usize))),
        strip_prefix(path, "/slots/"@) matches Some(rest) ==> (method == "DELETE"@ && strip_suffix(rest, "/cc"@) is None
            && strip_suffix(rest, "/name"@) is None && strip_suffix(rest, "/channel"@) is None
            ==> (parse_unsigned(rest, usize::MAX as nat) matches Some(i) ==> route_of(path, method) == Route::RemoveSlot(i as usize))),
{
    reveal_strlit("/start_learn/");
    reveal_strlit("/wiggle/");
    reveal_strlit("/note_on/");
    reveal_strlit("/note_off/");
    reveal_strlit("/fugue/");
    reveal_strlit("/slots/");
    reveal_strlit("/cc");
    reveal_strlit("/name");
    reveal_strlit("/channel");
    if let Some(rest) = strip_prefix(path, "/slots/"@) {
        lemma_prefixed_path_is_dynamic(path, method, "/slots/"@);
        lemma_prefix_chars(path, "/slots/"@);
        let pres = seq!["/start_learn/"@, "/wiggle/"@, "/note_on/"@, "/note_off/"@, "/fugue/"@];
        assert forall|k: int| 0 <= k < pres.len() implies strip_prefix(path, #[trigger] pres[k]) is None by {
            if strip_prefix(path, pres[k]) is Some {
                lemma_prefix_chars(path, pres[k]);
                assert(path[1] == pres[k][1] && path[6] == pres[k][6]);
                assert(path[1] == "/slots/"@[1] && path[6] == "/slots/"@[6]);
            }
        }
        assert(strip_prefix(path, pres[0]) == strip_prefix(path, "/start_learn/"@));
        assert(strip_prefix(path, pres[1]) == strip_prefix(path, "/wiggle/"@));
        assert(strip_prefix(path, pres[2]) == strip_prefix(path, "/note_on/"@));
        assert(strip_prefix(path, pres[3]) == strip_prefix(path, "/note_off/"@));
        assert(strip_prefix(path, pres[4]) == strip_prefix(path, "/fugue/"@));
        let n = rest.len() as int;
        if strip_suffix(rest, "/name"@) is Some {
            lemma_suffix_chars(rest, "/name"@);
            assert(rest[n - 1] == "/name"@[4]);
            if strip_suffix(rest, "/cc"@) is Some {
                lemma_suffix_chars(rest, "/cc"@);
                assert(rest[n - 1] == "/cc"@[2]);
            }
        }
        if strip_suffix(rest, "/channel"@) is Some {
            lemma_suffix_chars(rest, "/channel"@);
            assert(rest[n - 1] == "/channel"@[7]);
            if strip_suffix(rest, "/cc"@) is Some {
                lemma_suffix_chars(rest, "/cc"@);
                assert(rest[n - 1] == "/cc"@[2]);
            }
            if strip_suffix(rest, "/name"@) is Some {
                lemma_suffix_chars(rest, "/name"@);
                assert(rest[n - 1] == "/name"@[4]);
            }
        }
        if let Some(slot) = strip_suffix(rest, "/cc"@) {
            if let Some(i) = parse_unsigned(slot, usize::MAX as nat) {
                assert(dynamic_route(path, method) == Route::SetSlotCc(i as usize));
            }
        }
        if let Some(slot) = strip_suffix(rest, "/name"@) {
            if let Some(i) = parse_unsigned(slot, usize::MAX as nat) {
                assert(dynamic_route(path, method) == Route::RenameSlot(i as usize));
            }
        }
        if let Some(slot) = strip_suffix(rest, "/channel"@) {
            if let Some(i) = parse_unsigned(slot, usize::MAX as nat) {
                assert(dynamic_route(path, method) == Route::SetSlotChannel(i as usize));
            }
        }
        if let Some(i) = parse_unsigned(rest, usize::MAX as nat) {
            if method == "DELETE"@ && strip_suffix(rest, "/cc"@) is None && strip_suffix(rest, "/name"@) is None
                && strip_suffix(rest, "/channel"@) is None {
                assert(dynamic_route(path, method) == Route::RemoveSlot(i as usize));
            }
        }
    }
}

/// A path with suffix `suf` agrees with it on every character of `suf`.
pub(crate) proof fn lemma_suffix_chars(path: Seq<char>, suf: Seq<char>)
    requires
        strip_suffix(path, suf) is Some,
    ensures
        forall|i: int| 0 <= i < suf.len() ==> path[path.len() - suf.len() + i] == #[trigger] suf[i],
{
    assert forall|i: int| 0 <= i < suf.len() implies path[path.len() - suf.len() + i] == #[trigger] suf[i] by {
        assert(path.subrange(path.len() - suf.len(), path.len() as int)[i] == path[path.len() - suf.len() + i]);
    }
}

} // verus!
