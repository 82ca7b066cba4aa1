//! Decisions of the GUI HTTP/WebSocket server: instance selection, the
//! singleton start flag and when a WebSocket client gets a new fugue list.

use vstd::prelude::*;

verus! {

/// The instance a query without `instance` selects.
pub fn default_instance() -> (r: String)
    ensures
        r@ == crate::bridge::default_name(),
{
    let mut s = String::new();
    let cs: [char; 7] = ['d', 'e', 'f', 'a', 'u', 'l', 't'];
    let mut i: usize = 0;
    while i < 7
        invariant
            i <= 7,
            s@ =~= cs@.subrange(0, i as int),
            cs@ == crate::bridge::default_name(),
        decreases 7 - i,
    {
        crate::text::string_push(&mut s, cs[i]);
        i = i + 1;
    }
    s
}

/// Query parameter selecting an instance.
pub struct InstanceQuery {
    pub instance: String,
}

/// Query parameters of a WebSocket connection.
pub struct WsQuery {
    pub instance: String,
}

/// Request body for renaming an instance.
pub struct RenameInstanceRequest {
    pub instance: String,
    pub name: String,
}

/// Messages pushed to a WebSocket client.
pub enum WsMessage<T, F> {
    /// Transport state update.
    Transport(T),
    /// Fugue list update.
    Fugues(F),
}

/// Whether the server singleton has been started.
pub struct ServerFlag {
    started: bool,
}

impl ServerFlag {
    /// Whether the server has been started.
    pub closed spec fn started(&self) -> bool {
        self.started
    }

    /// A flag for a server not yet started.
    pub fn new() -> (r: Self)
        ensures
            !r.started(),
    {
        ServerFlag { started: false }
    }

    /// Marks the server started; returns whether this call is the one that
    /// must start it (only the first does).
    pub fn start(&mut self) -> (r: bool)
        ensures
            r == !old(self).started(),
            final(self).started(),
    {
        let first = !self.started;
        self.started = true;
        first
    }

    /// Whether the server has been started.
    pub fn is_server_running(&self) -> (r: bool)
        ensures
            r == self.started(),
    {
        self.started
    }
}

/// Whether two id lists are equal.
pub fn same_ids(a: &Vec<u64>, b: &Vec<u64>) -> (r: bool)
    ensures
        r == (a@ == b@),
{
    if a.len() != b.len() {
        return false;
    }
    let mut i: usize = 0;
    while i < a.len()
        invariant
            a@.len() == b@.len(),
            i <= a@.len(),
            forall|j: int| 0 <= j < i ==> a@[j] == b@[j],
        decreases a@.len() - i,
    {
        if a[i] != b[i] {
            return false;
        }
        i = i + 1;
    }
    assert(a@ =~= b@);
    true
}

/// Whether two flag lists are equal.
pub fn same_flags(a: &Vec<bool>, b: &Vec<bool>) -> (r: bool)
    ensures
        r == (a@ == b@),
{
    if a.len() != b.len() {
        return false;
    }
    let mut i: usize = 0;
    while i < a.len()
        invariant
            a@.len() == b@.len(),
            i <= a@.len(),
            forall|j: int| 0 <= j < i ==> a@[j] == b@[j],
        decreases a@.len() - i,
    {
        if a[i] != b[i] {
            return false;
        }
        i = i + 1;
    }
    assert(a@ =~= b@);
    true
}

/// Whether a WebSocket client must be sent the fugue list: the fugue ids
/// or their waiting flags differ from what it was last sent.
pub fn fugue_list_changed(current_ids: &Vec<u64>, current_waiting: &Vec<bool>, last_ids: &Vec<u64>, last_waiting: &Vec<bool>) -> (r: bool)
    ensures
        r == (current_ids@ != last_ids@ || current_waiting@ != last_waiting@),
{
    !same_ids(current_ids, last_ids) || !same_flags(current_waiting, last_waiting)
}

} // verus!
