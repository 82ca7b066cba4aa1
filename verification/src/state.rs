//! The per-project plugin state: how a saved CC slot comes back.

use vstd::prelude::*;

verus! {

/// A CC slot restored from a saved project.
#[derive(Debug)]
pub struct RestoredSlot {
    pub cc: u8,
    pub name: String,
    pub channel: Option<u8>,
}

/// Restores a slot from the fields a saved project holds for it: a
/// missing CC number becomes 255 (unassigned) and a missing name `Slot`;
/// numbers keep their low byte; the channel is set only when saved.
pub fn restore_slot(cc: Option<u64>, name: Option<&str>, channel: Option<u64>) -> (r: RestoredSlot)
    ensures
        r.cc == (match cc {
            Some(v) => v as u8,
            None => 255u8,
        }),
        r.name@ == (match name {
            Some(n) => n@,
            None => "Slot"@,
        }),
        r.channel == (match channel {
            Some(c) => Some(c as u8),
            None => None::<u8>,
        }),
{
    let cc = match cc {
        Some(v) => v as u8,
        None => 255,
    };
    let name = match name {
        Some(n) => String::from_str(n),
        None => String::from_str("Slot"),
    };
    let channel = match channel {
        Some(c) => Some(c as u8),
        None => None,
    };
    RestoredSlot { cc, name, channel }
}

} // verus!
