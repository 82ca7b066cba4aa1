//! The plugin's host-parameter surface: one read-only instance-id
//! parameter and one automatable parameter per CC slot.

use vstd::prelude::*;

verus! {

/// Number of CC slots exposed as host parameters.
pub const NUM_CC_SLOTS: usize = 16;

/// Parameter id of the read-only instance-id parameter.
pub const INSTANCE_ID_PARAM: u32 = 1;

/// Parameter id of slot 0; slot `i` is `SLOT_PARAM_BASE + i`.
pub const SLOT_PARAM_BASE: u32 = 100;

/// Capacity of the host's parameter-name buffer, including its terminator.
pub const PARAM_NAME_CAPACITY: usize = 64;

/// The slot a parameter id addresses, if it is a slot parameter.
pub fn slot_for_param(param_id: u32) -> (r: Option<usize>)
    ensures
        r == (if SLOT_PARAM_BASE <= param_id && param_id - SLOT_PARAM_BASE < NUM_CC_SLOTS {
            Some((param_id - SLOT_PARAM_BASE) as usize)
        } else {
            None::<usize>
        }),
{
    if param_id < SLOT_PARAM_BASE {
        return None;
    }
    let i = (param_id - SLOT_PARAM_BASE) as usize;
    if i < NUM_CC_SLOTS { Some(i) } else { None }
}

/// Number of host parameters: the instance id plus one per slot.
pub fn param_count() -> (r: u32)
    ensures
        r == 1 + NUM_CC_SLOTS,
{
    1 + NUM_CC_SLOTS as u32
}

/// What a parameter index describes.
#[derive(Clone, Copy, PartialEq, Eq, Structural, Debug)]
pub enum ParamIndex {
    /// The instance-id parameter.
    InstanceId,
    /// The parameter of this slot.
    Slot(usize),
    /// No parameter.
    OutOfRange,
}

/// The parameter at host index `param_index`: index 0 is the instance id,
/// the next [`NUM_CC_SLOTS`] are the slots.
pub fn param_at_index(param_index: u32) -> (r: ParamIndex)
    ensures
        r == (if param_index == 0 {
            ParamIndex::InstanceId
        } else if param_index - 1 < NUM_CC_SLOTS {
            ParamIndex::Slot((param_index - 1) as usize)
        } else {
            ParamIndex::OutOfRange
        }),
{
    if param_index == 0 {
        return ParamIndex::InstanceId;
    }
    let slot = (param_index - 1) as usize;
    if slot >= NUM_CC_SLOTS { ParamIndex::OutOfRange } else { ParamIndex::Slot(slot) }
}

/// The parameter id of a slot.
pub fn slot_param_id(slot: usize) -> (r: u32)
    requires
        slot < NUM_CC_SLOTS,
    ensures
        r == SLOT_PARAM_BASE + slot,
{
    SLOT_PARAM_BASE + slot as u32
}

/// How many bytes of a slot name fit the host's name buffer (one byte is
/// kept for the terminator).
pub fn param_name_len(name_len: usize) -> (r: usize)
    ensures
        r == if name_len < PARAM_NAME_CAPACITY - 1 { name_len } else { (PARAM_NAME_CAPACITY - 1) as usize },
{
    if name_len < PARAM_NAME_CAPACITY - 1 { name_len } else { PARAM_NAME_CAPACITY - 1 }
}

/// Every slot's parameter id maps back to that slot.
pub proof fn lemma_slot_param_roundtrip(slot: usize)
    requires
        slot < NUM_CC_SLOTS,
    ensures
        ({
            let id = (SLOT_PARAM_BASE + slot) as u32;
            SLOT_PARAM_BASE <= id && id - SLOT_PARAM_BASE < NUM_CC_SLOTS && (id - SLOT_PARAM_BASE) as usize == slot
        }),
{
}

} // verus!
