//! MIDI messages exchanged with the audio thread and their wire encoding.

use vstd::prelude::*;

verus! {

/// A Control Change message.
#[derive(Clone, Copy, PartialEq, Eq, Structural, Debug)]
pub struct CcMessage {
    pub channel: u8,
    pub cc: u8,
    pub value: u8,
}

impl CcMessage {
    /// A CC message.
    pub fn new(channel: u8, cc: u8, value: u8) -> (r: Self)
        ensures
            r == (CcMessage { channel, cc, value }),
    {
        CcMessage { channel, cc, value }
    }
}

/// A Note On / Note Off message.
#[derive(Clone, Copy, PartialEq, Eq, Structural, Debug)]
pub struct NoteMessage {
    pub channel: u8,
    pub note: u8,
    pub velocity: u8,
    pub is_note_on: bool,
}

impl NoteMessage {
    /// A note message.
    pub fn new(channel: u8, note: u8, velocity: u8, is_note_on: bool) -> (r: Self)
        ensures
            r == (NoteMessage { channel, note, velocity, is_note_on }),
    {
        NoteMessage { channel, note, velocity, is_note_on }
    }
}

/// A channel message the plugin emits.
#[derive(Clone, Copy, PartialEq, Eq, Structural, Debug)]
pub enum ChannelMessage {
    Cc(CcMessage),
    Note(NoteMessage),
}

/// The three wire bytes of a message: status (`0xB0`, `0x90` or `0x80`
/// with the channel's low nibble), then data bytes.
pub open spec fn spec_midi_bytes(msg: ChannelMessage) -> [u8; 3] {
    match msg {
        ChannelMessage::Cc(cc) => [(0xB0u8 | (cc.channel & 0x0F)) as u8, cc.cc, cc.value],
        ChannelMessage::Note(n) => [
            if n.is_note_on { (0x90u8 | (n.channel & 0x0F)) as u8 } else { (0x80u8 | (n.channel & 0x0F)) as u8 },
            n.note,
            n.velocity,
        ],
    }
}

/// Encodes a message as the three bytes sent on the note port.
pub fn midi_bytes(msg: ChannelMessage) -> (r: [u8; 3])
    ensures
        r == spec_midi_bytes(msg),
{
    match msg {
        ChannelMessage::Cc(cc) => {
            let status = 0xB0u8 | (cc.channel & 0x0F);
            [status, cc.cc, cc.value]
        },
        ChannelMessage::Note(note) => {
            let status = if note.is_note_on {
                0x90u8 | (note.channel & 0x0F)
            } else {
                0x80u8 | (note.channel & 0x0F)
            };
            [status, note.note, note.velocity]
        },
    }
}

/// The `(channel, controller)` of an incoming Control Change (status
/// `0xB0`–`0xBF`), the input that MIDI learn listens for; `None` for any
/// other message.
pub fn incoming_cc(status: u8, data1: u8) -> (r: Option<(u8, u8)>)
    ensures
        r == (if 0xB0 <= status <= 0xBF { Some(((status - 0xB0) as u8, data1)) } else { None::<(u8, u8)> }),
{
    if 0xB0 <= status && status <= 0xBF {
        let channel = status & 0x0F;
        assert(0xB0 <= status <= 0xBF ==> status & 0x0F == status - 0xB0) by (bit_vector);
        Some((channel, data1))
    } else {
        None
    }
}

} // verus!
