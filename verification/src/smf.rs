//! Standard MIDI File content in this crate's own types, and the `midly`
//! parser and writer that turn it into bytes and back.

use vstd::prelude::*;
use midly::MidiMessage;

verus! {

/// Timing division of a file.
#[derive(Clone, Copy, PartialEq, Eq, Structural, Debug)]
pub enum SmfTiming {
    /// Ticks per quarter note.
    Metrical(u16),
    /// SMPTE time code.
    Timecode,
}

/// A channel message, without its channel.
#[derive(Clone, Copy, PartialEq, Eq, Structural, Debug)]
pub enum SmfMessage {
    NoteOff { key: u8, vel: u8 },
    NoteOn { key: u8, vel: u8 },
    /// Polyphonic (per-key) pressure.
    Aftertouch { key: u8, vel: u8 },
    Controller { controller: u8, value: u8 },
    ProgramChange { program: u8 },
    /// Channel-wide pressure.
    ChannelAftertouch { vel: u8 },
    PitchBend { bend: u16 },
}

/// What an event of a track carries, as far as this crate reads it.
#[derive(Debug)]
pub enum SmfEventKind {
    TrackName(Vec<u8>),
    /// Microseconds per quarter note.
    Tempo(u32),
    EndOfTrack,
    /// Any other meta event.
    OtherMeta,
    Midi { channel: u8, message: SmfMessage },
    SysEx,
    Escape,
}

/// One track event: delta time in ticks and its kind.
#[derive(Debug)]
pub struct SmfEvent {
    pub delta: u32,
    pub kind: SmfEventKind,
}

/// A parsed file: its timing division and its tracks.
#[derive(Debug)]
pub struct SmfContent {
    pub timing: SmfTiming,
    pub tracks: Vec<Vec<SmfEvent>>,
}

/// The value ranges of a channel message: 7-bit data bytes, 14-bit bend.
pub open spec fn message_in_range(m: SmfMessage) -> bool {
    match m {
        SmfMessage::NoteOff { key, vel } => key < 128 && vel < 128,
        SmfMessage::NoteOn { key, vel } => key < 128 && vel < 128,
        SmfMessage::Aftertouch { key, vel } => key < 128 && vel < 128,
        SmfMessage::Controller { controller, value } => controller < 128 && value < 128,
        SmfMessage::ProgramChange { program } => program < 128,
        SmfMessage::ChannelAftertouch { vel } => vel < 128,
        SmfMessage::PitchBend { bend } => bend < 16384,
    }
}

/// The value ranges of MIDI's restricted integers: 4-bit channels, 24-bit
/// tempo, and those of [`message_in_range`].
pub open spec fn kind_in_range(k: SmfEventKind) -> bool {
    match k {
        SmfEventKind::Midi { channel, message } => channel < 16 && message_in_range(message),
        SmfEventKind::Tempo(t) => t < 0x100_0000,
        _ => true,
    }
}

/// Every event of `track` is within MIDI's value ranges, with 28-bit
/// delta times.
pub open spec fn track_in_range(track: Seq<SmfEvent>) -> bool {
    forall|i: int| 0 <= i < track.len() ==> (#[trigger] track[i]).delta < 0x1000_0000 && kind_in_range(track[i].kind)
}

impl SmfContent {
    /// Every event of every track is within MIDI's value ranges.
    pub open spec fn in_range(&self) -> bool {
        forall|t: int| 0 <= t < self.tracks@.len() ==> track_in_range(#[trigger] self.tracks@[t]@)
    }
}

#[verifier::external_type_specification]
#[verifier::external_body]
pub struct ExTrackEvent<'a>(midly::TrackEvent<'a>);

#[verifier::external_type_specification]
#[verifier::external_body]
pub struct ExMidiMessage(midly::MidiMessage);

#[verifier::external_type_specification]
#[verifier::external_body]
pub struct ExMetaMessage<'a>(midly::MetaMessage<'a>);

#[verifier::external_type_specification]
#[verifier::external_body]
pub struct ExPitchBend(midly::PitchBend);

/// What `midly::Smf::parse` makes of `bytes`: the content, read into this
/// crate's types, or the error's `Display` text.
pub uninterp spec fn smf_parse_outcome(bytes: Seq<u8>) -> Result<SmfContent, Seq<char>>;

/// Parses a Standard MIDI File with `midly::Smf::parse`. The outcome is
/// named [`smf_parse_outcome`]; midly's restricted integer types (`u4`,
/// `u7`, `u14`, `u24`, `u28`) keep every value within MIDI's ranges.
#[verifier::external_body]
pub(crate) fn smf_parse(bytes: &[u8]) -> (r: Result<SmfContent, String>)
    ensures
        match r {
            Ok(c) => smf_parse_outcome(bytes@) == Ok::<SmfContent, Seq<char>>(c) && c.in_range(),
            Err(e) => smf_parse_outcome(bytes@) == Err::<SmfContent, Seq<char>>(e@),
        },
{
    let smf = midly::Smf::parse(bytes).map_err(|e| e.to_string())?;
    let timing = match smf.header.timing {
        midly::Timing::Metrical(n) => SmfTiming::Metrical(n.as_int()),
        midly::Timing::Timecode(..) => SmfTiming::Timecode,
    };
    let tracks = smf.tracks.iter().map(|t| t.iter().map(smf_event_from_midly).collect()).collect();
    Ok(SmfContent { timing, tracks })
}

/// Reads one `midly::TrackEvent` (used by [`smf_parse`] only).
#[verifier::external_body]
fn smf_event_from_midly(e: &midly::TrackEvent) -> (r: SmfEvent) {
    let kind = match e.kind {
        midly::TrackEventKind::Meta(m) => smf_meta_from_midly(m),
        midly::TrackEventKind::Midi { channel, message } => SmfEventKind::Midi { channel: channel.as_int(), message: smf_message_from_midly(message) },
        midly::TrackEventKind::SysEx(_) => SmfEventKind::SysEx,
        midly::TrackEventKind::Escape(_) => SmfEventKind::Escape,
    };
    SmfEvent { delta: e.delta.as_int(), kind }
}

/// Reads one `midly::MetaMessage` (used by [`smf_event_from_midly`] only).
#[verifier::external_body]
fn smf_meta_from_midly(m: midly::MetaMessage) -> (r: SmfEventKind) {
    match m {
        midly::MetaMessage::TrackName(b) => SmfEventKind::TrackName(b.to_vec()),
        midly::MetaMessage::Tempo(t) => SmfEventKind::Tempo(t.as_int()),
        midly::MetaMessage::EndOfTrack => SmfEventKind::EndOfTrack,
        _ => SmfEventKind::OtherMeta,
    }
}

/// Reads one `midly::MidiMessage`, variant for variant (used by
/// [`smf_event_from_midly`] only).
#[verifier::external_body]
fn smf_message_from_midly(m: MidiMessage) -> (r: SmfMessage) {
    match m {
        MidiMessage::NoteOff { key, vel } => SmfMessage::NoteOff { key: key.into(), vel: vel.into() },
        MidiMessage::NoteOn { key, vel } => SmfMessage::NoteOn { key: key.into(), vel: vel.into() },
        MidiMessage::Aftertouch { key, vel } => SmfMessage::Aftertouch { key: key.into(), vel: vel.into() },
        MidiMessage::Controller { controller, value } => SmfMessage::Controller { controller: controller.into(), value: value.into() },
        MidiMessage::ProgramChange { program } => SmfMessage::ProgramChange { program: program.into() },
        MidiMessage::ChannelAftertouch { vel } => SmfMessage::ChannelAftertouch { vel: vel.into() },
        MidiMessage::PitchBend { bend } => smf_bend_from_midly(bend),
    }
}

/// Reads a `midly::PitchBend` (used by [`smf_message_from_midly`] only).
#[verifier::external_body]
fn smf_bend_from_midly(bend: midly::PitchBend) -> (r: SmfMessage) {
    SmfMessage::PitchBend { bend: bend.0.into() }
}

/// The layout of a written file.
#[derive(Clone, Copy, PartialEq, Eq, Structural, Debug)]
pub enum SmfFormat {
    /// Format 0: one track.
    SingleTrack,
    /// Format 1: several tracks played together.
    Parallel,
}

/// What an event written to a track carries. Values wider than MIDI's
/// fields (4-bit channels, 7-bit data, 14-bit bend, 24-bit tempo) are cut
/// to their low bits when written.
#[derive(Debug)]
pub enum SmfWriteKind {
    TrackName(Vec<u8>),
    /// Microseconds per quarter note.
    Tempo(u32),
    EndOfTrack,
    Midi { channel: u8, message: SmfMessage },
}

/// One event to write: delta time in ticks (cut to 28 bits) and its kind.
#[derive(Debug)]
pub struct SmfWriteEvent {
    pub delta: u32,
    pub kind: SmfWriteKind,
}

/// What `midly::write_std` writes into an in-memory buffer for a file of
/// the given format, ticks per quarter note and tracks, or the error's
/// text.
pub uninterp spec fn smf_written(format: SmfFormat, ppq: u16, tracks: Seq<Vec<SmfWriteEvent>>) -> Result<Seq<u8>, Seq<char>>;

/// Writes a Standard MIDI File with `midly::write_std` into a `Vec<u8>`.
/// The outcome is named [`smf_written`]; midly refuses more than 65535
/// tracks and track chunks over 4 GiB, which this contract leaves unsaid.
#[verifier::external_body]
pub(crate) fn smf_write(format: SmfFormat, ppq: u16, tracks: &Vec<Vec<SmfWriteEvent>>) -> (r: Result<Vec<u8>, String>)
    ensures
        match r {
            Ok(b) => smf_written(format, ppq, tracks@) == Ok::<Seq<u8>, Seq<char>>(b@),
            Err(e) => smf_written(format, ppq, tracks@) == Err::<Seq<u8>, Seq<char>>(e@),
        },
{
    let format = match format {
        SmfFormat::SingleTrack => midly::Format::SingleTrack,
        SmfFormat::Parallel => midly::Format::Parallel,
    };
    let header = midly::Header::new(format, midly::Timing::Metrical(midly::num::u15::new(ppq)));
    let converted: Vec<Vec<midly::TrackEvent>> = tracks.iter().map(|t| t.iter().map(smf_event_to_midly).collect()).collect();
    let mut buffer: Vec<u8> = Vec::new();
    midly::write_std(&header, converted.iter(), &mut buffer).map_err(|e| e.to_string())?;
    Ok(buffer)
}

/// Builds one `midly::TrackEvent`, with midly's masking constructors (used
/// by [`smf_write`] only).
#[verifier::external_body]
fn smf_event_to_midly<'a>(e: &'a SmfWriteEvent) -> (r: midly::TrackEvent<'a>) {
    let kind = match &e.kind {
        SmfWriteKind::TrackName(b) => midly::TrackEventKind::Meta(midly::MetaMessage::TrackName(b.as_slice())),
        SmfWriteKind::Tempo(t) => midly::TrackEventKind::Meta(midly::MetaMessage::Tempo(midly::num::u24::new(*t))),
        SmfWriteKind::EndOfTrack => midly::TrackEventKind::Meta(midly::MetaMessage::EndOfTrack),
        SmfWriteKind::Midi { channel, message } => midly::TrackEventKind::Midi { channel: midly::num::u4::new(*channel), message: smf_message_to_midly(*message) },
    };
    midly::TrackEvent { delta: midly::num::u28::new(e.delta), kind }
}

/// Builds one `midly::MidiMessage`, variant for variant, with midly's
/// masking conversions (used by [`smf_event_to_midly`] only).
#[verifier::external_body]
fn smf_message_to_midly(m: SmfMessage) -> (r: MidiMessage) {
    match m {
        SmfMessage::NoteOff { key, vel } => MidiMessage::NoteOff { key: key.into(), vel: vel.into() },
        SmfMessage::NoteOn { key, vel } => MidiMessage::NoteOn { key: key.into(), vel: vel.into() },
        SmfMessage::Aftertouch { key, vel } => MidiMessage::Aftertouch { key: key.into(), vel: vel.into() },
        SmfMessage::Controller { controller, value } => MidiMessage::Controller { controller: controller.into(), value: value.into() },
        SmfMessage::ProgramChange { program } => MidiMessage::ProgramChange { program: program.into() },
        SmfMessage::ChannelAftertouch { vel } => MidiMessage::ChannelAftertouch { vel: vel.into() },
        SmfMessage::PitchBend { bend } => smf_bend_to_midly(bend),
    }
}

/// Builds a `midly::MidiMessage::PitchBend`, masking to 14 bits (used by
/// [`smf_message_to_midly`] only).
#[verifier::external_body]
fn smf_bend_to_midly(bend: u16) -> (r: MidiMessage) {
    MidiMessage::PitchBend { bend: midly::PitchBend(bend.into()) }
}

} // verus!
