//! Verified core of the Droplets fugue system: tick arithmetic, note
//! tracking, the per-instance fugue registry, request routing and the
//! Standard MIDI File import/export pipeline.

pub mod arith;
pub mod hacks;
pub mod notes;
pub mod text;
pub mod channels;
pub mod bridge;
pub mod midi;
pub mod settings;
pub mod api;
pub mod routes;
pub mod webview;
pub mod types;
pub mod server;
pub mod instance_param;
pub mod sort;
pub mod smf;
pub mod import;
pub mod export;
pub mod state;
pub mod sequencer;
pub mod timed_notes;
pub mod roundtrip;
