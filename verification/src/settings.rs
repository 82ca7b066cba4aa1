//! Persistent settings: their in-memory store and the API view of them.
//!
//! Reading and writing the settings file is the caller's part; this module
//! decides what is cached and what a save commits.

use vstd::prelude::*;
use crate::text::{decimal, push_decimal};

verus! {

/// Application settings.
#[derive(Debug)]
pub struct Settings {
    /// Where exported MIDI files are written.
    pub export_path: String,
    /// Free-form text appended to the MCP server's system instructions.
    pub custom_instructions: String,
}

impl Settings {
    /// A copy of these settings.
    pub fn duplicate(&self) -> (r: Settings)
        ensures
            r@ == self@,
    {
        Settings {
            export_path: self.export_path.clone(),
            custom_instructions: self.custom_instructions.clone(),
        }
    }

    /// The settings as text: `(export_path, custom_instructions)`.
    pub open spec fn view(&self) -> (Seq<char>, Seq<char>) {
        (self.export_path@, self.custom_instructions@)
    }
}

/// The settings singleton: empty until loaded from disk.
#[derive(Debug)]
pub struct SettingsStore {
    current: Option<Settings>,
}

impl SettingsStore {
    /// The cached settings, if loaded.
    pub closed spec fn cached(&self) -> Option<(Seq<char>, Seq<char>)> {
        match &self.current {
            Some(s) => Some(s@),
            None => None,
        }
    }

    /// A store with nothing loaded yet.
    pub fn new() -> (r: Self)
        ensures
            r.cached() is None,
    {
        SettingsStore { current: None }
    }

    /// The current settings, or `None` when they still have to be loaded
    /// from disk (then [`Self::install`] the loaded value).
    pub fn get_settings(&self) -> (r: Option<Settings>)
        ensures
            match self.cached() {
                Some(v) => r matches Some(s) && s@ == v,
                None => r is None,
            },
    {
        match &self.current {
            Some(s) => Some(s.duplicate()),
            None => None,
        }
    }

    /// Caches settings loaded from disk and returns them.
    pub fn install(&mut self, loaded: Settings) -> (r: Settings)
        ensures
            r@ == loaded@,
            final(self).cached() == Some(loaded@),
    {
        let copy = loaded.duplicate();
        self.current = Some(loaded);
        copy
    }

    /// Commits `new_settings` once saving them succeeded; a failed save
    /// leaves the store unchanged and returns the save error.
    pub fn update_settings(&mut self, new_settings: Settings, saved: Result<(), String>) -> (r: Result<(), String>)
        ensures
            match saved {
                Ok(()) => r is Ok && final(self).cached() == Some(new_settings@),
                Err(e) => r == Err::<(), String>(e) && final(self).cached() == old(self).cached(),
            },
    {
        match saved {
            Ok(()) => {
                self.current = Some(new_settings);
                Ok(())
            },
            Err(e) => Err(e),
        }
    }
}

/// `current` with its export path replaced.
pub fn set_export_path(current: Settings, path: String) -> (r: Settings)
    ensures
        r@ == (path@, current@.1),
{
    Settings { export_path: path, custom_instructions: current.custom_instructions }
}

/// API response for the settings panel.
#[derive(Debug)]
pub struct SettingsResponse {
    pub export_path: String,
    pub mcp_port: u16,
    pub mcp_url: String,
    pub custom_instructions: String,
}

/// The MCP endpoint URL for a port.
pub open spec fn mcp_url(port: u16) -> Seq<char> {
    "http://localhost:"@ + decimal(port as nat) + "/mcp"@
}

impl SettingsResponse {
    /// The response for `settings`, advertising the MCP server on `mcp_port`.
    pub fn new(settings: &Settings, mcp_port: u16) -> (r: Self)
        ensures
            r.export_path@ == settings.export_path@,
            r.mcp_port == mcp_port,
            r.mcp_url@ == mcp_url(mcp_port),
            r.custom_instructions@ == settings.custom_instructions@,
    {
        let mut url = String::from_str("http://localhost:");
        push_decimal(&mut url, mcp_port as u64);
        url.append("/mcp");
        SettingsResponse {
            export_path: settings.export_path.clone(),
            mcp_port,
            mcp_url: url,
            custom_instructions: settings.custom_instructions.clone(),
        }
    }
}

/// A settings update: `None` leaves a field unchanged.
#[derive(Debug)]
pub struct UpdateSettingsRequest {
    pub export_path: Option<String>,
    pub custom_instructions: Option<String>,
}

} // verus!
