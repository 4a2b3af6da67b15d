//! The parts of the game-client that compute rather than draw.

pub mod blocks;
pub mod voxel;
pub mod input;

use vstd::prelude::*;
use crate::router::event::Event;
use crate::router::lens::MoveEvent;

verus! {

/// The event of a tick being computed.
pub struct TickEvent {}

impl Event for TickEvent {
    open spec fn move_kind(&self) -> Option<MoveEvent> {
        None
    }

    open spec fn passive(&self) -> bool {
        false
    }

    fn is_passive(&self) -> (r: bool)
        ensures
            !r,
    {
        false
    }

    fn as_move_event(&self) -> (r: Option<MoveEvent>) {
        None
    }
}

} // verus!

verus! {

/// The parsed command-line options of the client.
pub struct CmdOptions {
    pub path: String,
    pub width: u32,
    pub height: u32,
    pub gl_debug: bool,
    pub gl_multisamples: u32,
}

/// Why the settings could not be loaded.
pub enum SettingsError {
    LoadError(String),
}

/// The engine's settings: a configuration table.
pub struct Settings {
    pub table: toml::value::Table,
}

impl Settings {
    /// Settings holding an empty table.
    pub fn init() -> (r: Settings)
        ensures
            forall|k: Seq<char>| #[trigger] crate::config::toml_table_get(r.table, k) is None,
    {
        Settings { table: crate::config::table_new() }
    }

    /// Takes the settings from a configuration text: on success its table
    /// replaces the settings; on failure they stay as they were.
    pub fn load_from_str(&mut self, text: &str) -> (r: Result<(), SettingsError>)
        ensures
            match crate::config::table_result(text@) {
                Ok(t) => r is Ok && final(self).table == t,
                Err(m) => (r matches Err(SettingsError::LoadError(e)) && e@ == m) && final(self).table == old(self).table,
            },
    {
        match crate::config::table_from_str(text) {
            Ok(t) => {
                self.table = t;
                Ok(())
            },
            Err(m) => Err(SettingsError::LoadError(m)),
        }
    }
}

} // verus!
