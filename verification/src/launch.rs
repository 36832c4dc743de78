//! The choices made before connecting: who logs in, and with which password
//! and options, from the command line or from the dialog.
use vstd::prelude::*;

use crate::config::Preferences;
use crate::rdp_parser::{string_view, text_of, RdpFile};
use crate::ui::config_dialog::ConnectionConfig;
use vstd::string::*;

verus! {

/// The user name: the one given on the command line, else the file's.
pub fn resolve_username(cli_username: Option<String>, rdp_file: &RdpFile) -> (r: Option<String>)
    ensures
        match cli_username {
            Some(u) => r == Some(u),
            None => string_view(r) == text_of(rdp_file@, "username"@),
        },
{
    match cli_username {
        Some(u) => Some(u),
        None => match rdp_file.username() {
            Some(u) => Some(String::from_str(u)),
            None => None,
        },
    }
}

/// What a session starts with.
#[derive(Debug, Clone)]
pub struct SessionChoices {
    pub password: String,
    pub resolution: String,
    pub clipboard: bool,
    pub map_drives: bool,
    pub burn_after_reading: bool,
}

impl SessionChoices {
    /// A password given on the command line: the stored preferences apply,
    /// and the file is kept.
    pub fn from_cli(password: String, preferences: &Preferences) -> (r: Self)
        ensures
            r.password == password,
            r.resolution@ == preferences.resolution@,
            r.clipboard == preferences.clipboard,
            r.map_drives == preferences.map_drives,
            !r.burn_after_reading,
    {
        SessionChoices {
            password,
            resolution: preferences.resolution.clone(),
            clipboard: preferences.clipboard,
            map_drives: preferences.map_drives,
            burn_after_reading: false,
        }
    }

    /// The answers of the dialog, with the stored resolution.
    pub fn from_dialog(answers: ConnectionConfig, preferences: &Preferences) -> (r: Self)
        ensures
            r.password == answers.password,
            r.resolution@ == preferences.resolution@,
            r.clipboard == answers.clipboard,
            r.map_drives == answers.map_drives,
            r.burn_after_reading == answers.burn_after_reading,
    {
        SessionChoices {
            password: answers.password,
            resolution: preferences.resolution.clone(),
            clipboard: answers.clipboard,
            map_drives: answers.map_drives,
            burn_after_reading: answers.burn_after_reading,
        }
    }
}

impl Preferences {
    /// Remembers the options the user chose in the dialog.
    pub fn remember(&mut self, answers: &ConnectionConfig)
        ensures
            final(self).resolution == old(self).resolution,
            final(self).clipboard == answers.clipboard,
            final(self).map_drives == answers.map_drives,
            final(self).burn_after_reading == answers.burn_after_reading,
    {
        self.clipboard = answers.clipboard;
        self.map_drives = answers.map_drives;
        self.burn_after_reading = answers.burn_after_reading;
    }
}

} // verus!
