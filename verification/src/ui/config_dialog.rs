//! What the configuration dialog decides: which answers start a connection,
//! and with which options.
use vstd::prelude::*;

verus! {

/// Configuration options for RDP connection
#[derive(Debug, Clone)]
pub struct ConnectionConfig {
    pub clipboard: bool,
    pub map_drives: bool,
    pub password: String,
    pub store_password: bool,
    pub burn_after_reading: bool,
}

impl Default for ConnectionConfig {
    fn default() -> (r: Self)
        ensures
            !r.clipboard,
            !r.map_drives,
            r.password@ == Seq::<char>::empty(),
            !r.store_password,
            !r.burn_after_reading,
    {
        ConnectionConfig {
            clipboard: false,
            map_drives: false,
            password: String::new(),
            store_password: false,
            burn_after_reading: false,
        }
    }
}

/// The answer of the dialog's first button, "Connect" (`NSAlertFirstButtonReturn`).
pub const ALERT_FIRST_BUTTON: isize = 1000;

impl ConnectionConfig {
    /// The options used where no dialog can be shown: defaults, with the
    /// password that was typed.
    pub fn with_password(password: String) -> (r: Self)
        ensures
            !r.clipboard,
            !r.map_drives,
            r.password == password,
            !r.store_password,
            !r.burn_after_reading,
    {
        ConnectionConfig { password, ..Default::default() }
    }
}

/// What the dialog's answer means: anything but "Connect" cancels, and so
/// does an empty password; otherwise the options are those the user left
/// checked.
pub fn dialog_result(
    response: isize,
    password: String,
    clipboard: bool,
    map_drives: bool,
    store_password: bool,
    burn_after_reading: bool,
) -> (r: Option<ConnectionConfig>)
    ensures
        response != ALERT_FIRST_BUTTON || password@.len() == 0 ==> r is None,
        response == ALERT_FIRST_BUTTON && password@.len() > 0 ==> (r matches Some(c) && c.password
            == password && c.clipboard == clipboard && c.map_drives == map_drives
            && c.store_password == store_password && c.burn_after_reading == burn_after_reading),
{
    if response != ALERT_FIRST_BUTTON {
        return None;
    }
    if password.as_str().is_empty() {
        return None;
    }
    Some(ConnectionConfig { clipboard, map_drives, password, store_password, burn_after_reading })
}

} // verus!
