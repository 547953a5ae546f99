//! Server configuration data.
//!
//! Loading a configuration from disk is I/O and lives outside the verified
//! library; the types themselves, which the rest of the system passes around,
//! are plain data and live here.

use vstd::prelude::*;

verus! {

/// Verbosity of the server's diagnostic log.
#[derive(Clone, Copy, PartialEq, Eq, Structural, Debug)]
pub enum DebugLevel {
    Info,
    Debug,
    Trace,
}

/// The server's configuration as read from its configuration file.
#[derive(Clone, Debug)]
pub struct ConfigFile {
    pub bind_address: String,
    pub bind_port: u16,
    pub debug: DebugLevel,
    pub db_path: String,
    pub enable_email_notifications: bool,
    pub email_sender_name: Option<String>,
    pub email_sender_address: Option<String>,
    pub email_notify_address: Option<String>,
    pub email_smtp_host: Option<String>,
    pub email_smtp_user: Option<String>,
    pub email_smtp_pass: Option<String>,
}

} // verus!
