//! The configuration as exported to the desktop shell: credentials together
//! with the declared backups.

use crate::models::backup::Backup;
use vstd::prelude::*;

verus! {

/// Credentials and declared backups, as one exported value.
pub struct AppConfig {
    pub username: String,
    pub server_address: String,
    pub server_port: u16,
    pub backups: Vec<Backup>,
}

} // verus!
