//! The transport surface: errors of the SSH/SFTP layer and the exact
//! command lines the transport runs.

use crate::models::app;
use vstd::prelude::*;

pub mod commands;

verus! {

/// Errors of the transport layer: an application error, a failed session, a
/// failed SFTP call, or a failed remote command.
#[derive(Debug)]
pub enum Error {
    App(app::Error),
    Connection(String),
    Sftp(String),
    Command(String),
}

} // verus!
