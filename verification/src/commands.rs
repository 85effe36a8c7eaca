//! The orchestrator: the operations that menus, the daemon loop and the
//! desktop shell call.  Each operation transforms the session state and
//! returns what the runtime must do — transfers to run, sentinel files to
//! create and delete — as plain values.

use crate::jobs::{self, check_status, Status};
use crate::models::app::{AppState, Config, Error as AppError};
use vstd::prelude::*;
use vstd::string::*;

pub mod app;

verus! {

/// Errors of the orchestrator.
#[derive(Debug)]
pub enum Error {
    Io(String),
    App(AppError),
    Job(jobs::Error),
}

/// Stores a configuration without touching the connection or the jobs.
pub fn set_config(state: &mut AppState, config: Config)
    ensures
        final(state).config == Some(config),
        final(state).connected == old(state).connected,
        final(state).jobs == old(state).jobs,
        final(state).failed_jobs == old(state).failed_jobs,
        final(state).pool == old(state).pool,
        final(state).app_cache_dir == old(state).app_cache_dir,
        final(state).app_log_dir == old(state).app_log_dir,
        old(state).inv() ==> final(state).inv(),
{
    state.config = Some(config);
}

/// Stores a configuration and records the outcome of the connection test
/// the runtime made with it.  The runtime first closes any prior session,
/// then attempts a fresh session-and-SFTP pair; only a fully open pair is
/// recorded, so the connection is never observable half-open.
pub fn set_state_and_test_connection(state: &mut AppState, config: Config, connect_ok: bool) -> (r:
    Result<(), Error>)
    ensures
        final(state).config == Some(config),
        final(state).connected == connect_ok,
        r is Ok <==> connect_ok,
        final(state).jobs == old(state).jobs,
        final(state).failed_jobs == old(state).failed_jobs,
        final(state).pool == old(state).pool,
        final(state).app_cache_dir == old(state).app_cache_dir,
        final(state).app_log_dir == old(state).app_log_dir,
        old(state).inv() ==> final(state).inv(),
{
    state.connected = false;
    state.config = Some(config);
    if connect_ok {
        state.connected = true;
        Ok(())
    } else {
        Err(
            Error::App(
                AppError::MissingConnection(
                    String::from_str("Could not connect with the provided configuration"),
                ),
            ),
        )
    }
}

/// The status of a job id in this session, with failure taking precedence
/// over running and absence meaning completed.
pub fn check_job_status(state: &AppState, id: &String) -> (s: Status)
    ensures
        s == if state.failed_jobs.spec_contains(id@) {
            Status::Failed
        } else if state.jobs.spec_contains(id@) {
            Status::Running
        } else {
            Status::Completed
        },
{
    check_status(id, &state.jobs, &state.failed_jobs)
}

/// Ends every background job: each worker named in the running registry is
/// ordered to stop, the registry is cleared, and the returned sentinel
/// paths must each be created and deleted to wake blocked watchers.
pub fn terminate_all_background_jobs(state: &mut AppState) -> (triggers: Vec<String>)
    requires
        old(state).inv(),
    ensures
        final(state).inv(),
        final(state).jobs@.len() == 0,
        forall|k: Seq<char>| !final(state).jobs.spec_contains(k),
        final(state).failed_jobs == old(state).failed_jobs,
        final(state).config == old(state).config,
        final(state).connected == old(state).connected,
        triggers@.len() == old(state).jobs@.len(),
        forall|m: int|
            0 <= m < old(state).jobs@.len() ==> #[trigger] triggers@[m]@
                == crate::jobs::backup::spec_sentinel_for_id(old(state).jobs@[m].0),
        final(state).pool.workers@.len() == old(state).pool.workers@.len(),
    {
    crate::jobs::backup::terminate_all(&mut state.jobs, &mut state.pool)
}

/// Tears the session down: the connection is closed, every background job
/// is terminated (the returned sentinel paths must be created and
/// deleted), and the configuration is cleared.
pub fn reset(state: &mut AppState) -> (triggers: Vec<String>)
    requires
        old(state).inv(),
    ensures
        final(state).inv(),
        final(state).config is None,
        !final(state).connected,
        final(state).jobs@.len() == 0,
        forall|k: Seq<char>| !final(state).jobs.spec_contains(k),
        final(state).failed_jobs == old(state).failed_jobs,
        triggers@.len() == old(state).jobs@.len(),
        forall|m: int|
            0 <= m < old(state).jobs@.len() ==> #[trigger] triggers@[m]@
                == crate::jobs::backup::spec_sentinel_for_id(old(state).jobs@[m].0),
{
    state.connected = false;
    let triggers = crate::jobs::backup::terminate_all(&mut state.jobs, &mut state.pool);
    state.config = None;
    triggers
}

/// Prepares a graceful exit: the connection is closed and every
/// background job terminated.  Partial failures in the runtime are logged
/// there and do not block the exit.
pub fn graceful_exit(state: &mut AppState) -> (triggers: Vec<String>)
    requires
        old(state).inv(),
    ensures
        final(state).inv(),
        !final(state).connected,
        final(state).config == old(state).config,
        final(state).jobs@.len() == 0,
        forall|k: Seq<char>| !final(state).jobs.spec_contains(k),
        final(state).failed_jobs == old(state).failed_jobs,
        triggers@.len() == old(state).jobs@.len(),
        forall|m: int|
            0 <= m < old(state).jobs@.len() ==> #[trigger] triggers@[m]@
                == crate::jobs::backup::spec_sentinel_for_id(old(state).jobs@[m].0),
{
    state.connected = false;
    crate::jobs::backup::terminate_all(&mut state.jobs, &mut state.pool)
}

} // verus!
