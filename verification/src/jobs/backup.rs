//! The two job kernels: the continuous watch-and-mirror of one backup and
//! the one-shot transfer, as decision functions on plain values.  The
//! runtime feeds them filesystem events, modification times and call
//! results, and performs the transfers and deletes they decide on.

use crate::jobs::{JobTable, Pool, Worker};
use crate::models::app::Config;
use crate::models::backup::{Backup, Kind as BackupKind, Location};
use crate::paths;
use vstd::prelude::*;
use vstd::string::*;

verus! {

/// A watch job: the backup being mirrored and the configuration it runs
/// under.
pub struct WatchDirectory {
    pub backup: Backup,
    pub config: Config,
}

/// The root a watch job observes: the client path of a directory backup,
/// the parent directory for a file backup.
pub open spec fn spec_watch_root(b: Backup) -> Seq<char> {
    match b.kind {
        BackupKind::Directory => b.client_location.path@,
        BackupKind::File => paths::before_last(b.client_location.path@, '/'),
    }
}

/// The watch root of a backup, as `spec_watch_root` says.
pub fn watch_root(b: &Backup) -> (r: String)
    ensures
        r@ == spec_watch_root(*b),
{
    match b.kind {
        BackupKind::Directory => b.client_location.path.clone(),
        BackupKind::File => paths::parent_of(&b.client_location.path),
    }
}

/// The kind of a filesystem event, as the watcher reports it: a creation,
/// a rename, or anything else.
#[derive(Clone, Copy, PartialEq, Eq, Structural)]
pub enum EventKind {
    Create,
    ModifyName,
    Other,
}

/// A filesystem event: its kind and the first affected path, if any.
pub struct WatchEvent {
    pub kind: EventKind,
    pub path: Option<String>,
}

/// Only creations and renames trigger a transfer; every other event kind
/// is ignored.
pub fn event_triggers_transfer(kind: &EventKind) -> (r: bool)
    ensures
        r == (kind is Create || kind is ModifyName),
{
    match kind {
        EventKind::Create => true,
        EventKind::ModifyName => true,
        EventKind::Other => false,
    }
}

/// A path is hidden when its last segment begins with a dot.
pub open spec fn spec_hidden(path: Seq<char>) -> bool {
    paths::after_last(path, '/').len() > 0 && paths::after_last(path, '/').first() == '.'
}

/// A path is blacklisted when its extension is `sb`: its last segment holds
/// a dot past its first character, and what follows the last dot is `sb`.
pub open spec fn spec_blacklisted(path: Seq<char>) -> bool {
    (exists|j: int|
        1 <= j < paths::after_last(path, '/').len() && paths::after_last(path, '/')[j] == '.')
        && paths::after_last(paths::after_last(path, '/'), '.') == "sb"@
}

/// Where a changed client entity is pushed: the backup's server path, then
/// the client's name, then (only when the client directory is mirrored as
/// itself) the client entity's name, then the changed path relative to the
/// client root.
pub open spec fn spec_transfer_destination(job: WatchDirectory, path: Seq<char>) -> Seq<char> {
    let relative = paths::strip_prefix(path, job.backup.client_location.path@);
    match job.backup.options {
        Some(o) => if o.use_client_directory {
            job.backup.server_location.path@ + "/"@ + job.config.client_name@ + "/"@
                + job.backup.client_location.entity_name@ + relative
        } else {
            job.backup.server_location.path@ + "/"@ + job.config.client_name@ + relative
        },
        None => job.backup.server_location.path@ + "/"@ + job.config.client_name@ + relative,
    }
}

/// A transfer a watch job has decided on: the backup to push (its client
/// side the changed path, its server side the computed destination),
/// whether the entity is a directory, and the entity's modification time,
/// which becomes the job's new high-water mark.
pub struct TransferCommand {
    pub backup: Backup,
    pub is_directory: bool,
    pub modified: i64,
}

/// The transfer decision of a watch job for one changed path.  Hidden
/// entities, blacklisted extensions, and paths whose watch root has not
/// changed since the last transfer are ignored; anything else is pushed to
/// `spec_transfer_destination`.
pub fn exec_backup_command(
    path: &String,
    is_directory: bool,
    entity_modified: i64,
    root_modified: i64,
    last_modified: i64,
    job: &WatchDirectory,
) -> (r: Option<TransferCommand>)
    ensures
        (r is Some) == (!spec_hidden(path@) && !spec_blacklisted(path@) && root_modified
            > last_modified),
        r matches Some(t) ==> {
            &&& t.backup.kind == job.backup.kind
            &&& t.backup.client_location.path@ == path@
            &&& t.backup.client_location.entity_name@ == job.backup.client_location.entity_name@
            &&& t.backup.server_location.path@ == spec_transfer_destination(*job, path@)
            &&& t.backup.server_location.entity_name@ == job.backup.server_location.entity_name@
            &&& t.backup.latest_run is None
            &&& t.backup.options == job.backup.options
            &&& t.is_directory == is_directory
            &&& t.modified == entity_modified
        },
{
    let segment = paths::last_segment(path);
    if paths::starts_with_char(&segment, '.') {
        return None;
    }
    let segment_len: usize = segment.as_str().unicode_len();
    let has_extension: bool = if segment_len >= 1 {
        paths::contains_char_from(&segment, '.', 1)
    } else {
        false
    };
    if has_extension {
        let extension = paths::after_last_exec(&segment, '.');
        let blacklisted = String::from_str("sb");
        if extension.eq(&blacklisted) {
            return None;
        }
    }
    if root_modified <= last_modified {
        return None;
    }
    let relative = paths::strip_prefix_exec(path, &job.backup.client_location.path);
    let mut destination = job.backup.server_location.path.clone();
    destination.append("/");
    destination.append(job.config.client_name.as_str());
    let use_client_directory: bool = match &job.backup.options {
        Some(o) => o.use_client_directory,
        None => false,
    };
    if use_client_directory {
        destination.append("/");
        destination.append(job.backup.client_location.entity_name.as_str());
    }
    destination.append(relative.as_str());
    proof {
        assert(destination@ =~= spec_transfer_destination(*job, path@));
    }
    Some(
        TransferCommand {
            backup: Backup {
                kind: job.backup.kind,
                client_location: Location {
                    path: path.clone(),
                    entity_name: job.backup.client_location.entity_name.clone(),
                },
                server_location: Location {
                    path: destination,
                    entity_name: job.backup.server_location.entity_name.clone(),
                },
                latest_run: None,
                options: job.backup.options,
            },
            is_directory,
            modified: entity_modified,
        },
    )
}

/// Where a deletion observed on the client is mirrored on the server: the
/// escaped server path, then the client's name, then the client entity's
/// name, then the escaped deleted path relative to the escaped client
/// root.  Spaces are escaped with a backslash for the remote shell.
pub open spec fn spec_delete_target(job: WatchDirectory, path: Seq<char>) -> Seq<char> {
    paths::escape_spaces(job.backup.server_location.path@) + "/"@ + job.config.client_name@ + "/"@
        + job.backup.client_location.entity_name@ + paths::strip_prefix(
        paths::escape_spaces(path),
        paths::escape_spaces(job.backup.client_location.path@),
    )
}

/// The deletion inference of a watch job.  A not-found error for a path is
/// taken as a deletion and answered with a backup whose server side is
/// `spec_delete_target`; any other error, and a path that coincides with
/// the backup's server root, are ignored.  The returned server path is
/// never the backup's server root.
pub fn handle_notify_error(is_not_found: bool, event_path: &String, job: &WatchDirectory) -> (r:
    Option<Backup>)
    ensures
        (r is Some) == (is_not_found && paths::escape_spaces(event_path@) != paths::escape_spaces(
            job.backup.server_location.path@,
        )),
        r matches Some(b) ==> {
            &&& b.kind == job.backup.kind
            &&& b.client_location.path@ == paths::escape_spaces(event_path@)
            &&& b.client_location.entity_name@ == paths::escape_spaces(
                paths::after_last(event_path@, '/'),
            )
            &&& b.server_location.entity_name@ == paths::escape_spaces(
                paths::after_last(event_path@, '/'),
            )
            &&& b.server_location.path@ == spec_delete_target(*job, event_path@)
            &&& b.server_location.path@ != paths::escape_spaces(job.backup.server_location.path@)
            &&& b.latest_run is None
            &&& b.options == job.backup.options
        },
{
    if !is_not_found {
        return None;
    }
    let target = paths::escape_spaces_exec(event_path);
    let server = paths::escape_spaces_exec(&job.backup.server_location.path);
    if target.eq(&server) {
        return None;
    }
    let client = paths::escape_spaces_exec(&job.backup.client_location.path);
    let relative = paths::strip_prefix_exec(&target, &client);
    let segment = paths::last_segment(event_path);
    let file_name = paths::escape_spaces_exec(&segment);
    let mut delete_path = server.clone();
    delete_path.append("/");
    delete_path.append(job.config.client_name.as_str());
    delete_path.append("/");
    delete_path.append(job.backup.client_location.entity_name.as_str());
    delete_path.append(relative.as_str());
    proof {
        reveal_strlit("/");
        assert(delete_path@ =~= spec_delete_target(*job, event_path@));
        assert("/"@.len() == 1);
        assert(delete_path@.len() > paths::escape_spaces(
            job.backup.server_location.path@,
        ).len());
    }
    Some(
        Backup {
            kind: job.backup.kind,
            client_location: Location { entity_name: file_name.clone(), path: target },
            server_location: Location { entity_name: file_name, path: delete_path },
            latest_run: None,
            options: job.backup.options,
        },
    )
}

/// A one-shot transfer the orchestrator has scheduled: the job id, the
/// worker dispatched for it, the per-client folder the runtime must first
/// assert on the server, and the backup to push — its server path already
/// carrying the client's name as an extra folder.
pub struct PushJob {
    pub job_id: String,
    pub worker_id: usize,
    pub folder_to_assert: String,
    pub backup: Backup,
}

/// Schedules the one-shot transfer of a backup.  A configuration and an
/// open connection are required; the client's name is prepended as a
/// folder on the backup's server path, any prior failure record of the
/// job id is dropped, and a worker is dispatched under that id.  The
/// runtime then asserts the per-client folder over SFTP, runs the push,
/// and reports the outcome through `finish_backup`.
pub fn entity_to_server(state: &mut crate::models::app::AppState, backup: &Backup) -> (r: Result<
    PushJob,
    crate::jobs::Error,
>)
    requires
        old(state).inv(),
        old(state).pool.workers@.len() < usize::MAX,
    ensures
        final(state).inv(),
        (r is Err) == (old(state).config is None || !old(state).connected),
        old(state).config is None ==> (r matches Err(
            crate::jobs::Error::App(crate::models::app::Error::Config(_)),
        ) && *final(state) == *old(state)),
        (old(state).config is Some && !old(state).connected) ==> (r matches Err(
            crate::jobs::Error::App(crate::models::app::Error::MissingConnection(_)),
        ) && *final(state) == *old(state)),
        r matches Ok(p) ==> {
            let cn = old(state).config->Some_0.client_name@;
            &&& p.folder_to_assert@ == "./"@ + backup.server_location.entity_name@ + "/"@ + cn
            &&& p.backup.kind == backup.kind
            &&& p.backup.client_location == backup.client_location
            &&& p.backup.server_location.entity_name@ == backup.server_location.entity_name@
            &&& p.backup.server_location.path@ == backup.server_location.path@ + "/"@ + cn
            &&& p.backup.latest_run == backup.latest_run
            &&& p.backup.options == backup.options
            &&& p.job_id@ == crate::jobs::spec_job_id(p.backup, crate::jobs::Kind::Backup)
            &&& final(state).jobs.spec_contains(p.job_id@)
            &&& final(state).jobs.spec_get(p.job_id@) == p.worker_id
            &&& forall|k: Seq<char>|
                #[trigger] final(state).jobs.spec_contains(k) <==> old(state).jobs.spec_contains(
                    k,
                ) || k == p.job_id@
            &&& !final(state).failed_jobs.spec_contains(p.job_id@)
            &&& forall|k: Seq<char>|
                k != p.job_id@ ==> (#[trigger] final(state).failed_jobs.spec_contains(k) <==> old(
                    state,
                ).failed_jobs.spec_contains(k))
            &&& final(state).pool.has_worker(p.worker_id)
            &&& final(state).pool.workers@.len() == old(state).pool.workers@.len() + (
            if crate::jobs::count_available(old(state).pool.workers@) > 0 {
                0int
            } else {
                1int
            })
            &&& final(state).config == old(state).config
            &&& final(state).connected == old(state).connected
        },
{
    let config = match &state.config {
        Some(c) => c.clone(),
        None => {
            return Err(
                crate::jobs::Error::App(
                    crate::models::app::Error::Config(String::from_str("No config")),
                ),
            );
        },
    };
    if !state.connected {
        return Err(
            crate::jobs::Error::App(
                crate::models::app::Error::MissingConnection(String::from_str("No connection")),
            ),
        );
    }
    let mut folder_to_assert = String::from_str("./");
    folder_to_assert.append(backup.server_location.entity_name.as_str());
    folder_to_assert.append("/");
    folder_to_assert.append(config.client_name.as_str());
    let mut server_path = backup.server_location.path.clone();
    server_path.append("/");
    server_path.append(config.client_name.as_str());
    let moved_backup = Backup {
        kind: backup.kind,
        client_location: backup.client_location.clone(),
        server_location: Location {
            entity_name: backup.server_location.entity_name.clone(),
            path: server_path,
        },
        latest_run: backup.latest_run,
        options: backup.options,
    };
    let job_id = crate::jobs::id_from_backup(&moved_backup, &crate::jobs::Kind::Backup);
    let _stale = state.failed_jobs.remove(&job_id);
    let wid = state.pool.execute();
    state.jobs.insert(job_id.clone(), wid);
    proof {
        assert forall|k: Seq<char>|
            !(#[trigger] state.jobs.spec_contains(k) && state.failed_jobs.spec_contains(k)) by {
            if k != job_id@ {
                assert(old(state).jobs.spec_contains(k) == state.jobs.spec_contains(k));
                assert(old(state).failed_jobs.spec_contains(k) == state.failed_jobs.spec_contains(
                    k,
                ));
            } else {
                assert(!state.failed_jobs.spec_contains(k));
            }
        }
    }
    Ok(PushJob { job_id, worker_id: wid, folder_to_assert, backup: moved_backup })
}

/// The end of a one-shot transfer: the job id leaves the running registry
/// and its worker becomes available again; a failed push moves the id,
/// with its worker, into the failed registry instead.  An id that is not
/// running is a no-op.
pub fn finish_backup(state: &mut crate::models::app::AppState, job_id: &String, success: bool) -> (
    found: bool)
    requires
        old(state).inv(),
    ensures
        final(state).inv(),
        found == old(state).jobs.spec_contains(job_id@),
        !found ==> *final(state) == *old(state),
        found ==> {
            &&& !final(state).jobs.spec_contains(job_id@)
            &&& forall|k: Seq<char>|
                k != job_id@ ==> (#[trigger] final(state).jobs.spec_contains(k) <==> old(
                    state,
                ).jobs.spec_contains(k))
            &&& success ==> final(state).failed_jobs == old(state).failed_jobs
            &&& !success ==> {
                &&& final(state).failed_jobs.spec_contains(job_id@)
                &&& final(state).failed_jobs.spec_get(job_id@) == old(state).jobs.spec_get(
                    job_id@,
                )
                &&& forall|k: Seq<char>|
                    k != job_id@ ==> (#[trigger] final(state).failed_jobs.spec_contains(k) <==> old(
                        state,
                    ).failed_jobs.spec_contains(k))
            }
            &&& final(state).pool.workers@.len() == old(state).pool.workers@.len()
            &&& final(state).config == old(state).config
            &&& final(state).connected == old(state).connected
        },
{
    let worker_id: usize = match state.jobs.get(job_id) {
        Some(w) => w,
        None => {
            return false;
        },
    };
    let _removed = state.jobs.remove(job_id);
    state.pool.release_worker(worker_id);
    if !success {
        state.failed_jobs.insert(job_id.clone(), worker_id);
    }
    proof {
        assert forall|k: Seq<char>|
            !(#[trigger] state.jobs.spec_contains(k) && state.failed_jobs.spec_contains(k)) by {
            if k == job_id@ {
                assert(!state.jobs.spec_contains(k));
            } else {
                assert(state.jobs.spec_contains(k) == old(state).jobs.spec_contains(k));
                assert(state.failed_jobs.spec_contains(k) == old(
                    state,
                ).failed_jobs.spec_contains(k));
            }
        }
    }
    true
}

/// The sentinel path recovered from a job id: everything before the first
/// underscore is the client path, and the sentinel lives directly under it.
pub open spec fn spec_sentinel_for_id(id: Seq<char>) -> Seq<char> {
    paths::before_first(id, '_') + "/.bmu_event_trigger"@
}

/// Terminates every running job: each worker named in the registry is
/// ordered to stop and becomes available, the registry is cleared, and the
/// returned sentinel paths — one per job, derived from its id — must each
/// be created and deleted so that blocked watchers wake.
pub fn terminate_all(jobs: &mut JobTable, pool: &mut Pool) -> (triggers:
    Vec<String>)
    requires
        old(jobs).wf(),
        old(pool).wf(),
    ensures
        final(jobs).wf(),
        final(jobs)@.len() == 0,
        forall|k: Seq<char>| !final(jobs).spec_contains(k),
        final(pool).wf(),
        final(pool).workers@.len() == old(pool).workers@.len(),
        triggers@.len() == old(jobs)@.len(),
        forall|m: int|
            0 <= m < old(jobs)@.len() ==> #[trigger] triggers@[m]@ == spec_sentinel_for_id(
                old(jobs)@[m].0,
            ),
        forall|w: int|
            0 <= w < old(pool).workers@.len() ==> #[trigger] final(pool).workers@[w] == (Worker {
                is_available: old(pool).workers@[w].is_available || (exists|j: int|
                    0 <= j < old(jobs)@.len() && old(jobs)@[j].1 == old(pool).workers@[w].id),
                ..old(pool).workers@[w]
            }),
{
    let n: usize = jobs.len();
    let mut triggers: Vec<String> = Vec::new();
    let mut i: usize = 0;
    while i < n
        invariant
            *jobs == *old(jobs),
            old(jobs).wf(),
            pool.wf(),
            n == old(jobs)@.len(),
            0 <= i <= n,
            pool.workers@.len() == old(pool).workers@.len(),
            triggers@.len() == i as int,
            forall|m: int|
                0 <= m < i as int ==> #[trigger] triggers@[m]@ == spec_sentinel_for_id(
                    old(jobs)@[m].0,
                ),
            forall|w: int|
                0 <= w < old(pool).workers@.len() ==> #[trigger] pool.workers@[w] == (Worker {
                    is_available: old(pool).workers@[w].is_available || (exists|j: int|
                        0 <= j < i as int && old(jobs)@[j].1 == old(pool).workers@[w].id),
                    ..old(pool).workers@[w]
                }),
        decreases n - i,
    {
        let ghost mid = pool.workers@;
        let entry: (String, usize) = jobs.entry_at(i);
        let client_folder = paths::before_first_exec(&entry.0, '_');
        let trigger = paths::concat2(client_folder.as_str(), "/.bmu_event_trigger");
        let _result = pool.terminate_job(entry.1);
        proof {
            assert forall|w: int| 0 <= w < old(pool).workers@.len() implies #[trigger] pool.workers@[w]
                == (Worker {
                is_available: old(pool).workers@[w].is_available || (exists|j: int|
                    0 <= j < i + 1 && old(jobs)@[j].1 == old(pool).workers@[w].id),
                ..old(pool).workers@[w]
            }) by {
                assert(pool.workers@[w] == (Worker {
                    is_available: mid[w].is_available || mid[w].id == entry.1,
                    ..mid[w]
                }));
                assert(mid[w] == (Worker {
                    is_available: old(pool).workers@[w].is_available || (exists|j: int|
                        0 <= j < i as int && old(jobs)@[j].1 == old(pool).workers@[w].id),
                    ..old(pool).workers@[w]
                }));
                if pool.workers@[w].is_available {
                    if !old(pool).workers@[w].is_available {
                        if mid[w].is_available {
                            let j = choose|j: int|
                                0 <= j < i as int && old(jobs)@[j].1 == old(pool).workers@[w].id;
                            assert(0 <= j < i + 1 && old(jobs)@[j].1 == old(
                                pool,
                            ).workers@[w].id);
                        } else {
                            assert(old(jobs)@[i as int].1 == old(pool).workers@[w].id);
                        }
                    }
                } else {
                    assert(!mid[w].is_available && mid[w].id != entry.1);
                    if exists|j: int|
                        0 <= j < i + 1 && old(jobs)@[j].1 == old(pool).workers@[w].id {
                        let j = choose|j: int|
                            0 <= j < i + 1 && old(jobs)@[j].1 == old(pool).workers@[w].id;
                        if j < i as int {
                            assert(mid[w].is_available);
                        } else {
                            assert(mid[w].id == old(pool).workers@[w].id);
                            assert(mid[w].id == entry.1);
                        }
                    }
                }
            }
        }
        triggers.push(trigger);
        i = i + 1;
    }
    jobs.clear();
    triggers
}

/// The transient file whose creation and deletion wakes a blocked watcher
/// so that a pending terminate order is observed.
pub open spec fn spec_sentinel_path(b: Backup) -> Seq<char> {
    spec_watch_root(b) + "/.bmu_event_trigger"@
}

/// The sentinel path of a backup, as `spec_sentinel_path` says.
pub fn sentinel_path(b: &Backup) -> (r: String)
    ensures
        r@ == spec_sentinel_path(*b),
{
    let root = watch_root(b);
    paths::concat2(root.as_str(), "/.bmu_event_trigger")
}

} // verus!
