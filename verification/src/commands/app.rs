//! Background-backup orchestration: scheduling a watch job for one backup,
//! terminating one, starting them for a whole catalog, and switching
//! background mode on or off.

use crate::jobs::{count_available, id_from_backup, JobTable, Kind, Worker};
use crate::jobs::backup::{sentinel_path, spec_sentinel_path};
use crate::models::app::{AppState, Error as AppError};
use crate::models::backup::Backup;
use super::Error;
use vstd::prelude::*;
use vstd::string::*;

verus! {

/// The id a backup's watch job runs under.
pub open spec fn spec_on_change_id(b: Backup) -> Seq<char> {
    crate::jobs::spec_job_id(b, Kind::BackupOnChange)
}

/// How many of the given backups have no running watch job.
pub open spec fn spec_fresh_count(t: JobTable, bs: Seq<Backup>) -> nat
    decreases bs.len(),
{
    if bs.len() == 0 {
        0
    } else {
        spec_fresh_count(t, bs.drop_last()) + if t.spec_contains(spec_on_change_id(bs.last())) {
            0nat
        } else {
            1nat
        }
    }
}

/// A fresh id among the given backups: the watch-job id of one of them,
/// not running yet.
pub open spec fn spec_is_fresh_id(t: JobTable, bs: Seq<Backup>, k: Seq<char>) -> bool {
    (exists|i: int| 0 <= i < bs.len() && k == spec_on_change_id(bs[i])) && !t.spec_contains(k)
}

proof fn lemma_fresh_count_le(t: JobTable, bs: Seq<Backup>)
    ensures
        spec_fresh_count(t, bs) <= bs.len(),
    decreases bs.len(),
{
    if bs.len() > 0 {
        lemma_fresh_count_le(t, bs.drop_last());
    }
}

proof fn lemma_fresh_count_extend(t: JobTable, bs: Seq<Backup>, i: int)
    requires
        0 <= i < bs.len(),
    ensures
        spec_fresh_count(t, bs.subrange(0, i + 1)) == spec_fresh_count(t, bs.subrange(0, i)) + (
        if t.spec_contains(spec_on_change_id(bs[i])) {
            0int
        } else {
            1int
        }),
{
    assert(bs.subrange(0, i + 1).drop_last() =~= bs.subrange(0, i));
    assert(bs.subrange(0, i + 1).last() == bs[i]);
}

/// Elastic capacity: for a set of backups none of which has a running
/// watch job, the fresh count is the full count, so starting them grows
/// the pool by exactly the number of backups less the workers available.
pub proof fn lemma_elastic_capacity(t: JobTable, bs: Seq<Backup>)
    requires
        forall|i: int| 0 <= i < bs.len() ==> !t.spec_contains(#[trigger] spec_on_change_id(bs[i])),
    ensures
        spec_fresh_count(t, bs) == bs.len(),
    decreases bs.len(),
{
    if bs.len() > 0 {
        lemma_elastic_capacity(t, bs.drop_last());
        assert(!t.spec_contains(spec_on_change_id(bs[bs.len() - 1])));
    }
}

/// Idempotence of starting: when every given backup's watch job already
/// runs — as it does after `start_background_backups` returns — nothing is
/// fresh, so a second start with the same input leaves the running
/// registry unchanged.
pub proof fn lemma_start_idempotent(t: JobTable, bs: Seq<Backup>)
    requires
        forall|i: int| 0 <= i < bs.len() ==> t.spec_contains(#[trigger] spec_on_change_id(bs[i])),
    ensures
        spec_fresh_count(t, bs) == 0,
    decreases bs.len(),
{
    if bs.len() > 0 {
        lemma_start_idempotent(t, bs.drop_last());
        assert(t.spec_contains(spec_on_change_id(bs[bs.len() - 1])));
    }
}

/// One watch job scheduled by `start_background_backups`: which backup,
/// under which id, on which worker.
pub struct StartedJob {
    pub index: usize,
    pub job_id: String,
    pub worker_id: usize,
}

/// Starts a watch job for every given backup that has none running.
/// Refused when background backups are disabled.  The pool first grows by
/// the number of fresh backups less the available workers (when positive),
/// stopped workers are started, and one worker is dispatched per fresh
/// backup; afterwards every given backup's watch job is running.  With
/// nothing fresh the state is left untouched.  Without a configuration the
/// growth happens and then the start is refused, as no job can be built.
pub fn start_background_backups(state: &mut AppState, backups: &Vec<Backup>) -> (r: Result<
    Vec<StartedJob>,
    Error,
>)
    requires
        old(state).inv(),
        old(state).pool.workers@.len() + backups@.len() < usize::MAX,
    ensures
        final(state).inv(),
        (r is Err) == ((old(state).config matches Some(c) && !c.allow_background_backup) || (old(
            state,
        ).config is None && spec_fresh_count(old(state).jobs, backups@) > 0)),
        r is Err ==> (r matches Err(Error::App(AppError::Config(_))) && final(state).jobs == old(
            state,
        ).jobs && final(state).failed_jobs == old(state).failed_jobs && final(state).config == old(
            state,
        ).config && final(state).connected == old(state).connected),
        (old(state).config matches Some(c) && !c.allow_background_backup) ==> *final(state) == *old(
            state,
        ),
        spec_fresh_count(old(state).jobs, backups@) == 0 && !(old(state).config matches Some(c)
            && !c.allow_background_backup) ==> (*final(state) == *old(state) && (r matches Ok(list)
            && list@.len() == 0)),
        r matches Ok(list) ==> {
            &&& list@.len() == spec_fresh_count(old(state).jobs, backups@)
            &&& forall|k: Seq<char>|
                #[trigger] final(state).jobs.spec_contains(k) <==> old(state).jobs.spec_contains(
                    k,
                ) || (exists|i: int|
                    0 <= i < backups@.len() && k == spec_on_change_id(backups@[i]))
            &&& forall|k: Seq<char>|
                #[trigger] final(state).failed_jobs.spec_contains(k) <==> (old(
                    state,
                ).failed_jobs.spec_contains(k) && !spec_is_fresh_id(old(state).jobs, backups@, k))
            &&& final(state).pool.workers@.len() == old(state).pool.workers@.len() + (
            if spec_fresh_count(old(state).jobs, backups@) > count_available(
                old(state).pool.workers@,
            ) {
                spec_fresh_count(old(state).jobs, backups@) - count_available(
                    old(state).pool.workers@,
                )
            } else {
                0int
            })
            &&& final(state).config == old(state).config
            &&& final(state).connected == old(state).connected
            &&& forall|m: int|
                0 <= m < list@.len() ==> {
                    &&& (#[trigger] list@[m]).index < backups@.len()
                    &&& list@[m].job_id@ == spec_on_change_id(backups@[list@[m].index as int])
                    &&& !old(state).jobs.spec_contains(list@[m].job_id@)
                    &&& final(state).jobs.spec_contains(list@[m].job_id@)
                }
        },
{
    let disallowed: bool = match &state.config {
        Some(c) => !c.allow_background_backup,
        None => false,
    };
    if disallowed {
        return Err(
            Error::App(AppError::Config(String::from_str("Background backup is disabled"))),
        );
    }
    let n: usize = backups.len();
    let mut fresh: Vec<usize> = Vec::new();
    let mut i: usize = 0;
    while i < n
        invariant
            *state == *old(state),
            old(state).inv(),
            n == backups@.len(),
            0 <= i <= n,
            fresh@.len() == spec_fresh_count(old(state).jobs, backups@.subrange(0, i as int)),
            forall|t: int|
                0 <= t < fresh@.len() ==> 0 <= #[trigger] fresh@[t] < i && !old(
                    state,
                ).jobs.spec_contains(spec_on_change_id(backups@[fresh@[t] as int])),
            forall|j: int|
                0 <= j < i && !old(state).jobs.spec_contains(
                    #[trigger] spec_on_change_id(backups@[j]),
                ) ==> exists|t: int| 0 <= t < fresh@.len() && fresh@[t] == j,
        decreases n - i,
    {
        let id = id_from_backup(&backups[i], &Kind::BackupOnChange);
        let ghost fresh_pre = fresh@;
        if !state.jobs.contains(&id) {
            fresh.push(i);
        }
        proof {
            lemma_fresh_count_extend(old(state).jobs, backups@, i as int);
            assert forall|j: int|
                0 <= j < i + 1 && !old(state).jobs.spec_contains(
                    #[trigger] spec_on_change_id(backups@[j]),
                ) implies exists|t: int| 0 <= t < fresh@.len() && fresh@[t] == j by {
                if j < i as int {
                    let t = choose|t: int| 0 <= t < fresh_pre.len() && fresh_pre[t] == j;
                    assert(fresh@[t] == j);
                } else {
                    assert(fresh@[fresh@.len() - 1] == j);
                }
            }
        }
        i = i + 1;
    }
    proof {
        assert(backups@.subrange(0, n as int) =~= backups@);
        lemma_fresh_count_le(old(state).jobs, backups@);
    }
    if fresh.len() == 0 {
        return Ok(Vec::new());
    }
    let available: usize = state.pool.available_workers();
    if fresh.len() > available {
        state.pool.create_workers(fresh.len() - available);
    }
    state.pool.start_all_stopped_workers();
    let config_present: bool = match &state.config {
        Some(_) => true,
        None => false,
    };
    if !config_present {
        return Err(Error::App(AppError::Config(String::from_str("No config detected"))));
    }
    let ghost pool_grown = state.pool.workers@.len();
    let ghost fresh_total = fresh@.len() as int;
    let mut started: Vec<StartedJob> = Vec::new();
    let mut m: usize = 0;
    while m < fresh.len()
        invariant
            old(state).inv(),
            state.jobs.wf(),
            state.failed_jobs.wf(),
            state.pool.wf(),
            n == backups@.len(),
            fresh_total == fresh@.len() as int,
            fresh@.len() <= n,
            0 <= m <= fresh@.len(),
            forall|t: int|
                0 <= t < fresh@.len() ==> 0 <= #[trigger] fresh@[t] < n && !old(
                    state,
                ).jobs.spec_contains(spec_on_change_id(backups@[fresh@[t] as int])),
            state.pool.workers@.len() == pool_grown,
            pool_grown < usize::MAX,
            count_available(state.pool.workers@) >= fresh@.len() - m,
            forall|k: Seq<char>|
                #[trigger] state.jobs.spec_contains(k) <==> old(state).jobs.spec_contains(k) || (
                exists|t: int| 0 <= t < m && k == spec_on_change_id(backups@[fresh@[t] as int])),
            forall|k: Seq<char>|
                #[trigger] state.failed_jobs.spec_contains(k) <==> (old(
                    state,
                ).failed_jobs.spec_contains(k) && !(exists|t: int|
                    0 <= t < m && k == spec_on_change_id(backups@[fresh@[t] as int]))),
            forall|k: Seq<char>|
                !(#[trigger] state.jobs.spec_contains(k) && state.failed_jobs.spec_contains(k)),
            state.config == old(state).config,
            state.connected == old(state).connected,
            started@.len() == m as int,
            forall|t: int|
                0 <= t < m ==> {
                    &&& (#[trigger] started@[t]).index == fresh@[t]
                    &&& started@[t].job_id@ == spec_on_change_id(backups@[fresh@[t] as int])
                    &&& state.jobs.spec_contains(started@[t].job_id@)
                },
        decreases fresh@.len() - m,
    {
        let ix: usize = fresh[m];
        let id = id_from_backup(&backups[ix], &Kind::BackupOnChange);
        let ghost jobs_mid = state.jobs;
        let ghost failed_mid = state.failed_jobs;
        let _stale = state.failed_jobs.remove(&id);
        let wid = state.pool.execute();
        state.jobs.insert(id.clone(), wid);
        proof {
            assert forall|k: Seq<char>|
                #[trigger] state.jobs.spec_contains(k) <==> old(state).jobs.spec_contains(k) || (
            exists|t: int|
                0 <= t < m + 1 && k == spec_on_change_id(backups@[fresh@[t] as int])) by {
                if state.jobs.spec_contains(k) {
                    if k != id@ {
                        assert(jobs_mid.spec_contains(k));
                        if !old(state).jobs.spec_contains(k) {
                            let t = choose|t: int|
                                0 <= t < m && k == spec_on_change_id(backups@[fresh@[t] as int]);
                            assert(0 <= t < m + 1 && k == spec_on_change_id(
                                backups@[fresh@[t] as int],
                            ));
                        }
                    } else {
                        assert(0 <= m < m + 1 && k == spec_on_change_id(
                            backups@[fresh@[m as int] as int],
                        ));
                    }
                }
                if old(state).jobs.spec_contains(k) {
                    assert(jobs_mid.spec_contains(k));
                    assert(state.jobs.spec_contains(k));
                }
                if exists|t: int|
                    0 <= t < m + 1 && k == spec_on_change_id(backups@[fresh@[t] as int]) {
                    let t = choose|t: int|
                        0 <= t < m + 1 && k == spec_on_change_id(backups@[fresh@[t] as int]);
                    if t < m {
                        assert(jobs_mid.spec_contains(k));
                        assert(state.jobs.spec_contains(k));
                    } else {
                        assert(k == id@);
                        assert(state.jobs.spec_contains(k));
                    }
                }
            }
            assert forall|k: Seq<char>|
                #[trigger] state.failed_jobs.spec_contains(k) <==> (old(
                state,
            ).failed_jobs.spec_contains(k) && !(exists|t: int|
                0 <= t < m + 1 && k == spec_on_change_id(backups@[fresh@[t] as int]))) by {
                if k == id@ {
                    assert(!state.failed_jobs.spec_contains(k));
                    assert(0 <= m < m + 1 && k == spec_on_change_id(
                        backups@[fresh@[m as int] as int],
                    ));
                } else {
                    assert(state.failed_jobs.spec_contains(k) == failed_mid.spec_contains(k));
                    if exists|t: int|
                        0 <= t < m + 1 && k == spec_on_change_id(backups@[fresh@[t] as int]) {
                        let t = choose|t: int|
                            0 <= t < m + 1 && k == spec_on_change_id(backups@[fresh@[t] as int]);
                        if t == m as int {
                            assert(k == id@);
                        } else {
                            assert(0 <= t < m && k == spec_on_change_id(
                                backups@[fresh@[t] as int],
                            ));
                        }
                    }
                }
            }
            assert forall|k: Seq<char>|
                !(#[trigger] state.jobs.spec_contains(k) && state.failed_jobs.spec_contains(
                    k,
                )) by {
                if k == id@ {
                    assert(!state.failed_jobs.spec_contains(k));
                }
            }
        }
        started.push(StartedJob { index: ix, job_id: id, worker_id: wid });
        m = m + 1;
    }
    proof {
        assert forall|k: Seq<char>|
            #[trigger] state.jobs.spec_contains(k) <==> old(state).jobs.spec_contains(k) || (
        exists|i2: int| 0 <= i2 < backups@.len() && k == spec_on_change_id(backups@[i2])) by {
            if state.jobs.spec_contains(k) && !old(state).jobs.spec_contains(k) {
                let t = choose|t: int|
                    0 <= t < fresh@.len() && k == spec_on_change_id(backups@[fresh@[t] as int]);
                assert(0 <= fresh@[t] < backups@.len() && k == spec_on_change_id(
                    backups@[fresh@[t] as int],
                ));
            }
            if exists|i2: int| 0 <= i2 < backups@.len() && k == spec_on_change_id(backups@[i2]) {
                if !old(state).jobs.spec_contains(k) {
                    let i2 = choose|i2: int|
                        0 <= i2 < backups@.len() && k == spec_on_change_id(backups@[i2]);
                    let t = choose|t: int| 0 <= t < fresh@.len() && fresh@[t] == i2;
                    assert(k == spec_on_change_id(backups@[fresh@[t] as int]));
                    assert(state.jobs.spec_contains(k));
                }
            }
        }
        assert forall|k: Seq<char>|
            #[trigger] state.failed_jobs.spec_contains(k) <==> (old(
            state,
        ).failed_jobs.spec_contains(k) && !spec_is_fresh_id(old(state).jobs, backups@, k)) by {
            if old(state).failed_jobs.spec_contains(k) {
                if spec_is_fresh_id(old(state).jobs, backups@, k) {
                    let i2 = choose|i2: int|
                        0 <= i2 < backups@.len() && k == spec_on_change_id(backups@[i2]);
                    let t = choose|t: int| 0 <= t < fresh@.len() && fresh@[t] == i2;
                    assert(exists|t2: int|
                        0 <= t2 < fresh@.len() && k == spec_on_change_id(
                            backups@[fresh@[t2] as int],
                        ));
                } else {
                    if exists|t: int|
                        0 <= t < fresh@.len() && k == spec_on_change_id(
                            backups@[fresh@[t] as int],
                        ) {
                        let t = choose|t: int|
                            0 <= t < fresh@.len() && k == spec_on_change_id(
                                backups@[fresh@[t] as int],
                            );
                        assert(!old(state).jobs.spec_contains(k));
                        assert(0 <= fresh@[t] < backups@.len() && k == spec_on_change_id(
                            backups@[fresh@[t] as int],
                        ));
                        assert(spec_is_fresh_id(old(state).jobs, backups@, k));
                    }
                }
            }
        }
    }
    Ok(started)
}

/// Schedules a watch job for one backup.  Refused without a configuration
/// or with background backups disabled; a backup whose watch job already
/// runs is left alone (`None`).  Otherwise a worker is dispatched — the
/// pool growing by one when none was available — and its id returned; the
/// runtime then runs the watch kernel on that worker.
pub fn backup_on_change(state: &mut AppState, backup: &Backup) -> (r: Result<Option<usize>, Error>)
    requires
        old(state).inv(),
        old(state).pool.workers@.len() < usize::MAX,
    ensures
        final(state).inv(),
        (r is Err) == (old(state).config is None || !old(state).config->Some_0
            .allow_background_backup),
        r is Err ==> (r matches Err(Error::App(AppError::Config(_))) && *final(state) == *old(
            state,
        )),
        r == Ok::<Option<usize>, Error>(Option::<usize>::None) ==> (old(state).jobs.spec_contains(
            spec_on_change_id(*backup),
        ) && *final(state) == *old(state)),
        r matches Ok(Some(wid)) ==> {
            &&& !old(state).jobs.spec_contains(spec_on_change_id(*backup))
            &&& final(state).jobs.spec_contains(spec_on_change_id(*backup))
            &&& final(state).jobs.spec_get(spec_on_change_id(*backup)) == wid
            &&& final(state).pool.has_worker(wid)
            &&& forall|k: Seq<char>|
                #[trigger] final(state).jobs.spec_contains(k) <==> old(state).jobs.spec_contains(
                    k,
                ) || k == spec_on_change_id(*backup)
            &&& !final(state).failed_jobs.spec_contains(spec_on_change_id(*backup))
            &&& forall|k: Seq<char>|
                k != spec_on_change_id(*backup) ==> (#[trigger] final(state).failed_jobs.spec_contains(k) <==> old(state).failed_jobs.spec_contains(k))
            &&& final(state).config == old(state).config
            &&& final(state).connected == old(state).connected
            &&& final(state).pool.workers@.len() == old(state).pool.workers@.len() + (
            if count_available(old(state).pool.workers@) > 0 {
                0int
            } else {
                1int
            })
        },
{
    let allow: bool = match &state.config {
        Some(c) => c.allow_background_backup,
        None => false,
    };
    if !allow {
        return Err(
            Error::App(
                AppError::Config(String::from_str("Background backup is disabled or not set up")),
            ),
        );
    }
    let job_id = id_from_backup(backup, &Kind::BackupOnChange);
    if state.jobs.contains(&job_id) {
        return Ok(None);
    }
    let _stale = state.failed_jobs.remove(&job_id);
    let wid = state.pool.execute();
    state.jobs.insert(job_id, wid);
    proof {
        assert forall|k: Seq<char>|
            !(#[trigger] state.jobs.spec_contains(k) && state.failed_jobs.spec_contains(k)) by {
            if k != spec_on_change_id(*backup) {
                assert(old(state).jobs.spec_contains(k) == state.jobs.spec_contains(k));
                assert(old(state).failed_jobs.spec_contains(k) == state.failed_jobs.spec_contains(
                    k,
                ));
            } else {
                assert(!state.failed_jobs.spec_contains(k));
            }
        }
    }
    Ok(Some(wid))
}

/// Declares a backup: the catalog refuses a duplicate identity pair;
/// otherwise the backup is appended and, when background backups are on, a
/// watch job is scheduled for it (`Some` with the worker id, `None` when
/// one already runs or background mode is off).
pub fn add_backup(state: &mut AppState, storage: &mut crate::storage::Storage, backup: &Backup) -> (
    r: Result<Option<usize>, Error>)
    requires
        old(state).inv(),
        old(state).pool.workers@.len() < usize::MAX,
    ensures
        final(state).inv(),
        final(storage).cache_dir == old(storage).cache_dir,
        final(storage).config_dir == old(storage).config_dir,
        final(storage).data_dir == old(storage).data_dir,
        (exists|i: int|
            0 <= i < old(storage).backups@.len() && crate::models::backup::same_identity(
                #[trigger] old(storage).backups@[i],
                *backup,
            )) ==> (r matches Err(Error::App(AppError::Storage(_))) && final(storage).backups@
            == old(storage).backups@ && *final(state) == *old(state)),
        !(exists|i: int|
            0 <= i < old(storage).backups@.len() && crate::models::backup::same_identity(
                #[trigger] old(storage).backups@[i],
                *backup,
            )) ==> {
            &&& final(storage).backups@ == old(storage).backups@.push(*backup)
            &&& r is Ok
            &&& !(old(state).config matches Some(c) && c.allow_background_backup) ==> (r == Ok::<Option<usize>, Error>(
                Option::<usize>::None,
            ) && *final(state) == *old(state))
            &&& (old(state).config matches Some(c) && c.allow_background_backup
                && old(state).jobs.spec_contains(spec_on_change_id(*backup))) ==> (r
                == Ok::<Option<usize>, Error>(Option::<usize>::None) && *final(state) == *old(
                state,
            ))
            &&& (old(state).config matches Some(c) && c.allow_background_backup && !old(
                state,
            ).jobs.spec_contains(spec_on_change_id(*backup))) ==> (r matches Ok(Some(wid))
                && final(state).jobs.spec_contains(spec_on_change_id(*backup)) && final(state).jobs.spec_get(spec_on_change_id(*backup)) == wid && (forall|k: Seq<char>|
                #[trigger] final(state).jobs.spec_contains(k) <==> old(state).jobs.spec_contains(
                    k,
                ) || k == spec_on_change_id(*backup)))
        },
{
    match storage.add_backup(backup.clone()) {
        Ok(()) => (),
        Err(crate::storage::Error::NotUnique(why)) => {
            return Err(Error::App(AppError::Storage(why)));
        },
        Err(_) => {
            return Err(
                Error::App(AppError::Storage(String::from_str("could not update the catalog"))),
            );
        },
    }
    let allow: bool = match &state.config {
        Some(c) => c.allow_background_backup,
        None => false,
    };
    if !allow {
        return Ok(None);
    }
    backup_on_change(state, backup)
}

/// Removes a declared backup: when background backups are on, its watch
/// job is terminated first — the returned sentinel path, if any, must be
/// created and deleted — and a missing watch job refuses the removal; the
/// catalog entry is then deleted.
pub fn delete_backup(state: &mut AppState, storage: &mut crate::storage::Storage, backup: &Backup)
    -> (r: Result<Option<String>, Error>)
    requires
        old(state).inv(),
    ensures
        final(state).inv(),
        final(storage).cache_dir == old(storage).cache_dir,
        final(storage).config_dir == old(storage).config_dir,
        final(storage).data_dir == old(storage).data_dir,
        !(old(state).config matches Some(c) && c.allow_background_backup) ==> (r
            == Ok::<Option<String>, Error>(Option::<String>::None) && *final(state) == *old(state) && final(storage).backups@ == old(
            storage,
        ).backups@.filter(crate::storage::spec_keeps(*backup))),
        (old(state).config matches Some(c) && c.allow_background_backup) ==> {
            &&& !(old(state).jobs.spec_contains(spec_on_change_id(*backup)) && old(
                state,
            ).pool.has_worker(old(state).jobs.spec_get(spec_on_change_id(*backup)))) ==> (
            r is Err && *final(state) == *old(state) && final(storage).backups@ == old(
                storage,
            ).backups@)
            &&& (old(state).jobs.spec_contains(spec_on_change_id(*backup)) && old(
                state,
            ).pool.has_worker(old(state).jobs.spec_get(spec_on_change_id(*backup)))) ==> (
            r matches Ok(Some(trigger)) && trigger@ == spec_sentinel_path(*backup) && !final(state).jobs.spec_contains(spec_on_change_id(*backup)) && final(storage).backups@ == old(
                storage,
            ).backups@.filter(crate::storage::spec_keeps(*backup)))
        },
{
    let allow: bool = match &state.config {
        Some(c) => c.allow_background_backup,
        None => false,
    };
    let trigger: Option<String> = if allow {
        match terminate_background_backup(state, backup) {
            Ok(trigger) => Some(trigger),
            Err(e) => {
                return Err(e);
            },
        }
    } else {
        None
    };
    match storage.delete_backup(backup) {
        Ok(()) => Ok(trigger),
        Err(_) => {
            proof {
                assert(false);
            }
            Err(Error::App(AppError::Storage(String::from_str("could not update the catalog"))))
        },
    }
}

/// What switching background mode did: the watch jobs that were started,
/// or the sentinel paths of the jobs that were terminated.
pub enum BackgroundChange {
    Started(Vec<StartedJob>),
    Terminated(Vec<String>),
}

/// Switches background backups on or off.  Refused without a
/// configuration.  The flag is stored in the configuration; switching on
/// starts a watch job for every catalog backup not already running, and
/// switching off terminates every running job, leaving the running
/// registry empty — the returned sentinel paths must each be created and
/// deleted so the watchers wake.
pub fn set_background_backups(state: &mut AppState, enabled: bool, catalog: &Vec<Backup>) -> (r:
    Result<BackgroundChange, Error>)
    requires
        old(state).inv(),
        old(state).pool.workers@.len() + catalog@.len() < usize::MAX,
    ensures
        final(state).inv(),
        (r is Err) == (old(state).config is None),
        old(state).config is None ==> (r matches Err(Error::App(AppError::Config(_))) && *final(state) == *old(state)),
        old(state).config matches Some(c) ==> final(state).config == Some(
            (crate::models::app::Config { allow_background_backup: enabled, ..c }),
        ),
        (old(state).config is Some && !enabled) ==> {
            &&& r matches Ok(BackgroundChange::Terminated(triggers))
            &&& final(state).jobs@.len() == 0
            &&& forall|k: Seq<char>| !final(state).jobs.spec_contains(k)
            &&& final(state).failed_jobs == old(state).failed_jobs
            &&& (r matches Ok(BackgroundChange::Terminated(triggers)) ==> triggers@.len() == old(
                state,
            ).jobs@.len() && forall|m: int|
                0 <= m < old(state).jobs@.len() ==> #[trigger] triggers@[m]@
                    == crate::jobs::backup::spec_sentinel_for_id(old(state).jobs@[m].0))
        },
        (old(state).config is Some && enabled) ==> {
            &&& r matches Ok(BackgroundChange::Started(list))
            &&& forall|k: Seq<char>|
                #[trigger] final(state).jobs.spec_contains(k) <==> old(state).jobs.spec_contains(
                    k,
                ) || (exists|i: int|
                    0 <= i < catalog@.len() && k == spec_on_change_id(catalog@[i]))
        },
{
    let config = match &state.config {
        Some(c) => c.clone(),
        None => {
            return Err(Error::App(AppError::Config(String::from_str("No config found"))));
        },
    };
    let updated = crate::models::app::Config {
        client_name: config.client_name,
        username: config.username,
        server_address: config.server_address,
        server_port: config.server_port,
        allow_background_backup: enabled,
    };
    state.config = Some(updated);
    if enabled {
        let result = start_background_backups(state, catalog);
        match result {
            Ok(list) => Ok(BackgroundChange::Started(list)),
            Err(e) => {
                proof {
                    assert(false);
                }
                Err(e)
            },
        }
    } else {
        let triggers = crate::jobs::backup::terminate_all(&mut state.jobs, &mut state.pool);
        Ok(BackgroundChange::Terminated(triggers))
    }
}

/// Terminates the watch job of one backup.  The job must be running; its
/// worker is ordered to stop and becomes available, the job leaves the
/// running registry, and the returned sentinel path — directly under the
/// backup's watch root — must be created and deleted so that the blocked
/// watcher wakes and observes the order.
pub fn terminate_background_backup(state: &mut AppState, backup: &Backup) -> (r: Result<
    String,
    Error,
>)
    requires
        old(state).inv(),
    ensures
        final(state).inv(),
        (r is Ok) == (old(state).jobs.spec_contains(spec_on_change_id(*backup)) && old(
            state,
        ).pool.has_worker(old(state).jobs.spec_get(spec_on_change_id(*backup)))),
        !old(state).jobs.spec_contains(spec_on_change_id(*backup)) ==> (r matches Err(
            Error::Job(crate::jobs::Error::NotFound(_)),
        ) && *final(state) == *old(state)),
        r is Err ==> *final(state) == *old(state),
        r matches Ok(trigger) ==> {
            &&& trigger@ == spec_sentinel_path(*backup)
            &&& !final(state).jobs.spec_contains(spec_on_change_id(*backup))
            &&& forall|k: Seq<char>|
                k != spec_on_change_id(*backup) ==> (#[trigger] final(state).jobs.spec_contains(k)
                    <==> old(state).jobs.spec_contains(k))
            &&& final(state).pool.has_worker(
                old(state).jobs.spec_get(spec_on_change_id(*backup)),
            )
            &&& final(state).pool.workers@[final(state).pool.spec_worker_index(
                old(state).jobs.spec_get(spec_on_change_id(*backup)),
            )].is_available
            &&& final(state).failed_jobs == old(state).failed_jobs
            &&& final(state).config == old(state).config
            &&& final(state).connected == old(state).connected
        },
{
    let job_id = id_from_backup(backup, &Kind::BackupOnChange);
    let worker_id: usize = match state.jobs.get(&job_id) {
        Some(w) => w,
        None => {
            return Err(
                Error::Job(crate::jobs::Error::NotFound(String::from_str("could not find job"))),
            );
        },
    };
    let result = state.pool.terminate_job(worker_id);
    match result {
        Ok(()) => (),
        Err(why) => {
            return Err(Error::Job(crate::jobs::Error::Terminate(why)));
        },
    }
    let _removed = state.jobs.remove(&job_id);
    proof {
        let wid = old(state).jobs.spec_get(spec_on_change_id(*backup));
        assert(state.pool.has_worker(wid)) by {
            let k = old(state).pool.spec_worker_index(wid);
            assert(state.pool.workers@[k].id == wid);
        }
        let k2 = state.pool.spec_worker_index(wid);
        assert(0 <= k2 < state.pool.workers@.len() && state.pool.workers@[k2].id == wid);
        assert(state.pool.workers@[k2].is_available) by {
            assert(state.pool.workers@[k2] == (Worker {
                is_available: old(state).pool.workers@[k2].is_available || old(
                    state,
                ).pool.workers@[k2].id == wid,
                ..old(state).pool.workers@[k2]
            }));
            assert(old(state).pool.workers@[k2].id == state.pool.workers@[k2].id);
        }
        assert forall|k: Seq<char>|
            !(#[trigger] state.jobs.spec_contains(k) && state.failed_jobs.spec_contains(k)) by {
            if k != spec_on_change_id(*backup) {
                assert(old(state).jobs.spec_contains(k) == state.jobs.spec_contains(k));
            }
        }
    }
    Ok(sentinel_path(backup))
}

} // verus!
