//! The backup catalog and its base directories.  The runtime loads the
//! catalog from disk, hands it to this type, and rewrites the file after
//! every mutation; the rules — uniqueness of the identity pair, deletion
//! by the same pair — live here.

use crate::models::backup::{have_same_identity, same_identity, Backup};
use vstd::prelude::*;
use vstd::string::*;

pub mod json;

verus! {

/// Errors of the catalog: a duplicate backup, a missing environment
/// variable, a filesystem fault, or a malformed catalog file.
#[derive(Debug)]
pub enum Error {
    NotUnique(String),
    Env(String),
    Io(String),
    Json(String),
}

/// The predicate that deleting a backup keeps: not sharing its identity.
pub open spec fn spec_keeps(b: Backup) -> spec_fn(Backup) -> bool {
    |x: Backup| !same_identity(x, b)
}

/// The catalog: the platform base directories and the declared backups.
pub struct Storage {
    pub cache_dir: String,
    pub config_dir: String,
    pub data_dir: String,
    pub backups: Vec<Backup>,
}

impl Storage {
    /// A catalog over the given directories with the given backups.
    pub fn load(cache_dir: String, config_dir: String, data_dir: String, backups: Vec<Backup>) -> (
        r: Storage)
        ensures
            r.cache_dir == cache_dir,
            r.config_dir == config_dir,
            r.data_dir == data_dir,
            r.backups == backups,
    {
        Storage { cache_dir, config_dir, data_dir, backups }
    }

    /// Adds a backup, refusing one whose identity pair — client path and
    /// server path — the catalog already holds.
    pub fn add_backup(&mut self, backup: Backup) -> (r: Result<(), Error>)
        ensures
            (r is Ok) == !(exists|i: int|
                0 <= i < old(self).backups@.len() && same_identity(
                    #[trigger] old(self).backups@[i],
                    backup,
                )),
            r is Ok ==> final(self).backups@ == old(self).backups@.push(backup),
            r is Err ==> (r matches Err(Error::NotUnique(_)) && *final(self) == *old(self)),
            final(self).cache_dir == old(self).cache_dir,
            final(self).config_dir == old(self).config_dir,
            final(self).data_dir == old(self).data_dir,
    {
        let n: usize = self.backups.len();
        let mut i: usize = 0;
        while i < n
            invariant
                *self == *old(self),
                n == self.backups@.len(),
                0 <= i <= n,
                forall|j: int|
                    0 <= j < i ==> !same_identity(#[trigger] self.backups@[j], backup),
            decreases n - i,
        {
            if have_same_identity(&self.backups[i], &backup) {
                return Err(Error::NotUnique(String::from_str("Backup already exists")));
            }
            i = i + 1;
        }
        self.backups.push(backup);
        Ok(())
    }

    /// Deletes every backup sharing the given backup's identity pair; the
    /// rest of the catalog is kept in order.
    pub fn delete_backup(&mut self, backup: &Backup) -> (r: Result<(), Error>)
        ensures
            r is Ok,
            final(self).backups@ == old(self).backups@.filter(spec_keeps(*backup)),
            final(self).cache_dir == old(self).cache_dir,
            final(self).config_dir == old(self).config_dir,
            final(self).data_dir == old(self).data_dir,
    {
        let n: usize = self.backups.len();
        let mut kept: Vec<Backup> = Vec::new();
        let mut i: usize = 0;
        proof {
            reveal_with_fuel(Seq::filter, 2);
            assert(self.backups@.subrange(0, 0) =~= Seq::<Backup>::empty());
            assert(kept@ =~= self.backups@.subrange(0, 0).filter(spec_keeps(*backup)));
        }
        while i < n
            invariant
                *self == *old(self),
                n == self.backups@.len(),
                0 <= i <= n,
                kept@ == self.backups@.subrange(0, i as int).filter(spec_keeps(*backup)),
            decreases n - i,
        {
            let keep: bool = !have_same_identity(&self.backups[i], backup);
            proof {
                reveal_with_fuel(Seq::filter, 2);
                assert(self.backups@.subrange(0, i + 1).drop_last() =~= self.backups@.subrange(
                    0,
                    i as int,
                ));
                assert(self.backups@.subrange(0, i + 1).last() == self.backups@[i as int]);
            }
            if keep {
                kept.push(self.backups[i].clone());
            }
            i = i + 1;
        }
        proof {
            assert(self.backups@.subrange(0, n as int) =~= self.backups@);
        }
        self.backups = kept;
        Ok(())
    }
}

proof fn lemma_filter_keeps_all(s: Seq<Backup>, b: Backup)
    requires
        forall|i: int| 0 <= i < s.len() ==> !same_identity(#[trigger] s[i], b),
    ensures
        s.filter(spec_keeps(b)) == s,
    decreases s.len(),
{
    reveal_with_fuel(Seq::filter, 2);
    if s.len() == 0 {
        assert(s.filter(spec_keeps(b)) =~= s);
    } else {
        lemma_filter_keeps_all(s.drop_last(), b);
        assert(!same_identity(s[s.len() - 1], b));
        assert(spec_keeps(b)(s.last()));
        assert(s.filter(spec_keeps(b)) =~= s.drop_last().push(s.last()));
        assert(s.drop_last().push(s.last()) =~= s);
    }
}

/// Adding a backup and then deleting it leaves the catalog as it was:
/// when no entry shares the new backup's identity pair — exactly when the
/// addition succeeds — the deletion removes the added entry and nothing
/// else.
pub proof fn lemma_add_then_delete(before: Seq<Backup>, b: Backup)
    requires
        forall|i: int| 0 <= i < before.len() ==> !same_identity(#[trigger] before[i], b),
    ensures
        before.push(b).filter(spec_keeps(b)) == before,
{
    reveal_with_fuel(Seq::filter, 2);
    let s = before.push(b);
    assert(s.drop_last() =~= before);
    assert(s.last() == b);
    assert(!spec_keeps(b)(b));
    assert(s.filter(spec_keeps(b)) == before.filter(spec_keeps(b)));
    lemma_filter_keeps_all(before, b);
}

} // verus!
