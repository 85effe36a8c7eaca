//! A backup: a client entity mirrored to a server location, with options.

use vstd::prelude::*;

verus! {

/// Whether the client entity of a backup is a single file or a directory.
#[derive(Clone, Copy, PartialEq, Eq, Structural)]
pub enum Kind {
    File,
    Directory,
}

impl Kind {
    /// The kind of a client entity, from whether the path names a file.
    pub fn from_is_file(is_file: bool) -> (k: Kind)
        ensures
            k == if is_file {
                Kind::File
            } else {
                Kind::Directory
            },
    {
        if is_file {
            Kind::File
        } else {
            Kind::Directory
        }
    }
}

/// One side of a backup: the entity's name and its absolute path.
pub struct Location {
    pub entity_name: String,
    pub path: String,
}

impl Clone for Location {
    fn clone(&self) -> (r: Self)
        ensures
            r == *self,
    {
        Location { entity_name: self.entity_name.clone(), path: self.path.clone() }
    }
}

/// Options of a backup.  With `use_client_directory` the server mirrors the
/// named client directory itself; without it the directory's contents are
/// merged directly into the server location.
#[derive(Clone, Copy, PartialEq, Eq, Structural)]
pub struct Options {
    pub use_client_directory: bool,
}

/// A declared backup: a client location, a server location, options, and the
/// time of the latest run, if any.
pub struct Backup {
    pub kind: Kind,
    pub client_location: Location,
    pub server_location: Location,
    pub latest_run: Option<u64>,
    pub options: Option<Options>,
}

impl Clone for Backup {
    fn clone(&self) -> (r: Self)
        ensures
            r == *self,
    {
        Backup {
            kind: self.kind,
            client_location: self.client_location.clone(),
            server_location: self.server_location.clone(),
            latest_run: self.latest_run,
            options: self.options,
        }
    }
}

/// Two backups are the same declaration when their client and server paths
/// agree; this pair is a backup's identity, for both deduplication and job
/// identifiers.
pub open spec fn same_identity(a: Backup, b: Backup) -> bool {
    a.client_location.path@ == b.client_location.path@ && a.server_location.path@
        == b.server_location.path@
}

/// True when `a` and `b` are the same declaration, as `same_identity` says.
pub fn have_same_identity(a: &Backup, b: &Backup) -> (r: bool)
    ensures
        r == same_identity(*a, *b),
{
    a.client_location.path == b.client_location.path && a.server_location.path
        == b.server_location.path
}

} // verus!
