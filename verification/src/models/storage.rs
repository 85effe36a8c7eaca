//! Entities as listed from the server's storage: files and folders.

use vstd::prelude::*;

verus! {

/// A size in bytes.
#[derive(Clone, Copy, PartialEq, Eq, Structural)]
pub enum Size {
    B(u64),
}

/// A folder on the server.
pub struct Folder {
    pub name: String,
    pub path: String,
    pub size: Option<Size>,
}

impl Clone for Folder {
    fn clone(&self) -> (r: Self)
        ensures
            r == *self,
    {
        Folder { name: self.name.clone(), path: self.path.clone(), size: self.size }
    }
}

/// A file on the server.
pub struct File {
    pub name: String,
    pub path: String,
    pub size: Option<Size>,
    pub mime_type: Option<String>,
}

/// An entity on the server: a folder or a file.
pub enum Entity {
    Folder(Folder),
    File(File),
}

} // verus!
