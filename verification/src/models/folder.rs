//! Sizes and folders as shown when browsing the server's home directory.

use vstd::prelude::*;

verus! {

/// A size with its unit.
#[derive(Clone, Copy, PartialEq, Eq, Structural)]
pub enum Size {
    B(u64),
    KB(u64),
    MB(u64),
    GB(u64),
}

impl Size {
    /// The size in whole megabytes, rounding down; gigabytes must not
    /// overflow the conversion.
    pub fn in_mb(&self) -> (r: u64)
        requires
            self matches Size::GB(size) ==> size <= u64::MAX / 1024,
        ensures
            r as int == match *self {
                Size::B(size) => size as int / (1024int * 1024),
                Size::KB(size) => size as int / 1024,
                Size::MB(size) => size as int,
                Size::GB(size) => size as int * 1024,
            },
    {
        match self {
            Size::B(size) => *size / (1024 * 1024),
            Size::KB(size) => *size / 1024,
            Size::MB(size) => *size,
            Size::GB(size) => *size * 1024,
        }
    }
}

/// A folder with its name, absolute path, and size, if known.
pub struct Folder {
    pub name: String,
    pub path: String,
    pub size: Option<Size>,
}

} // verus!
