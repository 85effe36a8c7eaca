//! The outcome a menu screen reports to the screen that opened it.

use vstd::prelude::*;

verus! {

/// What the caller of a menu screen should do next: show the menu again,
/// tear the session down, or leave the screen.
#[derive(Clone, Copy, PartialEq, Eq, Structural)]
pub enum Action {
    Show,
    Disconnect,
    Exit,
}

} // verus!
