//! What differs between operating systems.
use vstd::prelude::*;

verus! {

/// The kind of operating system that the program runs on.
#[derive(Debug, Clone, Copy, PartialEq, Eq, Structural)]
pub enum Platform {
    /// Linux, macOS and their like.
    Unix,
    /// Windows.
    Windows,
}

} // verus!
