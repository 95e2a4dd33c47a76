//! The Flatpak backend. Running `flatpak` is the application's part; what
//! is computed from its output lives in `discovery::flatpaks` and
//! `backends::flatpak_backend`.
use vstd::prelude::*;

verus! {

/// Flatpak CLI backend: discovers Flatpak state by executing `flatpak` as a
/// subprocess.
#[derive(Debug, Clone, Copy)]
pub struct FlatpakCliBackend;

impl FlatpakCliBackend {
    /// A new backend.
    pub fn new() -> (b: Self) {
        FlatpakCliBackend
    }
}

} // verus!
