//! Reading a cancellation flag that another thread may set.

use vstd::prelude::*;
use std::sync::atomic::{AtomicBool, Ordering};

verus! {

/// Whether cancellation has been requested: the flag read with relaxed ordering.
/// Another thread may set the flag at any time, so callers learn nothing of the
/// value beyond what they read.
pub fn cancel_requested(flag: &AtomicBool) -> bool {
    flag.load(Ordering::Relaxed)
}

} // verus!
