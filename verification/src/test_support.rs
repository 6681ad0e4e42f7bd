//! Switches that integration tests flip to make thread management and process
//! ids deterministic.
//!
//! The switches are process-wide in the running program; the library holds
//! them as a value, and the program keeps that value in one place.
use vstd::prelude::*;

verus! {

/// The test-only switches.
#[derive(Clone, Copy, Debug, Default, PartialEq, Eq)]
pub struct TestModes {
    pub thread_manager_test_mode: bool,
    pub deterministic_process_ids: bool,
}

/// Turn the thread manager's test mode on or off; the other switch stays.
pub fn set_thread_manager_test_mode(modes: &mut TestModes, enabled: bool)
    ensures
        final(modes).thread_manager_test_mode == enabled,
        final(modes).deterministic_process_ids == old(modes).deterministic_process_ids,
{
    modes.thread_manager_test_mode = enabled;
}

/// Turn deterministic process ids on or off; the other switch stays.
pub fn set_deterministic_process_ids(modes: &mut TestModes, enabled: bool)
    ensures
        final(modes).deterministic_process_ids == enabled,
        final(modes).thread_manager_test_mode == old(modes).thread_manager_test_mode,
{
    modes.deterministic_process_ids = enabled;
}

} // verus!
