use firefam::test_support::set_deterministic_process_ids;
use firefam::test_support::set_thread_manager_test_mode;
use firefam::test_support::TestModes;

#[test]
fn switches_are_independent() {
    let mut modes = TestModes::default();
    set_thread_manager_test_mode(&mut modes, true);
    assert!(modes.thread_manager_test_mode);
    assert!(!modes.deterministic_process_ids);
    set_deterministic_process_ids(&mut modes, true);
    set_thread_manager_test_mode(&mut modes, false);
    assert!(!modes.thread_manager_test_mode);
    assert!(modes.deterministic_process_ids);
}
