use core_probe::signal_handler::Cleanup;

#[test]
fn first_cleanup_terminates_processes_and_removes_directories() {
    let mut cleanup = Cleanup::new();
    cleanup.register_temp_dir("/tmp/core-probe-a".to_string());
    cleanup.register_child_process(4242);
    cleanup.register_child_process(4243);

    let plan = cleanup.execute();

    assert_eq!(plan.terminate, vec![4242, 4243]);
    assert_eq!(plan.remove_dirs, vec!["/tmp/core-probe-a".to_string()]);
    assert!(plan.preserved_dirs.is_empty());
}

#[test]
fn cleanup_runs_once() {
    let mut cleanup = Cleanup::new();
    cleanup.register_temp_dir("/tmp/core-probe-b".to_string());
    cleanup.register_child_process(7);
    let _ = cleanup.execute();

    let second = cleanup.execute();

    assert!(second.terminate.is_empty());
    assert!(second.remove_dirs.is_empty());
    assert!(second.preserved_dirs.is_empty());
}

#[test]
fn directories_are_kept_after_an_error() {
    let mut cleanup = Cleanup::new();
    cleanup.register_temp_dir("/tmp/core-probe-c".to_string());
    cleanup.set_preserve_on_error(true);

    let plan = cleanup.execute();

    assert!(plan.remove_dirs.is_empty());
    assert_eq!(plan.preserved_dirs, vec!["/tmp/core-probe-c".to_string()]);
}
