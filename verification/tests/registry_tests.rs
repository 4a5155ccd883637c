use mpc_bridge::registry::Registry;

#[test]
fn register_yields_distinct_handles() {
    let mut reg: Registry<u32> = Registry::new();
    let h1 = reg.set_dt_impl(10);
    let h2 = reg.set_dt_impl(20);
    assert_ne!(h1, h2);
}

#[test]
fn resolve_is_isolated_per_handle() {
    let mut reg: Registry<u32> = Registry::new();
    let h1 = reg.set_dt_impl(10);
    let h2 = reg.set_dt_impl(20);
    assert_eq!(*reg.get_dt_impl(h1), 10);
    assert_eq!(*reg.get_dt_impl(h2), 20);
}

#[test]
fn unregister_leaves_other_entries_alone() {
    let mut reg: Registry<u32> = Registry::new();
    let h1 = reg.set_dt_impl(10);
    let h2 = reg.set_dt_impl(20);
    reg.free_dt_impl(h1);
    assert!(!reg.contains(h1));
    assert!(reg.contains(h2));
    assert_eq!(*reg.get_dt_impl(h2), 20);
    assert_eq!(reg.len(), 1);
}

#[test]
fn handles_are_not_reused_after_removal() {
    let mut reg: Registry<u32> = Registry::new();
    let h1 = reg.set_dt_impl(10);
    reg.free_dt_impl(h1);
    let h2 = reg.set_dt_impl(30);
    assert_ne!(h1, h2);
    assert!(!reg.contains(h1));
    assert!(reg.contains(h2));
}
