use el_terminal::launch::{store, take, trim_c_string, LaunchOptions, LaunchSlot};

fn opts(dir: &str) -> LaunchOptions {
    LaunchOptions { working_directory: Some(dir.to_string()), command: None, new_window: false }
}

#[test]
fn take_without_store_is_empty() {
    let slot = LaunchSlot::new();
    let o = take(&slot);
    assert!(o.working_directory.is_none());
    assert!(o.command.is_none());
    assert!(!o.new_window);
}

#[test]
fn first_store_wins() {
    let mut slot = LaunchSlot::new();
    store(&mut slot, opts("/a"));
    store(&mut slot, opts("/b"));
    assert_eq!(take(&slot).working_directory.as_deref(), Some("/a"));
    assert_eq!(take(&slot).working_directory.as_deref(), Some("/a"));
}

#[test]
fn trailing_nuls_are_dropped() {
    assert_eq!(trim_c_string("/tmp/x\0\0".to_string()), "/tmp/x");
    assert_eq!(trim_c_string("plain".to_string()), "plain");
    assert_eq!(trim_c_string("\0".to_string()), "");
}
