use el_terminal::session::{shell_or_default, spawn_argv, spawn_dir, SpawnOpts};

#[test]
fn shell_defaults_to_bash() {
    assert_eq!(shell_or_default(None), "/bin/bash");
    assert_eq!(shell_or_default(Some("/usr/bin/zsh".to_string())), "/usr/bin/zsh");
}

#[test]
fn argv_with_and_without_command() {
    assert_eq!(spawn_argv("/bin/sh".to_string(), &None), vec!["/bin/sh"]);
    assert_eq!(
        spawn_argv("/bin/sh".to_string(), &Some("htop".to_string())),
        vec!["/bin/sh", "-c", "htop"]
    );
}

#[test]
fn directory_choice() {
    let plain = SpawnOpts::default();
    assert_eq!(spawn_dir(&plain, Some("/tmp".to_string())).as_deref(), Some("/tmp"));
    assert_eq!(spawn_dir(&plain, None), None);
    let asked = SpawnOpts { working_directory: Some("/srv".to_string()), command: None };
    assert_eq!(spawn_dir(&asked, Some("/tmp".to_string())).as_deref(), Some("/srv"));
}
