use el_terminal::ask::extract_shell_ask_query;

#[test]
fn extracts_after_bash_prompt() {
    let q = extract_shell_ask_query("md@host:~/proj$ ?? list files", "??").unwrap();
    assert_eq!(q, "list files");
}

#[test]
fn extracts_after_oh_my_zsh_prompt() {
    let q = extract_shell_ask_query(
        "➜  terminal-emulator git:(main) ✗ ?? how do I find large files",
        "??",
    )
    .unwrap();
    assert_eq!(q, "how do I find large files");
}

#[test]
fn extracts_hash_prefix() {
    let q = extract_shell_ask_query("host% #? show disks", "#?").unwrap();
    assert_eq!(q, "show disks");
}

#[test]
fn ignores_non_prefix_commands() {
    assert!(extract_shell_ask_query("md@host:~$ ls -la", "??").is_none());
}

#[test]
fn ignores_empty_question() {
    assert!(extract_shell_ask_query("md@host:~$ ??   ", "??").is_none());
}

#[test]
fn ignores_glob_inside_other_text() {
    // `??` must be its own token, not mid-word.
    assert!(extract_shell_ask_query("echo foo??bar", "??").is_none());
}
