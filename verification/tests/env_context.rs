use el_terminal::env_context::{detect_kind, EnvKind, TerminalContext};

#[test]
fn detects_psql_from_title() {
    let ctx = TerminalContext {
        shell: "/bin/zsh".into(),
        title: Some("psql mydb".into()),
        ..Default::default()
    };
    assert_eq!(detect_kind(&ctx), EnvKind::Postgres);
}

#[test]
fn detects_mysql_from_output() {
    let ctx = TerminalContext {
        shell: "/bin/bash".into(),
        recent_output: Some("Welcome\nmysql> SELECT 1;\n".into()),
        ..Default::default()
    };
    assert_eq!(detect_kind(&ctx), EnvKind::Mysql);
}

#[test]
fn empty_hints_still_shell_when_shell_known() {
    let ctx = TerminalContext {
        shell: "/usr/bin/zsh".into(),
        ..Default::default()
    };
    assert_eq!(detect_kind(&ctx), EnvKind::Shell);
}

#[test]
fn pre_prompt_always_mentions_terminal() {
    let ctx = TerminalContext {
        shell: "/bin/bash".into(),
        kind: EnvKind::Unknown,
        ..Default::default()
    };
    let prompt = ctx.build_pre_prompt();
    assert!(prompt.contains("Active terminal environment"));
    assert!(prompt.contains("general Linux terminal") || prompt.contains("bash"));
}

#[test]
fn pre_prompt_mentions_postgres() {
    let ctx = TerminalContext {
        shell: "/bin/bash".into(),
        kind: EnvKind::Postgres,
        cwd: Some("/home/me/proj".into()),
        title: Some("psql".into()),
        ..Default::default()
    };
    let prompt = ctx.build_pre_prompt();
    assert!(prompt.contains("PostgreSQL"));
    assert!(prompt.contains("/home/me/proj"));
}
