use el_terminal::env_context::{clip_output, file_uri_to_path, from_hex, percent_decode, EnvKind, TerminalContext};

#[test]
fn percent_decoding() {
    assert_eq!(percent_decode("%41b%20c"), "Ab c");
    assert_eq!(percent_decode("no-escapes"), "no-escapes");
    assert_eq!(percent_decode("%zz"), "%zz");
    assert_eq!(percent_decode("%C3%A9"), "\u{e9}");
    assert_eq!(percent_decode("%FF"), "\u{fffd}");
}

#[test]
fn hex_digits() {
    assert_eq!(from_hex(b'7'), Some(7));
    assert_eq!(from_hex(b'c'), Some(12));
    assert_eq!(from_hex(b'F'), Some(15));
    assert_eq!(from_hex(b'g'), None);
}

#[test]
fn file_uris_to_paths() {
    assert_eq!(file_uri_to_path("file:///home/me/My%20Docs").as_deref(), Some("/home/me/My Docs"));
    assert_eq!(file_uri_to_path("https://example.com"), None);
    assert_eq!(file_uri_to_path("file://"), None);
}

#[test]
fn clipping_keeps_the_tail() {
    assert_eq!(clip_output("abcdef  \n", 3), "\u{2026}def");
    assert_eq!(clip_output("abc\n", 10), "abc");
}

#[test]
fn shell_name_in_pre_prompt() {
    let ctx = TerminalContext { shell: "/usr/bin/fish".into(), kind: EnvKind::Shell, ..Default::default() };
    assert!(ctx.build_pre_prompt().contains("- Host shell: fish (/usr/bin/fish)"));
    assert_eq!(EnvKind::Postgres.label(), "PostgreSQL (psql)");
    assert_eq!(EnvKind::Unknown.label(), "generic Linux terminal");
}
