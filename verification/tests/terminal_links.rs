use el_terminal::terminal_links::{linkify, normalize_uri};

#[test]
fn linkify_wraps_http_url_with_color_and_hyperlink() {
    let out = linkify("see https://example.com/path ok", "#6cb6ff");
    assert!(out.contains("\x1b]8;;https://example.com/path\x1b\\"));
    assert!(out.contains("\x1b[4m"));
    assert!(out.contains("\x1b[38;2;108;182;255m"));
    assert!(out.contains("https://example.com/path"));
}

#[test]
fn linkify_skips_existing_escape_sequences() {
    let out = linkify("\x1b[31mhttps://example.com\x1b[0m", "#6cb6ff");
    assert_eq!(out, "\x1b[31mhttps://example.com\x1b[0m");
}

#[test]
fn normalize_uri_adds_https_for_www() {
    assert_eq!(
        normalize_uri("www.example.com"),
        "https://www.example.com"
    );
}

#[test]
fn plain_text_passes_through_linkify() {
    let text = "no links here, just words: a.b and 42%";
    assert_eq!(linkify(text, "#6cb6ff"), text);
}

#[test]
fn www_links_get_https_targets() {
    let out = linkify("go to www.example.org.", "#abc");
    assert_eq!(
        out,
        "go to \x1b]8;;https://www.example.org\x1b\\\x1b[4m\x1b[38;2;170;187;204mwww.example.org\x1b[0m\x1b]8;;\x1b\\."
    );
}
