use el_terminal::title::{shorten_path, title_or};

#[test]
fn home_itself_is_tilde() {
    assert_eq!(shorten_path("/home/me", Some("/home/me")), "~");
}

#[test]
fn below_home_is_relative() {
    assert_eq!(shorten_path("/home/me/src/app", Some("/home/me")), "~/src/app");
}

#[test]
fn elsewhere_is_the_last_part() {
    assert_eq!(shorten_path("/usr/local/bin", Some("/home/me")), "bin");
    assert_eq!(shorten_path("/home/meadow", Some("/home/me")), "meadow");
    assert_eq!(shorten_path("/etc", None), "etc");
}

#[test]
fn root_has_no_last_part() {
    assert_eq!(shorten_path("/", None), "/");
}

#[test]
fn window_title_wins_when_set() {
    assert_eq!(title_or(Some("vim notes.md"), "~".to_string()), "vim notes.md");
    assert_eq!(title_or(Some(""), "~".to_string()), "~");
    assert_eq!(title_or(None, "src".to_string()), "src");
}
