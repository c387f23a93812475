use el_terminal::settings::{
    assemble_catalog, complete_presets, DialogAction, DialogEvent, SettingsDialog, ThemeFile,
    adjusted_font_size, default_ask_prefix, default_ask_share_terminal_context, default_theme_id,
    order_catalog, theme_at, theme_by_id, theme_ids, theme_labels, theme_position,
    theme_wheel_step, upsert_theme, complete_preset, AppSettings, FormValues, ThemePreset,
    FONT_SIZE_DEFAULT, FONT_SIZE_MAX, FONT_SIZE_MIN,
};

fn preset(id: &str, label: &str, default: bool, style: u32) -> ThemePreset<u32> {
    ThemePreset { id: id.to_string(), label: label.to_string(), default, style }
}

fn catalog() -> Vec<ThemePreset<u32>> {
    vec![
        preset("nord", "Nord", false, 1),
        preset("glass-dark", "Glass Dark", true, 2),
        preset("light", "Light", false, 3),
    ]
}

fn settings_with(theme: &str) -> AppSettings {
    let mut s = AppSettings::default_for(&catalog());
    s.theme = theme.to_string();
    s
}

#[test]
fn defaults_for_a_fresh_install() {
    let s = AppSettings::default_for(&catalog());
    assert_eq!(s.theme, "glass-dark");
    assert_eq!(s.font_size, FONT_SIZE_DEFAULT);
    assert_eq!(s.font_family, "JetBrains Mono");
    assert_eq!(s.llm_endpoint, "https://api.openai.com/v1");
    assert_eq!(s.llm_api_key, "");
    assert_eq!(s.llm_model, "gpt-4o-mini");
    assert_eq!(s.ask_prefix, "??");
    assert!(!s.ask_share_terminal_context);
    assert_eq!(default_ask_prefix(), "??");
    assert!(!default_ask_share_terminal_context());
}

#[test]
fn default_theme_is_the_marked_one_else_the_first() {
    assert_eq!(default_theme_id(&catalog()), "glass-dark");
    let unmarked = vec![preset("a", "A", false, 0), preset("b", "B", false, 0)];
    assert_eq!(default_theme_id(&unmarked), "a");
}

#[test]
fn ids_and_labels_in_catalog_order() {
    assert_eq!(theme_ids(&catalog()), vec!["nord", "glass-dark", "light"]);
    assert_eq!(theme_labels(&catalog()), vec!["Nord", "Glass Dark", "Light"]);
}

#[test]
fn lookup_by_id() {
    let c = catalog();
    assert_eq!(theme_by_id(&c, "light").map(|p| p.style), Some(3));
    assert!(theme_by_id(&c, "missing").is_none());
}

#[test]
fn upsert_replaces_same_id_and_appends_new() {
    let mut c = catalog();
    upsert_theme(&mut c, preset("nord", "Nord 2", false, 9));
    assert_eq!(c.len(), 3);
    assert_eq!(c[0].label, "Nord 2");
    assert_eq!(c[0].style, 9);
    upsert_theme(&mut c, preset("solarized", "Solarized", false, 4));
    assert_eq!(c.len(), 4);
    assert_eq!(c[3].id, "solarized");
    assert_eq!(theme_by_id(&c, "nord").map(|p| p.style), Some(9));
}

#[test]
fn order_puts_default_first() {
    let mut c = catalog();
    order_catalog(&mut c);
    assert_eq!(theme_ids(&c), vec!["glass-dark", "nord", "light"]);
    let mut none = vec![preset("x", "X", false, 0), preset("y", "Y", false, 0)];
    order_catalog(&mut none);
    assert_eq!(theme_ids(&none), vec!["x", "y"]);
}

#[test]
fn completes_blank_id_and_label() {
    let mut p = preset("  ", "", false, 0);
    complete_preset(&mut p, Some("ocean"));
    assert_eq!(p.id, "ocean");
    assert_eq!(p.label, "ocean");
    let mut q = preset("", "Named", false, 0);
    complete_preset(&mut q, None);
    assert_eq!(q.id, "theme");
    assert_eq!(q.label, "Named");
}

#[test]
fn normalize_fills_blanks_and_clamps() {
    let c = catalog();
    let mut s = settings_with("unknown");
    s.font_size = 99;
    s.font_family = "   ".to_string();
    s.llm_endpoint = "http://localhost:11434/v1///".to_string();
    s.llm_model = "".to_string();
    s.ask_prefix = "  #?  ".to_string();
    s.normalize(&c);
    assert_eq!(s.theme, "glass-dark");
    assert_eq!(s.font_size, FONT_SIZE_MAX);
    assert_eq!(s.font_family, "JetBrains Mono");
    assert_eq!(s.llm_endpoint, "http://localhost:11434/v1");
    assert_eq!(s.llm_model, "gpt-4o-mini");
    assert_eq!(s.ask_prefix, "#?");

    let mut t = settings_with("nord");
    t.font_size = 2;
    t.llm_endpoint = "///".to_string();
    t.ask_prefix = " ".to_string();
    t.normalize(&c);
    assert_eq!(t.theme, "nord");
    assert_eq!(t.font_size, FONT_SIZE_MIN);
    assert_eq!(t.llm_endpoint, "https://api.openai.com/v1");
    assert_eq!(t.ask_prefix, "??");
}

#[test]
fn normalize_twice_is_normalize_once() {
    let c = catalog();
    let mut s = settings_with("bogus");
    s.font_size = 0;
    s.llm_endpoint = "https://x/v1/".to_string();
    s.ask_prefix = "\t?? ".to_string();
    s.normalize(&c);
    let once = s.clone();
    s.normalize(&c);
    assert_eq!(s.theme, once.theme);
    assert_eq!(s.font_size, once.font_size);
    assert_eq!(s.font_family, once.font_family);
    assert_eq!(s.llm_endpoint, once.llm_endpoint);
    assert_eq!(s.llm_model, once.llm_model);
    assert_eq!(s.ask_prefix, once.ask_prefix);
}

#[test]
fn apply_theme_preset_known_and_unknown() {
    let c = catalog();
    let mut s = settings_with("nord");
    assert_eq!(s.apply_theme_preset(&c, "light"), 2);
    assert_eq!(s.theme, "light");
    assert_eq!(s.apply_theme_preset(&c, "nope"), 1);
    assert_eq!(s.theme, "glass-dark");
}

#[test]
fn font_description_lists_fallbacks() {
    let mut s = settings_with("nord");
    s.font_family = "  Hack ".to_string();
    s.font_size = 13;
    assert_eq!(
        s.font_description(),
        "Hack 13, Fira Code 13, Cascadia Code 13, monospace 13"
    );
}

#[test]
fn llm_configured_needs_endpoint_and_key() {
    let mut s = settings_with("nord");
    assert!(!s.llm_configured());
    s.llm_api_key = "   ".to_string();
    assert!(!s.llm_configured());
    s.llm_api_key = "sk-1".to_string();
    assert!(s.llm_configured());
    s.llm_endpoint = String::new();
    assert!(!s.llm_configured());
}

#[test]
fn clamp_font_size_bounds() {
    assert_eq!(AppSettings::clamp_font_size(1), 8);
    assert_eq!(AppSettings::clamp_font_size(12), 12);
    assert_eq!(AppSettings::clamp_font_size(40), 32);
}

#[test]
fn ctrl_scroll_zoom_steps() {
    assert_eq!(adjusted_font_size(11, 1), Some(12));
    assert_eq!(adjusted_font_size(11, -1), Some(10));
    assert_eq!(adjusted_font_size(32, 1), None);
    assert_eq!(adjusted_font_size(8, -1), None);
    assert_eq!(adjusted_font_size(40, 0), Some(32));
}

#[test]
fn theme_list_position_and_entry() {
    let c = catalog();
    assert_eq!(theme_position(&c, "light"), 2);
    assert_eq!(theme_position(&c, "gone"), 0);
    assert_eq!(theme_at(&c, 0), "nord");
    assert_eq!(theme_at(&c, 7), "glass-dark");
}

#[test]
fn wheel_moves_within_the_list() {
    assert_eq!(theme_wheel_step(0, 3, true, false), Some(1));
    assert_eq!(theme_wheel_step(2, 3, true, false), None);
    assert_eq!(theme_wheel_step(2, 3, false, true), Some(1));
    assert_eq!(theme_wheel_step(0, 3, false, true), None);
    assert_eq!(theme_wheel_step(0, 0, true, false), None);
    assert_eq!(theme_wheel_step(1, 3, false, false), None);
}

fn form(theme_index: usize) -> FormValues {
    FormValues {
        theme_index,
        font_size: 50,
        font_family: "Iosevka".to_string(),
        llm_endpoint: "http://localhost:11434/v1/".to_string(),
        llm_api_key: "key".to_string(),
        llm_model: "llama3".to_string(),
        ask_prefix: " #? ".to_string(),
        ask_share_terminal_context: true,
    }
}

#[test]
fn saving_the_form_with_a_new_theme_applies_its_preset() {
    let c = catalog();
    let prev = settings_with("nord");
    let out = prev.from_form(&c, form(2));
    assert_eq!(out.preset, Some(2));
    assert_eq!(out.settings.theme, "light");
    assert_eq!(out.settings.font_size, 32);
    assert_eq!(out.settings.font_family, "Iosevka");
    assert_eq!(out.settings.llm_endpoint, "http://localhost:11434/v1");
    assert_eq!(out.settings.llm_api_key, "key");
    assert_eq!(out.settings.llm_model, "llama3");
    assert_eq!(out.settings.ask_prefix, "#?");
    assert!(out.settings.ask_share_terminal_context);
}

#[test]
fn saving_the_form_with_the_same_theme_keeps_the_style() {
    let c = catalog();
    let prev = settings_with("nord");
    let out = prev.from_form(&c, form(0));
    assert_eq!(out.preset, None);
    assert_eq!(out.settings.theme, "nord");
}

#[test]
fn huge_font_size_reads_as_negative_and_clamps_to_minimum() {
    assert_eq!(adjusted_font_size(u32::MAX, 1), Some(8));
}

#[test]
fn saving_the_same_form_twice_applies_the_preset_once() {
    let c = catalog();
    let first = settings_with("nord").from_form(&c, form(2));
    assert_eq!(first.preset, Some(2));
    let second = first.settings.from_form(&c, form(2));
    assert_eq!(second.preset, None);
    assert_eq!(second.settings.theme, first.settings.theme);
    assert_eq!(second.settings.ask_prefix, first.settings.ask_prefix);
    assert_eq!(second.settings.llm_endpoint, first.settings.llm_endpoint);
}

fn file(id: &str, label: &str, default: bool, style: u32, stem: &str) -> ThemeFile<u32> {
    ThemeFile { preset: preset(id, label, default, style), stem: Some(stem.to_string()) }
}

#[test]
fn catalog_from_theme_files() {
    let files = vec![
        file("nord", "Nord", false, 1, "nord"),
        file("", "", false, 2, "ocean"),
        file("glass", "Glass", true, 3, "glass"),
        file("nord", "Nord (user)", false, 4, "nord"),
    ];
    let catalog = assemble_catalog(complete_presets(files));
    assert_eq!(theme_ids(&catalog), vec!["glass", "ocean", "nord"]);
    assert_eq!(theme_labels(&catalog), vec!["Glass", "ocean", "Nord (user)"]);
    assert_eq!(theme_by_id(&catalog, "nord").map(|p| p.style), Some(4));
}

#[test]
fn dialog_previews_reverts_and_saves_once() {
    let c = catalog();
    let mut d = SettingsDialog::open(&settings_with("nord"));
    match d.step(&c, DialogEvent::Choose(2)) {
        DialogAction::Preview { settings, preset } => {
            assert_eq!(settings.theme, "light");
            assert_eq!(preset, 2);
        }
        _ => panic!("expected a preview"),
    }
    assert!(matches!(d.step(&c, DialogEvent::CloseRequest), DialogAction::Revert));
    assert!(matches!(d.step(&c, DialogEvent::Cancel), DialogAction::RevertAndClose));
    match d.step(&c, DialogEvent::Save(form(1))) {
        DialogAction::Commit(out) => {
            assert_eq!(out.settings.theme, "glass-dark");
            assert_eq!(out.preset, Some(1));
        }
        _ => panic!("expected a commit"),
    }
    assert!(matches!(d.step(&c, DialogEvent::CloseRequest), DialogAction::Nothing));
    assert!(matches!(d.step(&c, DialogEvent::Cancel), DialogAction::Close));
}
