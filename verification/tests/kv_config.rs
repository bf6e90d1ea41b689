use sheets_lib::kv_config::{KvConfig, KvSyntax};

fn empty(syntax: KvSyntax) -> KvConfig {
    KvConfig { prefix_lines: vec![], managed_lines: vec![], syntax }
}

#[test]
fn set_then_get_returns_the_new_value() {
    let mut cfg = empty(KvSyntax::Equals);
    cfg.set("background", "1a1b26");
    assert_eq!(cfg.get("background"), Some("1a1b26".to_string()));
}

#[test]
fn set_replaces_rather_than_duplicates() {
    let mut cfg = empty(KvSyntax::Equals);
    cfg.set("background", "111111");
    cfg.set("background", "222222");
    assert_eq!(cfg.managed_lines.len(), 1);
    assert_eq!(cfg.get("background"), Some("222222".to_string()));
}

#[test]
fn push_allows_repeated_keys_like_ghostty_palette() {
    let mut cfg = empty(KvSyntax::Equals);
    cfg.unset("palette");
    cfg.push("palette", "0=000000");
    cfg.push("palette", "1=ff0000");
    assert_eq!(cfg.managed_lines.len(), 2);
}

#[test]
fn save_then_load_preserves_user_lines_and_managed_values() {
    let mut cfg = KvConfig::load("keybind = ctrl+c=copy\n# a user comment\n", KvSyntax::Equals);
    cfg.set("font-size", "13");
    let contents = cfg.save();

    let reloaded = KvConfig::load(&contents, KvSyntax::Equals);
    assert_eq!(reloaded.get("font-size"), Some("13".to_string()));
    assert!(contents.contains("keybind = ctrl+c=copy"));
    assert!(contents.contains("# a user comment"));
}

#[test]
fn rendering_puts_managed_lines_after_the_marker() {
    let mut cfg = KvConfig::load("a = 1\n", KvSyntax::Equals);
    cfg.set("b", "2");
    assert_eq!(cfg.save(), "a = 1\n\n# --- Managed by Sheets: everything below this line is regenerated on each apply ---\nb = 2\n");
}

#[test]
fn blank_lines_above_the_marker_are_not_the_users() {
    let mut cfg = KvConfig::load("a = 1\n\n\n", KvSyntax::Equals);
    cfg.set("b", "2");
    let text = cfg.save();
    assert!(text.starts_with("a = 1\n\n\n\n# --- Managed"));
    let back = KvConfig::load(&text, KvSyntax::Equals);
    assert_eq!(back.prefix_lines, vec!["a = 1".to_string()]);
    assert_eq!(back.managed_lines, vec!["b = 2".to_string()]);
}

#[test]
fn load_of_rendered_text_gives_back_both_parts() {
    let cfg = KvConfig {
        prefix_lines: vec!["x = 1".to_string(), "# note".to_string()],
        managed_lines: vec!["y = 2".to_string(), "y = 3".to_string()],
        syntax: KvSyntax::Equals,
    };
    let back = KvConfig::load(&cfg.save(), KvSyntax::Equals);
    assert_eq!(back.prefix_lines, cfg.prefix_lines);
    assert_eq!(back.managed_lines, cfg.managed_lines);
}

#[test]
fn an_empty_config_renders_as_one_newline() {
    assert_eq!(empty(KvSyntax::Space).save(), "\n");
}

#[test]
fn managed_values_win_over_the_users_own() {
    let mut cfg = KvConfig::load("background #000000\n", KvSyntax::Space);
    assert_eq!(cfg.get("background"), Some("#000000".to_string()));
    cfg.set("background", "#ffffff");
    assert_eq!(cfg.get("background"), Some("#ffffff".to_string()));
    assert_eq!(cfg.prefix_lines, vec!["background #000000".to_string()]);
}

#[test]
fn get_all_lists_repeated_values_in_order() {
    let mut cfg = empty(KvSyntax::Equals);
    cfg.push("palette", "0=000000");
    cfg.push("palette", "1=ff0000");
    assert_eq!(cfg.get_all("palette"), vec!["0=000000".to_string(), "1=ff0000".to_string()]);
    cfg.unset("palette");
    assert!(cfg.get_all("palette").is_empty());
}

#[test]
fn clear_key_drops_the_users_lines_too() {
    let mut cfg = KvConfig::load("theme = dracula\nfont-family = Menlo\n", KvSyntax::Equals);
    cfg.clear_key("theme");
    assert_eq!(cfg.get("theme"), None);
    assert_eq!(cfg.get("font-family"), Some("Menlo".to_string()));
}

#[test]
fn lines_are_parsed_and_formatted_per_syntax() {
    assert_eq!(KvSyntax::Equals.parse("  a =  b=c "), Some(("a".to_string(), "b=c".to_string())));
    assert_eq!(KvSyntax::Space.parse("font_size   13"), Some(("font_size".to_string(), "13".to_string())));
    assert_eq!(KvSyntax::Equals.parse("# comment = x"), None);
    assert_eq!(KvSyntax::Equals.parse("   "), None);
    assert_eq!(KvSyntax::Equals.parse("novalue"), None);
    assert_eq!(KvSyntax::Equals.format("a", "b"), "a = b");
    assert_eq!(KvSyntax::Space.format("a", "b"), "a b");
}

#[test]
fn crlf_line_endings_are_read_like_str_lines() {
    let cfg = KvConfig::load("a = 1\r\nb = 2\r", KvSyntax::Equals);
    assert_eq!(cfg.prefix_lines, vec!["a = 1".to_string(), "b = 2\r".to_string()]);
    assert_eq!(cfg.get("b"), Some("2".to_string()));
}
