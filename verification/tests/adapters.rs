use sheets_lib::apps::alacritty::{save_doc, load_doc};
use sheets_lib::apps::{config_path, detected_path, AlacrittyAdapter, GhosttyAdapter, KittyAdapter, TerminalApp};
use sheets_lib::backup::{backup_path, has_backup, snapshot, undo, Restore};
use sheets_lib::kv_config::{KvConfig, KvSyntax};
use sheets_lib::theme::{Period, Theme};
use sheets_lib::theme_store::{get_theme, identify_theme, list_themes, list_themes_for_period};

fn theme(id: &str) -> Theme {
    get_theme(&list_themes(vec![], vec![]), id).expect("built-in theme should exist")
}

fn identified(palette: &sheets_lib::theme::Palette) -> Option<String> {
    identify_theme(&list_themes(vec![], vec![]), palette).map(|t| t.id)
}

/// The text of a file after one edit of its config, read and written back.
fn ghostty_edit(contents: &str, edit: impl FnOnce(&mut KvConfig)) -> String {
    let mut cfg = KvConfig::load(contents, KvSyntax::Equals);
    edit(&mut cfg);
    cfg.save()
}

#[test]
fn adapters_write_expected_config_files() {
    let theme = theme("tokyo-night");

    // Ghostty
    {
        let adapter = GhosttyAdapter;
        let fresh = KvConfig::load("", KvSyntax::Equals);
        assert!(adapter.read_current_palette(&fresh).unwrap().is_none(), "Ghostty should report no palette before anything is applied");
        let contents = ghostty_edit("", |cfg| {
            adapter.apply_theme(cfg, &theme);
            adapter.apply_font(cfg, "JetBrains Mono", "13");
            adapter.apply_opacity(cfg, "0.85");
        });
        let cfg = KvConfig::load(&contents, KvSyntax::Equals);
        let current = adapter.read_current(&cfg);
        assert_eq!(current.font_family.as_deref(), Some("JetBrains Mono"));
        assert_eq!(current.font_size.as_deref(), Some("13"));
        assert_eq!(current.opacity.as_deref(), Some("0.85"));
        assert!(contents.contains("1a1b26"), "Ghostty config should contain the theme's background color:\n{contents}");
        assert_eq!(contents.matches("Managed by Sheets").count(), 1);
        let read_back = adapter.read_current_palette(&cfg).unwrap().expect("Ghostty should report a full palette after apply_theme");
        assert_eq!(read_back.background.to_lowercase(), theme.palette.background.to_lowercase());
        assert_eq!(read_back.foreground.to_lowercase(), theme.palette.foreground.to_lowercase());
        assert_eq!(identified(&read_back), Some("tokyo-night".to_string()));
        let again = ghostty_edit(&contents, |cfg| adapter.apply_theme(cfg, &theme));
        assert_eq!(again.matches(&theme.palette.background).count(), 1);
        let third = ghostty_edit(&again, |cfg| adapter.apply_theme(cfg, &theme));
        assert_eq!(third, again, "re-applying the same theme right away changes nothing");
    }

    // Kitty
    {
        let adapter = KittyAdapter;
        let fresh = KvConfig::load("", KvSyntax::Space);
        assert!(adapter.read_current_palette(&fresh).unwrap().is_none());
        let mut cfg = fresh;
        adapter.apply_theme(&mut cfg, &theme);
        adapter.apply_font(&mut cfg, "JetBrains Mono", "13");
        adapter.apply_opacity(&mut cfg, "0.85");
        let contents = cfg.save();
        let cfg = KvConfig::load(&contents, KvSyntax::Space);
        let current = adapter.read_current(&cfg);
        assert_eq!(current.font_family.as_deref(), Some("JetBrains Mono"));
        assert_eq!(current.font_size.as_deref(), Some("13"));
        assert_eq!(current.opacity.as_deref(), Some("0.85"));
        assert!(contents.contains("background #1a1b26"), "Kitty config should contain the theme's background color:\n{contents}");
        assert_eq!(contents.matches("Managed by Sheets").count(), 1);
        let read_back = adapter.read_current_palette(&cfg).unwrap().expect("Kitty should report a full palette after apply_theme");
        assert_eq!(read_back.background, theme.palette.background);
        assert_eq!(identified(&read_back), Some("tokyo-night".to_string()));
        let mut again = KvConfig::load(&contents, KvSyntax::Space);
        adapter.apply_theme(&mut again, &theme);
        let again = again.save();
        assert_eq!(again.matches(&theme.palette.background).count(), 1);
        let mut third = KvConfig::load(&again, KvSyntax::Space);
        adapter.apply_theme(&mut third, &theme);
        assert_eq!(third.save(), again, "re-applying the same theme right away changes nothing");
    }

    // Alacritty
    {
        let adapter = AlacrittyAdapter;
        let fresh = load_doc("").unwrap();
        assert!(adapter.read_current_palette(&fresh).unwrap().is_none());
        let mut doc = fresh;
        adapter.apply_theme(&mut doc, &theme).expect("apply_theme should succeed");
        adapter.apply_font_family(&mut doc, "JetBrains Mono").expect("apply_font should succeed");
        let contents = save_doc(&doc);
        let doc = load_doc(&contents).unwrap();
        assert_eq!(adapter.read_font_family(&doc).as_deref(), Some("JetBrains Mono"));
        assert!(contents.contains("\"#1a1b26\""), "Alacritty config should contain the theme's background color:\n{contents}");
        assert!(!contents.contains("[colors]\n"), "intermediate tables stay implicit:\n{contents}");
        let read_back = adapter.read_current_palette(&doc).unwrap().expect("Alacritty should report a full palette after apply_theme");
        assert_eq!(read_back.background, theme.palette.background);
        assert_eq!(identified(&read_back), Some("tokyo-night".to_string()));
        let mut again = load_doc(&contents).unwrap();
        adapter.apply_theme(&mut again, &theme).expect("second apply_theme should succeed");
        let again = save_doc(&again);
        assert_eq!(again.matches(&theme.palette.background).count(), 1);
    }
}

#[test]
fn ghostty_preserves_hand_written_lines_outside_the_managed_block() {
    let theme = theme("solarized-light");
    let contents = ghostty_edit("keybind = ctrl+shift+c=copy\n# a comment\n", |cfg| GhosttyAdapter.apply_theme(cfg, &theme));
    assert!(contents.contains("keybind = ctrl+shift+c=copy"));
    assert!(contents.contains("# a comment"));
    assert!(contents.contains("background = fdf6e3"));
}

#[test]
fn ghostty_apply_theme_clears_a_conflicting_hand_written_theme_directive() {
    let theme = theme("tokyo-night");
    let contents = ghostty_edit(
        "theme = dark:Apple System Colors, light:Apple System Colors Light\nfont-family = Menlo\n",
        |cfg| GhosttyAdapter.apply_theme(cfg, &theme),
    );
    assert!(!contents.contains("theme ="), "the conflicting theme directive should be removed:\n{contents}");
    assert!(contents.contains("font-family = Menlo"), "unrelated hand-written lines should survive");
    assert!(contents.contains("background = 1a1b26"));
}

#[test]
fn ghostty_apply_theme_overrides_a_hand_written_palette_ghostty_actually_keeps() {
    let hand_written = "\
macos-titlebar-style = native
background-opacity = 0.8

foreground = #d3c6aa
background = #1e2326
cursor-color = #e69875
palette = 0=#7a8478
palette = 1=#e67e80
palette = 2=#a7c080
palette = 3=#dbbc7f
palette = 4=#7fbbb3
palette = 5=#d699b6
palette = 6=#83c092
palette = 7=#f2efdf
palette = 8=#a6b0a0
palette = 9=#f85552
palette = 10=#8da101
palette = 11=#dfa000
palette = 12=#3a94c5
palette = 13=#df69ba
palette = 14=#35a77c
palette = 15=#fffbef
";
    let theme = theme("tokyo-night");
    let contents = ghostty_edit(hand_written, |cfg| GhosttyAdapter.apply_theme(cfg, &theme));
    let count_key = |key: &str| contents.lines().filter(|l| l.trim_start().starts_with(&format!("{key} = "))).count();
    assert_eq!(count_key("background"), 1, "only one background definition should remain:\n{contents}");
    assert_eq!(count_key("foreground"), 1, "only one foreground definition should remain:\n{contents}");
    assert!(!contents.contains("#1e2326"), "the old hand-written background must be gone:\n{contents}");
    assert!(contents.contains("background = 1a1b26"), "the new theme's background must be present:\n{contents}");
    assert!(contents.contains("macos-titlebar-style = native"), "unrelated hand-written settings must survive");
}

#[test]
fn ghostty_manages_the_macos_application_support_file_not_xdg() {
    let detected = sheets_lib::config_dir::ghostty_macos_config_path(Some("/scratch".to_string()), false, false);
    assert_eq!(detected.clone().unwrap(), "/scratch/Library/Application Support/com.mitchellh.ghostty/config.ghostty");
    let xdg = TerminalApp::Ghostty.xdg_config_path("/scratch");
    assert_ne!(config_path(Ok(None), detected).unwrap(), xdg, "Sheets should not use the XDG file on macOS");
}

#[test]
fn day_and_night_period_queries_filter_by_variant() {
    let day = list_themes_for_period(list_themes(vec![], vec![]), Period::Day);
    assert!(day.iter().any(|t| t.id == "solarized-light"), "Day should include the Light theme");
    assert!(!day.iter().any(|t| t.id == "tokyo-night"), "Day should exclude the Dark theme");

    let night = list_themes_for_period(list_themes(vec![], vec![]), Period::Night);
    assert!(night.iter().any(|t| t.id == "tokyo-night"), "Night should include the Dark theme");
    assert!(!night.iter().any(|t| t.id == "solarized-light"), "Night should exclude the Light theme");
}

#[test]
fn identify_theme_returns_none_for_unrecognized_colors() {
    let mut custom = theme("tokyo-night").palette;
    custom.background = "ffffff".into();
    assert!(identify_theme(&list_themes(vec![], vec![]), &custom).is_none());
}

/// Applies an undo's restore to a file's state (`None` when absent).
fn restore(action: Restore) -> Option<String> {
    match action {
        Restore::Write(text) => Some(text),
        Restore::Remove => None,
    }
}

#[test]
fn undo_restores_the_hand_written_config_that_preceded_a_change() {
    let original = "keybind = ctrl+shift+c=copy\nfont-family = Menlo\n";
    let mut point = None;
    assert!(!has_backup(&point));
    point = Some(snapshot(Some(original.to_string())));
    assert!(has_backup(&point));

    let theme = theme("tokyo-night");
    let changed = ghostty_edit(original, |cfg| GhosttyAdapter.apply_theme(cfg, &theme));
    assert_ne!(changed, original, "sanity check: the apply should have changed the file");

    let file = restore(undo(&mut point).unwrap());
    assert_eq!(file.as_deref(), Some(original));
    assert!(!has_backup(&point), "undo should consume the backup");
}

#[test]
fn undo_removes_a_config_that_did_not_exist_before_the_change() {
    let mut point = Some(snapshot(None));
    let file = restore(undo(&mut point).unwrap());
    assert!(file.is_none(), "undo should remove a config Sheets created from nothing");
}

#[test]
fn undo_with_nothing_to_undo_is_an_error() {
    let mut point = None;
    assert!(!has_backup(&point));
    assert_eq!(undo(&mut point).err().unwrap(), "nothing to undo");
}

#[test]
fn a_second_undo_in_a_row_has_nothing_to_do() {
    let mut point = Some(snapshot(Some("x = 1\n".to_string())));
    assert!(undo(&mut point).is_ok());
    assert!(undo(&mut point).is_err());
}

#[test]
fn each_app_keeps_its_undo_point_in_its_own_file() {
    assert_eq!(backup_path("/data/sheets", TerminalApp::Kitty), "/data/sheets/backups/kitty.json");
    assert_ne!(backup_path("/d", TerminalApp::Ghostty), backup_path("/d", TerminalApp::Alacritty));
}

#[test]
fn kitty_keeps_the_users_lines_and_reads_them_when_nothing_is_managed() {
    let cfg = KvConfig::load("font_family Fira Code\nbackground_opacity 0.9\n", KvSyntax::Space);
    let current = KittyAdapter.read_current(&cfg);
    assert_eq!(current.font_family.as_deref(), Some("Fira Code"));
    assert_eq!(current.opacity.as_deref(), Some("0.9"));
    assert_eq!(current.font_size, None);
}

#[test]
fn ghostty_reports_a_malformed_palette_entry() {
    let mut text = String::from("background = 000000\nforeground = ffffff\n");
    for i in 0..15 {
        text.push_str(&format!("palette = {i}=111111\n"));
    }
    text.push_str("palette = 99=222222\n");
    let cfg = KvConfig::load(&text, KvSyntax::Equals);
    assert_eq!(GhosttyAdapter.read_current_palette(&cfg).unwrap_err(), "palette index out of range: 99=222222");
}

#[test]
fn alacritty_refuses_to_write_into_a_non_table() {
    let mut doc = load_doc("colors = 3\n").unwrap();
    let err = AlacrittyAdapter.apply_theme(&mut doc, &theme("tokyo-night")).unwrap_err();
    assert!(err.contains("[colors.primary]"), "unexpected error: {err}");
    assert!(load_doc("a = [").is_err());
}

#[test]
fn alacritty_apply_keeps_everything_it_does_not_write() {
    let original = "# my config\n[window]\nopacity = 0.9\n\n[colors]\ndraw_bold_text_with_bright_colors = true\n\n[colors.primary]\ndim_foreground = \"#828482\"\nbackground = \"#000000\"\n\n[colors.hints]\nstart = { foreground = \"#1d1f21\", background = \"#e9ff5e\" }\n";
    let mut doc = load_doc(original).unwrap();
    AlacrittyAdapter.apply_theme(&mut doc, &theme("tokyo-night")).unwrap();
    AlacrittyAdapter.apply_font_family(&mut doc, "Iosevka").unwrap();
    let contents = save_doc(&doc);
    for kept in [
        "# my config",
        "[window]\nopacity = 0.9",
        "[colors]\ndraw_bold_text_with_bright_colors = true",
        "dim_foreground = \"#828482\"",
        "[colors.hints]\nstart = { foreground = \"#1d1f21\", background = \"#e9ff5e\" }",
    ] {
        assert!(contents.contains(kept), "lost {kept:?}:\n{contents}");
    }
    assert!(contents.contains("background = \"#1a1b26\""), "{contents}");
    assert!(!contents.contains("#000000"), "{contents}");
    assert!(contents.contains("[font.normal]\nfamily = \"Iosevka\""), "{contents}");
    assert!(!contents.contains("[font]\n"), "a new [font] stays implicit:\n{contents}");
}

#[test]
fn alacritty_new_color_tables_get_their_own_headers_only() {
    let mut doc = load_doc("").unwrap();
    AlacrittyAdapter.apply_theme(&mut doc, &theme("tokyo-night")).unwrap();
    let contents = save_doc(&doc);
    for header in ["[colors.primary]", "[colors.normal]", "[colors.bright]"] {
        assert_eq!(contents.matches(header).count(), 1, "{header} once:\n{contents}");
    }
    assert!(!contents.contains("[colors]"), "no bare [colors] header:\n{contents}");
}

#[test]
fn ghostty_round_trip_through_a_file_with_blank_lines_above_the_block() {
    let theme = theme("tokyo-night");
    let text = format!(
        "font-size = 12\nbackground = 000000\n\n\n{}\npalette = 0=111111\nbackground-opacity = 0.9\n",
        sheets_lib::kv_config::MANAGED_MARKER
    );
    let saved = ghostty_edit(&text, |cfg| GhosttyAdapter.apply_theme(cfg, &theme));
    let cfg = KvConfig::load(&saved, KvSyntax::Equals);
    let p = GhosttyAdapter.read_current_palette(&cfg).unwrap().expect("a full palette");
    assert_eq!(p.background, theme.palette.background);
    assert_eq!(p.foreground, theme.palette.foreground);
    assert_eq!(p.ansi, theme.palette.ansi);
    assert_eq!(cfg.get("font-size").as_deref(), Some("12"));
    assert_eq!(cfg.get("background-opacity").as_deref(), Some("0.9"));
    assert_eq!(saved.matches("Managed by Sheets").count(), 1);
}

#[test]
fn kitty_round_trip_through_a_file_with_blank_lines_above_the_block() {
    let theme = theme("tokyo-night");
    let text = format!(
        "font_size 12\nbackground #000000\n\n\n{}\ncolor0 #111111\nbackground_opacity 0.9\n",
        sheets_lib::kv_config::MANAGED_MARKER
    );
    let mut cfg = KvConfig::load(&text, KvSyntax::Space);
    KittyAdapter.apply_theme(&mut cfg, &theme);
    let saved = cfg.save();
    let cfg = KvConfig::load(&saved, KvSyntax::Space);
    let p = KittyAdapter.read_current_palette(&cfg).unwrap().expect("a full palette");
    assert_eq!(p.background, theme.palette.background);
    assert_eq!(p.foreground, theme.palette.foreground);
    assert_eq!(p.ansi, theme.palette.ansi);
    assert_eq!(cfg.get("font_size").as_deref(), Some("12"));
    assert_eq!(cfg.get("background_opacity").as_deref(), Some("0.9"));
    assert_eq!(saved.matches("Managed by Sheets").count(), 1);
}

#[test]
fn the_detected_config_path_depends_on_platform_and_app() {
    let home = Some("/scratch".to_string());
    let xdg = Ok("/scratch/.config".to_string());
    assert_eq!(
        detected_path(TerminalApp::Ghostty, true, home.clone(), true, false, xdg.clone()).unwrap(),
        "/scratch/Library/Application Support/com.mitchellh.ghostty/config"
    );
    assert_eq!(
        detected_path(TerminalApp::Ghostty, false, home.clone(), true, false, xdg.clone()).unwrap(),
        "/scratch/.config/ghostty/config"
    );
    assert_eq!(
        detected_path(TerminalApp::Kitty, true, home.clone(), false, false, xdg.clone()).unwrap(),
        "/scratch/.config/kitty/kitty.conf"
    );
    assert!(detected_path(TerminalApp::Ghostty, true, None, false, false, xdg).is_err());
    assert_eq!(
        detected_path(TerminalApp::Alacritty, false, home, false, false, Err("no config dir".to_string())),
        Err("no config dir".to_string())
    );
}

#[test]
fn alacritty_load_doc_reads_the_given_text() {
    let doc = load_doc("[font.normal]\nfamily = \"Iosevka\"\n").unwrap();
    assert_eq!(AlacrittyAdapter.read_font_family(&doc).as_deref(), Some("Iosevka"));
    let empty = load_doc("").unwrap();
    assert_eq!(AlacrittyAdapter.read_font_family(&empty), None);
    assert!(load_doc("[font\n").unwrap_err().len() > 0);
}
