use sheets_lib::apps::{config_path, TerminalApp};
use sheets_lib::commands::{
    app_info, get_current_theme, get_day_night_themes, set_day_theme, set_edit_seed, set_night_theme, take_edit_seed,
    EditSeed, EditSeedState,
};
use sheets_lib::config_dir::{ghostty_macos_config_path, join_path, sheets_data_dir, xdg_config_home};
use sheets_lib::config_override::{self, Override};
use sheets_lib::day_night::{self, get_day_theme_id, get_night_theme_id, Assignment};
use sheets_lib::fonts::sorted_families;
use sheets_lib::theme::ThemeVariant;
use sheets_lib::theme_store::list_themes;

#[test]
fn override_persists_and_clears_independently_per_app() {
    let mut ghostty = Override::default();
    let kitty = Override::default();
    assert_eq!(config_override::get(&ghostty), None);

    ghostty = config_override::set("/custom/path/config");
    assert_eq!(config_override::get(&ghostty), Some("/custom/path/config".to_string()));
    assert_eq!(config_override::get(&kitty), None, "overrides are per app");
    assert_ne!(
        config_override::path_for("/d", TerminalApp::Ghostty),
        config_override::path_for("/d", TerminalApp::Kitty),
        "overrides are per app"
    );

    ghostty = config_override::clear();
    assert_eq!(config_override::get(&ghostty), None);
}

#[test]
fn day_and_night_are_independent_and_persist_separately_per_app() {
    let mut ghostty = Assignment::default();
    let kitty = Assignment::default();
    assert_eq!(get_day_theme_id(&ghostty), None);
    assert_eq!(get_night_theme_id(&ghostty), None);

    day_night::set_day_theme(&mut ghostty, "solarized-light".into());
    assert_eq!(get_day_theme_id(&ghostty), Some("solarized-light".to_string()));
    assert_eq!(get_night_theme_id(&ghostty), None, "setting day shouldn't touch night");

    day_night::set_night_theme(&mut ghostty, "tokyo-night".into());
    assert_eq!(get_night_theme_id(&ghostty), Some("tokyo-night".to_string()));
    assert_eq!(get_day_theme_id(&ghostty), Some("solarized-light".to_string()), "setting night shouldn't clear day");

    assert_eq!(get_day_theme_id(&kitty), None, "assignments are per app");
    assert_eq!(day_night::path_for("/d", TerminalApp::Kitty), "/d/day_night/kitty.json");
}

#[test]
fn designating_an_unknown_theme_is_refused() {
    let themes = list_themes(vec![], vec![]);
    let mut a = Assignment::default();
    assert_eq!(set_day_theme(&themes, &mut a, "nope".into()).unwrap_err(), "no theme with id \"nope\"");
    assert_eq!(get_day_theme_id(&a), None);
    set_night_theme(&themes, &mut a, "tokyo-night".into()).unwrap();
    set_day_theme(&themes, &mut a, "solarized-light".into()).unwrap();
    let shown = get_day_night_themes(&themes, &a);
    assert_eq!(shown.day.map(|t| t.id), Some("solarized-light".to_string()));
    assert_eq!(shown.night.map(|t| t.id), Some("tokyo-night".to_string()));
}

#[test]
fn a_designation_whose_theme_is_gone_shows_nothing() {
    let themes = list_themes(vec![], vec![]);
    let mut a = Assignment::default();
    day_night::set_day_theme(&mut a, "deleted-theme".into());
    assert!(get_day_night_themes(&themes, &a).day.is_none());
}

#[test]
fn the_xdg_directory_comes_from_the_environment() {
    assert_eq!(xdg_config_home(Some("/x".into()), Some("/home/me".into())).unwrap(), "/x");
    assert_eq!(xdg_config_home(Some("".into()), Some("/home/me".into())).unwrap(), "/home/me/.config");
    assert_eq!(xdg_config_home(None, Some("/home/me/".into())).unwrap(), "/home/me/.config");
    assert_eq!(xdg_config_home(None, None).unwrap_err(), "HOME environment variable is not set");
    assert_eq!(sheets_data_dir(None, Some("/h".into())).unwrap(), "/h/.config/sheets");
}

#[test]
fn paths_join_like_pathbuf() {
    assert_eq!(join_path("/a", "b"), "/a/b");
    assert_eq!(join_path("/a/", "b"), "/a/b");
    assert_eq!(join_path("", "b"), "b");
    assert_eq!(join_path("/a", "/b"), "/b");
}

#[test]
fn each_app_has_its_xdg_config_file() {
    assert_eq!(TerminalApp::Ghostty.xdg_config_path("/c"), "/c/ghostty/config");
    assert_eq!(TerminalApp::Kitty.xdg_config_path("/c"), "/c/kitty/kitty.conf");
    assert_eq!(TerminalApp::Alacritty.xdg_config_path("/c"), "/c/alacritty/alacritty.toml");
    assert_eq!(TerminalApp::Alacritty.as_str(), "alacritty");
}

#[test]
fn an_override_takes_priority_over_the_detected_path() {
    assert_eq!(config_path(Ok(Some("/mine".into())), Ok("/auto".into())).unwrap(), "/mine");
    assert_eq!(config_path(Ok(None), Ok("/auto".into())).unwrap(), "/auto");
    assert_eq!(config_path(Err("bad override".into()), Ok("/auto".into())).unwrap_err(), "bad override");
}

#[test]
fn ghostty_on_macos_edits_the_file_that_exists() {
    let dir = "/h/Library/Application Support/com.mitchellh.ghostty";
    assert_eq!(ghostty_macos_config_path(Some("/h".into()), true, false).unwrap(), format!("{dir}/config"));
    assert_eq!(ghostty_macos_config_path(Some("/h".into()), true, true).unwrap(), format!("{dir}/config.ghostty"));
    assert_eq!(ghostty_macos_config_path(Some("/h".into()), false, false).unwrap(), format!("{dir}/config.ghostty"));
    assert!(ghostty_macos_config_path(None, false, false).is_err());
}

#[test]
fn app_list_entries_say_whether_the_config_exists() {
    let e = app_info(TerminalApp::Kitty, Ok("/c/kitty/kitty.conf".into()), true);
    assert!(e.installed);
    assert_eq!(e.config_path.as_deref(), Some("/c/kitty/kitty.conf"));
    let e = app_info(TerminalApp::Kitty, Err("HOME environment variable is not set".into()), true);
    assert!(!e.installed);
    assert!(e.config_path.is_none());
}

#[test]
fn the_current_theme_needs_a_full_palette() {
    let themes = list_themes(vec![], vec![]);
    assert!(get_current_theme(&themes, None).is_none());
    let p = themes[1].palette.clone();
    assert_eq!(get_current_theme(&themes, Some(p)).map(|t| t.id), Some("solarized-light".to_string()));
}

#[test]
fn an_edit_seed_is_taken_once() {
    let themes = list_themes(vec![], vec![]);
    let mut state = EditSeedState(None);
    assert!(take_edit_seed(&mut state).is_none());
    set_edit_seed(EditSeed { name: "Mine".into(), variant: ThemeVariant::Dark, palette: themes[0].palette.clone() }, &mut state);
    assert_eq!(take_edit_seed(&mut state).map(|s| s.name), Some("Mine".to_string()));
    assert!(take_edit_seed(&mut state).is_none());
}

#[test]
fn font_families_are_sorted_without_repeats() {
    let families = vec!["Menlo".to_string(), "Fira Code".to_string(), "Menlo".to_string(), "Courier".to_string()];
    assert_eq!(sorted_families(families), vec!["Courier", "Fira Code", "Menlo"]);
    assert!(sorted_families(vec![]).is_empty());
}

#[test]
fn installed_font_families_come_out_in_order() {
    if let Ok(families) = sheets_lib::fonts::list_font_families() {
        assert!(families.windows(2).all(|w| w[0] < w[1]));
    }
}
