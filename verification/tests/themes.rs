use sheets_lib::theme::{Palette, Period, Theme, ThemeSource, ThemeVariant};
use sheets_lib::theme_store::{
    built_in_themes, export_theme_manifest, get_theme, identify_theme, list_exportable_themes, list_themes,
    list_themes_for_period, palettes_match, remove_user_theme, save_user_theme, slugify, dashed_words_of,
};

fn sample_palette() -> Palette {
    Palette {
        background: "101010".into(),
        foreground: "efefef".into(),
        cursor: None,
        selection_background: None,
        selection_foreground: None,
        ansi: [
            "000000", "aa0000", "00aa00", "aa5500", "0000aa", "aa00aa", "00aaaa", "aaaaaa", "555555", "ff5555",
            "55ff55", "ffff55", "5555ff", "ff55ff", "55ffff", "ffffff",
        ]
        .map(String::from),
    }
}

/// Saves a theme the way the app does: against the full current list.
fn save(user: Vec<Theme>, name: &str, variant: ThemeVariant, palette: Palette) -> Result<(Theme, Vec<Theme>), String> {
    let listed = list_themes(vec![], user.clone());
    save_user_theme(user, &listed, name.to_string(), variant, palette)
}

#[test]
fn save_user_theme_is_listed_and_exportable() {
    let (created, user) = save(vec![], "My Spooky Theme", ThemeVariant::Dark, sample_palette()).unwrap();
    assert_eq!(created.id, "my-spooky-theme");
    assert_eq!(created.source, ThemeSource::UserInstalled);
    assert!(created.git_url.is_none());

    let all = list_themes(vec![], user);
    let listed = get_theme(&all, "my-spooky-theme").unwrap();
    assert_eq!(listed.palette.background, "101010");

    let exported = export_theme_manifest(&all, "my-spooky-theme").unwrap();
    assert_eq!(exported.name, "My Spooky Theme");
    assert_eq!(exported.variant, ThemeVariant::Dark);
    assert_eq!(exported.palette.background, "101010");
}

#[test]
fn built_in_themes_cannot_be_exported() {
    let all = list_themes(vec![], vec![]);
    let err = export_theme_manifest(&all, "tokyo-night").err().unwrap();
    assert!(err.contains("isn't a user-created theme"), "unexpected error: {err}");
}

#[test]
fn exporting_an_unknown_theme_is_an_error() {
    let all = list_themes(vec![], vec![]);
    assert_eq!(export_theme_manifest(&all, "nope").err().unwrap(), "no theme with id \"nope\"");
}

#[test]
fn saving_a_theme_named_after_a_builtin_is_rejected() {
    let err = save(vec![], "Tokyo Night", ThemeVariant::Dark, sample_palette()).unwrap_err();
    assert!(err.contains("pre-installed theme"), "unexpected error: {err}");
    let all = list_themes(vec![], vec![]);
    assert!(get_theme(&all, "tokyo-night").unwrap().source == ThemeSource::BuiltIn, "the original must be untouched");

    let (saved, _) = save(vec![], "Tokyo Night (edited)", ThemeVariant::Dark, sample_palette()).unwrap();
    assert_eq!(saved.source, ThemeSource::UserInstalled);
}

#[test]
fn saving_a_theme_under_an_existing_user_themes_name_overwrites_it() {
    let (_, user) = save(vec![], "My Theme", ThemeVariant::Dark, sample_palette()).unwrap();

    let mut edited = sample_palette();
    edited.background = "202020".into();
    let (updated, user) = save(user, "My Theme", ThemeVariant::Light, edited).unwrap();
    assert_eq!(updated.variant, ThemeVariant::Light);

    let all = list_themes(vec![], user);
    let listed = get_theme(&all, "my-theme").unwrap();
    assert_eq!(listed.palette.background, "202020");
    assert_eq!(all.iter().filter(|t| t.id == "my-theme").count(), 1);
}

#[test]
fn empty_theme_name_is_rejected() {
    assert!(save(vec![], "   ", ThemeVariant::Both, sample_palette()).is_err());
    assert_eq!(save(vec![], "", ThemeVariant::Both, sample_palette()).unwrap_err(), "theme name can't be empty");
}

#[test]
fn removing_a_user_theme_takes_it_off_the_list() {
    let (_, user) = save(vec![], "Mine", ThemeVariant::Dark, sample_palette()).unwrap();
    let rest = remove_user_theme(user.clone(), "mine").unwrap();
    assert!(rest.is_empty());
    let all = list_themes(vec![], rest);
    assert!(get_theme(&all, "mine").is_err());
    assert_eq!(remove_user_theme(user, "other").unwrap_err(), "no user-installed theme with id \"other\"");
}

#[test]
fn theme_ids_are_slugs_of_their_names() {
    assert_eq!(slugify("Tokyo Night"), "tokyo-night");
    assert_eq!(slugify("  3024 -- Day!! "), "3024-day");
    assert_eq!(slugify("Tokyo Night (edited)"), "tokyo-night-edited");
    assert_eq!(slugify("***"), "");
    assert_eq!(slugify("Café Noir"), "café-noir");
}

#[test]
fn dashed_words_collapse_runs_and_keep_case() {
    assert_eq!(dashed_words_of("tokyo night (edited)"), "tokyo-night-edited");
    assert_eq!(dashed_words_of("--a--b--"), "a-b");
    assert_eq!(dashed_words_of("   "), "");
    assert_eq!(dashed_words_of("My Theme"), "My-Theme");
    assert_eq!(dashed_words_of("3024-day"), "3024-day");
    for text in ["  3024 -- Day!! ", "a__b", "--", "Ünïcode ☃ names"] {
        let once = dashed_words_of(text);
        assert_eq!(dashed_words_of(&once), once, "collapsing {text:?} twice");
    }
}

#[test]
fn the_list_is_built_ins_then_bundled_then_user_themes() {
    let (_, user) = save(vec![], "Zed", ThemeVariant::Light, sample_palette()).unwrap();
    let bundled = vec![Theme {
        id: "ghostty-x".into(),
        name: "X".into(),
        variant: ThemeVariant::Dark,
        source: ThemeSource::BuiltIn,
        git_url: None,
        palette: sample_palette(),
    }];
    let ids: Vec<String> = list_themes(bundled, user).into_iter().map(|t| t.id).collect();
    assert_eq!(ids, vec!["tokyo-night", "solarized-light", "ghostty-x", "zed"]);
}

#[test]
fn only_user_themes_are_exportable() {
    let (_, user) = save(vec![], "Zed", ThemeVariant::Light, sample_palette()).unwrap();
    let ids: Vec<String> = list_exportable_themes(list_themes(vec![], user)).into_iter().map(|t| t.id).collect();
    assert_eq!(ids, vec!["zed"]);
}

#[test]
fn a_saved_theme_is_identified_by_its_colors() {
    let (_, user) = save(vec![], "Mine", ThemeVariant::Dark, sample_palette()).unwrap();
    let all = list_themes(vec![], user);
    let mut p = sample_palette();
    p.background = "101010".to_uppercase();
    assert_eq!(identify_theme(&all, &p).map(|t| t.id), Some("mine".to_string()));
    assert!(palettes_match(&all[0].palette, &built_in_themes()[0].palette));
}

#[test]
fn period_filters_keep_both_variant_themes() {
    let (_, user) = save(vec![], "Any", ThemeVariant::Both, sample_palette()).unwrap();
    let all = list_themes(vec![], user);
    let day: Vec<String> = list_themes_for_period(all.clone(), Period::Day).into_iter().map(|t| t.id).collect();
    let night: Vec<String> = list_themes_for_period(all, Period::Night).into_iter().map(|t| t.id).collect();
    assert_eq!(day, vec!["solarized-light", "any"]);
    assert_eq!(night, vec!["tokyo-night", "any"]);
}

#[test]
fn importing_an_exported_theme_recreates_it() {
    let (created, user) = save(vec![], "Round Trip", ThemeVariant::Light, sample_palette()).unwrap();
    let m = export_theme_manifest(&list_themes(vec![], user.clone()), "round-trip").unwrap();
    let (imported, _) = save(vec![], &m.name, m.variant, m.palette).unwrap();
    assert_eq!(imported.id, created.id);
    assert_eq!(imported.name, created.name);
    assert_eq!(imported.variant, created.variant);
    assert_eq!(imported.palette.background, created.palette.background);
    assert_eq!(imported.palette.ansi, created.palette.ansi);
}
