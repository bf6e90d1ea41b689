use sheets_lib::ghostty_import::{
    background_channels, bundled_themes_dir, candidate_dirs, list_bundled_themes, parse_theme_file,
};
use sheets_lib::theme::{Palette, ThemeSource, ThemeVariant};

const DARK_THEME: &str = "\
palette = 0=#262427
palette = 1=#ff666d
palette = 2=#b3e03a
palette = 3=#ffc739
palette = 4=#00cde8
palette = 5=#a392e8
palette = 6=#9deaf6
palette = 7=#fcfcfa
palette = 8=#545452
palette = 9=#ff7e83
palette = 10=#bee55e
palette = 11=#ffd05e
palette = 12=#1bd5eb
palette = 13=#b0a3eb
palette = 14=#acedf8
palette = 15=#fcfcfa
background = #262427
foreground = #fcfcfa
cursor-color = #fcfcfa
selection-background = #fcfcfa
selection-foreground = #262427
";

const LIGHT_THEME: &str = "\
palette = 0=#1a1a1a
palette = 1=#cc372e
palette = 2=#26a439
palette = 3=#cdac08
palette = 4=#0869cb
palette = 5=#9647bf
palette = 6=#479ec2
palette = 7=#98989d
palette = 8=#464646
palette = 9=#ff453a
palette = 10=#32d74b
palette = 11=#e5bc00
palette = 12=#0a84ff
palette = 13=#bf5af2
palette = 14=#69c9f2
palette = 15=#ffffff
background = #feffff
foreground = #000000
cursor-color = #98989d
selection-background = #abd8ff
selection-foreground = #000000
";

/// The variant a palette's background suggests: light when its relative
/// luminance is above one half.
fn guess_variant(palette: &Palette) -> ThemeVariant {
    match background_channels(palette) {
        Some((r, g, b)) => {
            let l = 0.2126f32 * (r as f32 / 255.0) + 0.7152f32 * (g as f32 / 255.0) + 0.0722f32 * (b as f32 / 255.0);
            if l > 0.5 {
                ThemeVariant::Light
            } else {
                ThemeVariant::Dark
            }
        }
        None => ThemeVariant::Dark,
    }
}

#[test]
fn parses_a_real_ghostty_theme_file() {
    let palette = parse_theme_file(DARK_THEME).unwrap();
    assert_eq!(palette.background, "262427");
    assert_eq!(palette.foreground, "fcfcfa");
    assert_eq!(palette.ansi[0], "262427");
    assert_eq!(palette.ansi[15], "fcfcfa");
}

#[test]
fn rejects_a_file_missing_palette_entries() {
    let truncated = "background = #000000\nforeground = #ffffff\npalette = 0=#000000\n";
    assert!(parse_theme_file(truncated).is_none());
}

#[test]
fn guesses_dark_and_light_variants_from_background_luminance() {
    assert_eq!(guess_variant(&parse_theme_file(DARK_THEME).unwrap()), ThemeVariant::Dark);
    assert_eq!(guess_variant(&parse_theme_file(LIGHT_THEME).unwrap()), ThemeVariant::Light);
}

#[test]
fn themes_in_dir_reads_every_file_and_slugifies_names_with_spaces() {
    let files = [("3024 Day", LIGHT_THEME), ("Aardvark Blue", DARK_THEME), ("not-a-theme.txt", "garbage, not key=value at all")];
    let mut found = Vec::new();
    for (name, contents) in files {
        if let Some(palette) = parse_theme_file(contents) {
            let variant = guess_variant(&palette);
            found.push((name.to_string(), palette, variant));
        }
    }
    let themes = list_bundled_themes(found);
    assert_eq!(themes.len(), 2, "the malformed file should be skipped, not error");
    assert!(themes.iter().any(|t| t.id == "ghostty-3024-day" && t.variant == ThemeVariant::Light));
    assert!(themes.iter().any(|t| t.id == "ghostty-aardvark-blue" && t.variant == ThemeVariant::Dark));
    assert!(themes.iter().all(|t| t.source == ThemeSource::BuiltIn));
}

#[test]
fn the_last_line_for_a_color_wins_and_hashes_are_stripped() {
    let text = format!("{DARK_THEME}background = ##123456  \npalette = 3 = #abcdef\n# background = ffffff\n");
    let palette = parse_theme_file(&text).unwrap();
    assert_eq!(palette.background, "123456");
    assert_eq!(palette.ansi[3], "abcdef");
    assert_eq!(palette.cursor.as_deref(), Some("fcfcfa"));
    assert_eq!(palette.selection_foreground.as_deref(), Some("262427"));
}

#[test]
fn out_of_range_palette_slots_are_ignored() {
    let text = "background = #000000\nforeground = #ffffff\npalette = 16=#123456\n";
    assert!(parse_theme_file(text).is_none());
    let full = format!("{LIGHT_THEME}palette = 16=#123456\npalette = x=#123456\n");
    assert_eq!(parse_theme_file(&full).unwrap().ansi[15], "ffffff");
}

#[test]
fn a_file_without_background_is_rejected() {
    let text: String = DARK_THEME.lines().filter(|l| !l.starts_with("background")).map(|l| format!("{l}\n")).collect();
    assert!(parse_theme_file(&text).is_none());
}

#[test]
fn background_channels_read_six_hex_digits() {
    let mut p = parse_theme_file(LIGHT_THEME).unwrap();
    assert_eq!(background_channels(&p), Some((0xfe, 0xff, 0xff)));
    p.background = "12345".to_string();
    assert_eq!(background_channels(&p), None);
    p.background = "12345g".to_string();
    assert_eq!(background_channels(&p), None);
    p.background = "AbCdEf".to_string();
    assert_eq!(background_channels(&p), Some((0xab, 0xcd, 0xef)));
}

#[test]
fn bundled_themes_come_out_in_name_order() {
    let dark = parse_theme_file(DARK_THEME).unwrap();
    let found = vec![
        ("Zenburn".to_string(), dark.clone(), ThemeVariant::Dark),
        ("Aardvark Blue".to_string(), dark.clone(), ThemeVariant::Dark),
        ("Monokai".to_string(), dark, ThemeVariant::Dark),
    ];
    let names: Vec<String> = list_bundled_themes(found).into_iter().map(|t| t.name).collect();
    assert_eq!(names, vec!["Aardvark Blue", "Monokai", "Zenburn"]);
}

#[test]
fn the_first_existing_candidate_directory_is_used() {
    let dirs = candidate_dirs(Some("/home/me".to_string()));
    assert_eq!(dirs.len(), 5);
    assert_eq!(dirs[0], "/home/me/Applications/Ghostty.app/Contents/Resources/ghostty/themes");
    assert_eq!(dirs[4], "/usr/lib/ghostty/themes");
    assert_eq!(candidate_dirs(None).len(), 4);
    let home = Some("/home/me".to_string());
    assert_eq!(bundled_themes_dir(home.clone(), vec![false, false, true, true, true]), Some("/usr/share/ghostty/themes".to_string()));
    assert_eq!(
        bundled_themes_dir(home.clone(), vec![true, true]),
        Some("/home/me/Applications/Ghostty.app/Contents/Resources/ghostty/themes".to_string())
    );
    assert_eq!(bundled_themes_dir(None, vec![false, false, false, true]), Some("/usr/lib/ghostty/themes".to_string()));
    assert_eq!(bundled_themes_dir(home.clone(), vec![false; 5]), None);
    assert_eq!(bundled_themes_dir(home, vec![false, false]), None, "a candidate without a flag is not used");
}
