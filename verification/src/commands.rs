//! What the app's commands decide, apart from the files and windows they
//! touch: the app list entries, the day/night themes shown for an app, the
//! validation before a day/night designation, the theme an app's live
//! colors identify, and the hand-off of "Edit Current Theme" seed colors to
//! the Create Theme window.
use vstd::prelude::*;

use crate::apps::TerminalApp;
use crate::day_night::{self, Assignment};
use crate::theme::{Palette, Theme, ThemeVariant};
use crate::theme_store::{get_theme, identify_theme, index_of_colors, index_of_id, no_theme_error};

verus! {

// ---------------------------------------------------------------------------
// The app list
// ---------------------------------------------------------------------------

/// One entry of the app list.
pub struct AppInfo {
    pub app: TerminalApp,
    pub installed: bool,
    pub config_path: Option<String>,
}

/// The entry for `app`, given where its config lives (or why that can't be
/// told) and whether a file is there: installed when the file exists.
pub fn app_info(app: TerminalApp, config_path: Result<String, String>, exists: bool) -> (r: AppInfo)
    ensures
        r.app == app,
        r.installed == (config_path is Ok && exists),
        r.config_path == match config_path {
            Ok(p) => Some(p),
            Err(_) => None::<String>,
        },
{
    match config_path {
        Ok(p) => AppInfo { app, installed: exists, config_path: Some(p) },
        Err(_) => AppInfo { app, installed: false, config_path: None },
    }
}

// ---------------------------------------------------------------------------
// Day and night themes
// ---------------------------------------------------------------------------

/// The themes designated for day and night use on an app.
pub struct DayNightThemes {
    pub day: Option<Theme>,
    pub night: Option<Theme>,
}

/// The theme a designation names, among `themes`: none when nothing is
/// designated or no theme has that id (any more).
pub open spec fn designated(themes: Seq<Theme>, id: Option<String>) -> Option<Theme> {
    match id {
        Some(i) => if index_of_id(themes, i@) >= 0 {
            Some(themes[index_of_id(themes, i@)])
        } else {
            None
        },
        None => None,
    }
}

/// The theme an id names, if any.
fn theme_named(themes: &Vec<Theme>, id: &Option<String>) -> (r: Option<Theme>)
    ensures
        r == designated(themes@, *id),
{
    match id {
        Some(i) => match get_theme(themes, i.as_str()) {
            Ok(t) => Some(t),
            Err(_) => None,
        },
        None => None,
    }
}

/// The themes designated for day and night on an app whose designations
/// are `a`, looked up among `themes`.
pub fn get_day_night_themes(themes: &Vec<Theme>, a: &Assignment) -> (r: DayNightThemes)
    ensures
        r.day == designated(themes@, a.day_theme_id),
        r.night == designated(themes@, a.night_theme_id),
{
    DayNightThemes { day: theme_named(themes, &a.day_theme_id), night: theme_named(themes, &a.night_theme_id) }
}

/// Designates `theme_id` for the day, when some theme has that id;
/// otherwise an error, and nothing changes.
pub fn set_day_theme(themes: &Vec<Theme>, a: &mut Assignment, theme_id: String) -> (r: Result<(), String>)
    ensures
        r is Ok <==> index_of_id(themes@, theme_id@) >= 0,
        r is Ok ==> final(a).day_theme_id == Some(theme_id) && final(a).night_theme_id == old(a).night_theme_id,
        r matches Err(e) ==> *final(a) == *old(a) && e@ == no_theme_error(theme_id@),
{
    match get_theme(themes, theme_id.as_str()) {
        Ok(_) => {
            day_night::set_day_theme(a, theme_id);
            Ok(())
        },
        Err(e) => Err(e),
    }
}

/// Designates `theme_id` for the night, when some theme has that id;
/// otherwise an error, and nothing changes.
pub fn set_night_theme(themes: &Vec<Theme>, a: &mut Assignment, theme_id: String) -> (r: Result<(), String>)
    ensures
        r is Ok <==> index_of_id(themes@, theme_id@) >= 0,
        r is Ok ==> final(a).night_theme_id == Some(theme_id) && final(a).day_theme_id == old(a).day_theme_id,
        r matches Err(e) ==> *final(a) == *old(a) && e@ == no_theme_error(theme_id@),
{
    match get_theme(themes, theme_id.as_str()) {
        Ok(_) => {
            day_night::set_night_theme(a, theme_id);
            Ok(())
        },
        Err(e) => Err(e),
    }
}

// ---------------------------------------------------------------------------
// The current theme
// ---------------------------------------------------------------------------

/// The theme an app's live colors match, if it has a full palette that
/// matches a known theme; `None` covers both "nothing applied yet" and
/// "hand-edited, unknown colors".
pub fn get_current_theme(themes: &Vec<Theme>, live: Option<Palette>) -> (r: Option<Theme>)
    ensures
        match live {
            Some(p) => match r {
                Some(t) => index_of_colors(themes@, p) >= 0 && t == themes@[index_of_colors(themes@, p)],
                None => index_of_colors(themes@, p) == -1,
            },
            None => r is None,
        },
{
    match live {
        Some(p) => identify_theme(themes, &p),
        None => None,
    }
}

// ---------------------------------------------------------------------------
// "Edit Current Theme" hand-off
// ---------------------------------------------------------------------------

/// The colors, name and variant the Create Theme window starts from.
pub struct EditSeed {
    pub name: String,
    pub variant: ThemeVariant,
    pub palette: Palette,
}

/// The seed waiting for the Create Theme window, if any. The main window
/// stashes one just before opening that window, which takes it once on
/// load; a plain "Create Theme" finds none and opens blank.
pub struct EditSeedState(pub Option<EditSeed>);

/// The state after stashing `seed`.
pub open spec fn stashed(seed: EditSeed) -> EditSeedState {
    EditSeedState(Some(seed))
}

/// Taking from a state: the seed it holds, and the state left behind.
pub open spec fn taken(s: EditSeedState) -> (Option<EditSeed>, EditSeedState) {
    (s.0, EditSeedState(None))
}

/// Stashes `seed` for the next Create Theme window, replacing any other.
pub fn set_edit_seed(seed: EditSeed, state: &mut EditSeedState)
    ensures
        *final(state) == stashed(seed),
{
    state.0 = Some(seed);
}

/// Takes the stashed seed, leaving none.
pub fn take_edit_seed(state: &mut EditSeedState) -> (r: Option<EditSeed>)
    ensures
        (r, *final(state)) == taken(*old(state)),
{
    state.0.take()
}

/// A stashed seed is handed over exactly once: the first take gives it
/// back, and a second take finds nothing.
pub proof fn lemma_seed_taken_once(seed: EditSeed)
    ensures
        taken(stashed(seed)).0 == Some(seed),
        taken(taken(stashed(seed)).1).0 is None,
{
}

} // verus!
