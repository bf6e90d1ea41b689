//! Per-app day and night theme designations, kept apart from whichever
//! theme is applied right now. Setting one doesn't apply it; it records
//! the designation, and the other side is left as it was.
use vstd::prelude::*;

use crate::apps::TerminalApp;
use crate::config_dir::{app_file, app_file_path};
use crate::theme_store::opt_view;

verus! {

/// The day and night themes designated for one app.
pub struct Assignment {
    pub day_theme_id: Option<String>,
    pub night_theme_id: Option<String>,
}

impl Default for Assignment {
    /// Nothing designated yet.
    fn default() -> (r: Self)
        ensures
            r.day_theme_id is None,
            r.night_theme_id is None,
    {
        Assignment { day_theme_id: None, night_theme_id: None }
    }
}

/// Where `app`'s designations are kept under the data directory.
pub fn path_for(data_dir: &str, app: TerminalApp) -> (r: String)
    ensures
        r@ == app_file(data_dir@, "day_night"@, app),
{
    app_file_path(data_dir, "day_night", app)
}

/// The theme designated for the day, if any.
pub fn get_day_theme_id(a: &Assignment) -> (r: Option<String>)
    ensures
        opt_view(r) == opt_view(a.day_theme_id),
{
    match &a.day_theme_id {
        Some(id) => Some(id.clone()),
        None => None,
    }
}

/// The theme designated for the night, if any.
pub fn get_night_theme_id(a: &Assignment) -> (r: Option<String>)
    ensures
        opt_view(r) == opt_view(a.night_theme_id),
{
    match &a.night_theme_id {
        Some(id) => Some(id.clone()),
        None => None,
    }
}

/// Designates `theme_id` for the day; the night designation is untouched.
pub fn set_day_theme(a: &mut Assignment, theme_id: String)
    ensures
        final(a).day_theme_id == Some(theme_id),
        final(a).night_theme_id == old(a).night_theme_id,
{
    a.day_theme_id = Some(theme_id);
}

/// Designates `theme_id` for the night; the day designation is untouched.
pub fn set_night_theme(a: &mut Assignment, theme_id: String)
    ensures
        final(a).night_theme_id == Some(theme_id),
        final(a).day_theme_id == old(a).day_theme_id,
{
    a.night_theme_id = Some(theme_id);
}

} // verus!
