//! A user-picked config file location for an app, for when the XDG-based
//! detection doesn't match where that app's config actually lives (a
//! custom dotfiles setup, a non-default install). It takes priority over
//! the detected default whenever one is set, and each app has its own.
use vstd::prelude::*;

use crate::apps::TerminalApp;
use crate::config_dir::{app_file, app_file_path};
use crate::theme_store::opt_view;

verus! {

/// An app's override record.
pub struct Override {
    pub path: Option<String>,
}

impl Default for Override {
    /// No override.
    fn default() -> (r: Self)
        ensures
            r.path is None,
    {
        Override { path: None }
    }
}

/// Where `app`'s override is kept under the data directory.
pub fn path_for(data_dir: &str, app: TerminalApp) -> (r: String)
    ensures
        r@ == app_file(data_dir@, "config_overrides"@, app),
{
    app_file_path(data_dir, "config_overrides", app)
}

/// The user-picked config path, if one was ever set.
pub fn get(record: &Override) -> (r: Option<String>)
    ensures
        opt_view(r) == opt_view(record.path),
{
    match &record.path {
        Some(p) => Some(p.clone()),
        None => None,
    }
}

/// The record that makes `config_path` the app's config.
pub fn set(config_path: &str) -> (r: Override)
    ensures
        opt_view(r.path) == Some(config_path@),
{
    Override { path: Some(String::from_str(config_path)) }
}

/// The record with no override, so detection applies again.
pub fn clear() -> (r: Override)
    ensures
        r.path is None,
{
    Override::default()
}

} // verus!
