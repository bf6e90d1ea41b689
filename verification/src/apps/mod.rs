//! The three terminal apps Sheets manages, and the logic of reading and
//! writing each one's config.
use vstd::prelude::*;

use crate::config_dir::{
    ghostty_macos_config_path, ghostty_macos_dir_spec, home_unset_message, join_path, path_join};

pub mod alacritty;
pub mod ghostty;
pub mod kitty;

pub use alacritty::AlacrittyAdapter;
pub use ghostty::GhosttyAdapter;
pub use kitty::KittyAdapter;

verus! {

/// A terminal app whose config Sheets edits.
#[derive(Debug, Clone, Copy, PartialEq, Eq, Structural)]
pub enum TerminalApp {
    Ghostty,
    Kitty,
    Alacritty,
}

/// The lowercase name an app goes by in files and messages.
pub open spec fn app_name(app: TerminalApp) -> Seq<char> {
    match app {
        TerminalApp::Ghostty => "ghostty"@,
        TerminalApp::Kitty => "kitty"@,
        TerminalApp::Alacritty => "alacritty"@,
    }
}

impl TerminalApp {
    /// Every app, in the order Sheets lists them.
    pub const ALL: [TerminalApp; 3] = [TerminalApp::Ghostty, TerminalApp::Kitty, TerminalApp::Alacritty];

    /// The lowercase name of the app, which also names its per-app files.
    pub fn as_str(self) -> (r: &'static str)
        ensures
            r@ == app_name(self),
    {
        match self {
            TerminalApp::Ghostty => "ghostty",
            TerminalApp::Kitty => "kitty",
            TerminalApp::Alacritty => "alacritty",
        }
    }
}

/// Different apps have different names, so their per-app files never
/// collide.
pub proof fn lemma_app_names_distinct(a: TerminalApp, b: TerminalApp)
    requires
        a != b,
    ensures
        app_name(a) != app_name(b),
{
    reveal_strlit("ghostty");
    reveal_strlit("kitty");
    reveal_strlit("alacritty");
    assert("ghostty"@.len() == 7);
    assert("kitty"@.len() == 5);
    assert("alacritty"@.len() == 9);
}

/// The folder and file name of an app's config under the XDG config
/// directory.
pub open spec fn xdg_location(app: TerminalApp) -> (Seq<char>, Seq<char>) {
    match app {
        TerminalApp::Ghostty => ("ghostty"@, "config"@),
        TerminalApp::Kitty => ("kitty"@, "kitty.conf"@),
        TerminalApp::Alacritty => ("alacritty"@, "alacritty.toml"@),
    }
}

/// Where an app's config lives under the XDG config directory `home`.
pub open spec fn xdg_config_file(app: TerminalApp, home: Seq<char>) -> Seq<char> {
    path_join(path_join(home, xdg_location(app).0), xdg_location(app).1)
}

impl TerminalApp {
    /// Where this app's config lives under the XDG config directory
    /// `config_home`: `ghostty/config`, `kitty/kitty.conf` or
    /// `alacritty/alacritty.toml`.
    pub fn xdg_config_path(self, config_home: &str) -> (r: String)
        ensures
            r@ == xdg_config_file(self, config_home@),
    {
        let (dir, file) = match self {
            TerminalApp::Ghostty => ("ghostty", "config"),
            TerminalApp::Kitty => ("kitty", "kitty.conf"),
            TerminalApp::Alacritty => ("alacritty", "alacritty.toml"),
        };
        let d = join_path(config_home, dir);
        join_path(d.as_str(), file)
    }
}

/// The config file Sheets edits for an app: the user-picked path when one
/// is set (an error reading the override is reported as is), else the
/// detected one.
pub fn config_path(override_path: Result<Option<String>, String>, detected: Result<String, String>) -> (r: Result<String, String>)
    ensures
        match override_path {
            Err(e) => r == Err::<String, String>(e),
            Ok(Some(p)) => r == Ok::<String, String>(p),
            Ok(None) => r == detected,
        },
{
    match override_path {
        Err(e) => Err(e),
        Ok(Some(p)) => Ok(p),
        Ok(None) => detected,
    }
}

/// Where an app's config is when no override is set. On macOS, Ghostty's
/// is its macOS-native file (`ghostty_macos_config_path`, from `HOME` and
/// whether the file names `config` and `config.ghostty` exist there);
/// otherwise it is the app's file under the XDG config directory
/// `config_home`, an error finding that directory reported as is.
pub fn detected_path(
    app: TerminalApp,
    on_macos: bool,
    home: Option<String>,
    plain_exists: bool,
    dotted_exists: bool,
    config_home: Result<String, String>,
) -> (r: Result<String, String>)
    ensures
        on_macos && app == TerminalApp::Ghostty ==> match r {
            Ok(p) => home is Some && p@ == path_join(
                ghostty_macos_dir_spec(home->Some_0@),
                if plain_exists && !dotted_exists {
                    "config"@
                } else {
                    "config.ghostty"@
                },
            ),
            Err(e) => home is None && e@ == home_unset_message(),
        },
        !(on_macos && app == TerminalApp::Ghostty) ==> match config_home {
            Ok(c) => r is Ok && r->Ok_0@ == xdg_config_file(app, c@),
            Err(e) => r == Err::<String, String>(e),
        },
{
    if on_macos && app == TerminalApp::Ghostty {
        return ghostty_macos_config_path(home, plain_exists, dotted_exists);
    }
    match config_home {
        Ok(c) => Ok(app.xdg_config_path(c.as_str())),
        Err(e) => Err(e),
    }
}

/// What the config of an app currently sets for its font and opacity, as
/// the text written in the file (numbers are read from it by the caller).
pub struct CurrentSettings {
    pub font_family: Option<String>,
    pub font_size: Option<String>,
    pub opacity: Option<String>,
}

} // verus!
