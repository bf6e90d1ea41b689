//! Where config files live. Paths are `/`-separated text; joining follows
//! `PathBuf::join` on Unix: an absolute part replaces the base, otherwise a
//! separator is put between them unless the base is empty or already ends
//! in one.
use vstd::prelude::*;

use crate::apps::{app_name, lemma_app_names_distinct, TerminalApp};
use crate::text::{push_char, string_of, chars_of};
use crate::theme_store::opt_view;

verus! {

// ---------------------------------------------------------------------------
// Specifications
// ---------------------------------------------------------------------------

/// `base` joined with `part`.
pub open spec fn path_join(base: Seq<char>, part: Seq<char>) -> Seq<char> {
    if part.len() > 0 && part[0] == '/' {
        part
    } else if base.len() == 0 || base.last() == '/' {
        base + part
    } else {
        base + seq!['/'] + part
    }
}

/// The XDG config directory given `$XDG_CONFIG_HOME` and `$HOME` (each
/// `None` when unset): a non-empty `$XDG_CONFIG_HOME`, else `~/.config`,
/// else nothing.
pub open spec fn config_home(xdg: Option<Seq<char>>, home: Option<Seq<char>>) -> Option<Seq<char>> {
    if xdg is Some && xdg->Some_0.len() > 0 {
        xdg
    } else if home is Some {
        Some(path_join(home->Some_0, ".config"@))
    } else {
        None
    }
}

/// The file that holds one app's record in a folder of Sheets' data
/// directory: `<data_dir>/<folder>/<app>.json`.
pub open spec fn app_file(data_dir: Seq<char>, folder: Seq<char>, app: TerminalApp) -> Seq<char> {
    path_join(path_join(data_dir, folder), app_name(app) + ".json"@)
}

/// The message when `$HOME` is not set.
pub open spec fn home_unset_message() -> Seq<char> {
    "HOME environment variable is not set"@
}

/// The directory of Ghostty's macOS-native config.
pub open spec fn ghostty_macos_dir_spec(home: Seq<char>) -> Seq<char> {
    path_join(home, "Library/Application Support/com.mitchellh.ghostty"@)
}

// ---------------------------------------------------------------------------
// Lemmas
// ---------------------------------------------------------------------------

/// Two joins onto the same base with different relative parts differ.
pub proof fn lemma_join_distinct(base: Seq<char>, a: Seq<char>, b: Seq<char>)
    requires
        a != b,
        a.len() > 0 && a[0] != '/',
        b.len() > 0 && b[0] != '/',
    ensures
        path_join(base, a) != path_join(base, b),
{
    let pre = if base.len() == 0 || base.last() == '/' {
        base
    } else {
        base + seq!['/']
    };
    assert(path_join(base, a) == pre + a);
    assert(path_join(base, b) == pre + b);
    if pre + a == pre + b {
        assert((pre + a).skip(pre.len() as int) =~= a);
        assert((pre + b).skip(pre.len() as int) =~= b);
    }
}

/// Each app's record lives in a file of its own: the files of two
/// different apps in the same folder are different paths.
pub proof fn lemma_app_files_distinct(data_dir: Seq<char>, folder: Seq<char>, a: TerminalApp, b: TerminalApp)
    requires
        a != b,
    ensures
        app_file(data_dir, folder, a) != app_file(data_dir, folder, b),
{
    lemma_app_names_distinct(a, b);
    reveal_strlit("ghostty");
    reveal_strlit("kitty");
    reveal_strlit("alacritty");
    reveal_strlit(".json");
    let na = app_name(a) + ".json"@;
    let nb = app_name(b) + ".json"@;
    assert(app_name(a).len() > 0);
    assert(app_name(b).len() > 0);
    assert(na[0] == app_name(a)[0]);
    assert(nb[0] == app_name(b)[0]);
    assert(app_name(a)[0] != '/');
    assert(app_name(b)[0] != '/');
    if na == nb {
        assert(".json"@.len() == 5);
        assert(na.take(app_name(a).len() as int) =~= app_name(a));
        assert(nb.take(app_name(b).len() as int) =~= app_name(b));
        assert(app_name(a).len() == app_name(b).len());
    }
    lemma_join_distinct(path_join(data_dir, folder), na, nb);
}

// ---------------------------------------------------------------------------
// Executable code
// ---------------------------------------------------------------------------

/// `base` joined with `part`, as `PathBuf::join` joins them.
pub fn join_path(base: &str, part: &str) -> (r: String)
    ensures
        r@ == path_join(base@, part@),
{
    let b = chars_of(base);
    let p = chars_of(part);
    if p.len() > 0 && p[0] == '/' {
        return string_of(&p);
    }
    let mut r = string_of(&b);
    if b.len() > 0 && b[b.len() - 1] != '/' {
        push_char(&mut r, '/');
    }
    r.append(part);
    r
}

/// The XDG-style config directory used by Ghostty, Kitty, and Alacritty:
/// `$XDG_CONFIG_HOME` when set and non-empty, else `$HOME/.config`; an
/// error when neither is available. Takes the two variables as read (each
/// `None` when unset).
pub fn xdg_config_home(xdg_var: Option<String>, home_var: Option<String>) -> (r: Result<String, String>)
    ensures
        match r {
            Ok(p) => config_home(opt_view(xdg_var), opt_view(home_var)) == Some(p@),
            Err(e) => config_home(opt_view(xdg_var), opt_view(home_var)) is None && e@ == home_unset_message(),
        },
{
    match xdg_var {
        Some(dir) => {
            if chars_of(dir.as_str()).len() > 0 {
                return Ok(dir);
            }
        },
        None => {},
    }
    match home_var {
        Some(home) => Ok(join_path(home.as_str(), ".config")),
        None => Err(String::from_str("HOME environment variable is not set")),
    }
}

/// Sheets' own data directory: `sheets` under the XDG config directory.
pub fn sheets_data_dir(xdg_var: Option<String>, home_var: Option<String>) -> (r: Result<String, String>)
    ensures
        match r {
            Ok(p) => config_home(opt_view(xdg_var), opt_view(home_var)) matches Some(h) && p@ == path_join(h, "sheets"@),
            Err(e) => config_home(opt_view(xdg_var), opt_view(home_var)) is None && e@ == home_unset_message(),
        },
{
    match xdg_config_home(xdg_var, home_var) {
        Ok(home) => Ok(join_path(home.as_str(), "sheets")),
        Err(e) => Err(e),
    }
}

/// The file holding `app`'s record in `folder` of the data directory.
pub fn app_file_path(data_dir: &str, folder: &str, app: TerminalApp) -> (r: String)
    ensures
        r@ == app_file(data_dir@, folder@, app),
{
    let dir = join_path(data_dir, folder);
    let mut name = String::from_str(app.as_str());
    name.append(".json");
    join_path(dir.as_str(), name.as_str())
}

/// The directory of Ghostty's macOS-native config under `home`.
pub fn ghostty_macos_dir(home: &str) -> (r: String)
    ensures
        r@ == ghostty_macos_dir_spec(home@),
{
    join_path(home, "Library/Application Support/com.mitchellh.ghostty")
}

/// Ghostty on macOS loads a macOS-native file after the XDG one, so that
/// file wins any conflict and is the one to edit. Ghostty accepts either
/// `config` or `config.ghostty` there: the one that already exists is
/// used, `config.ghostty` when both or neither do. `plain_exists` and
/// `dotted_exists` tell whether each exists in `ghostty_macos_dir`; an
/// error when `$HOME` is not set.
pub fn ghostty_macos_config_path(home_var: Option<String>, plain_exists: bool, dotted_exists: bool) -> (r: Result<String, String>)
    ensures
        match r {
            Ok(p) => home_var matches Some(h) && p@ == path_join(
                ghostty_macos_dir_spec(h@),
                if plain_exists && !dotted_exists {
                    "config"@
                } else {
                    "config.ghostty"@
                },
            ),
            Err(e) => home_var is None && e@ == home_unset_message(),
        },
{
    match home_var {
        Some(home) => {
            let dir = ghostty_macos_dir(home.as_str());
            if plain_exists && !dotted_exists {
                Ok(join_path(dir.as_str(), "config"))
            } else {
                Ok(join_path(dir.as_str(), "config.ghostty"))
            }
        },
        None => Err(String::from_str("HOME environment variable is not set")),
    }
}

} // verus!
