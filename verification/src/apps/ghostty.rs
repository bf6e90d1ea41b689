//! Ghostty's config: flat `key = value` lines, with the 16 ANSI colors as
//! repeated `palette = N=COLOR` lines.
use vstd::prelude::*;

use crate::apps::CurrentSettings;
use crate::kv_config::{
    lemma_format_sets, lemma_set_dropped_key, lemma_strip_all, lemma_strip_concat, lemma_strip_none,
    lemma_strip_then_without, lemma_strip_twice, line_has_key, sets_one_of, strip_keys, format_line, lemma_clear_frame, lemma_push_frame, lemma_set_frame, lemma_unset_frame,
    lookup, lookup_all, sviews, valid_key, without_key, all_values, KvConfig, KvSyntax,
    all_storable, lemma_format_line_storable, lemma_loaded_lines, lemma_save_load_lookups, lemma_trimmed_storable,
    lemma_without_key_keeps_lines, loaded_managed, loaded_prefix, marker, plain_user_lines, rendered, storable};
use crate::text::{
    chars_of, decimal, extend, find_char, has_char, is_char, is_digit, is_ws, lemma_first_index,
    lemma_first_index_at, lemma_parse_decimal, lemma_trim_shape, parse_usize, parse_usize_chars, slice_of,
    small_decimal, split_once, string_of, trim, trimmed, lines};
use crate::theme::{empty_ansi, single_line_colors, Palette, PaletteView, Theme};
use crate::theme_store::opt_view;

verus! {

/// Ghostty's config adapter.
pub struct GhosttyAdapter;

// ---------------------------------------------------------------------------
// Specifications
// ---------------------------------------------------------------------------

/// The `palette` value for ANSI slot `i`: `N=COLOR`.
pub open spec fn palette_value(i: nat, color: Seq<char>) -> Seq<char> {
    decimal(i) + seq!['='] + color
}

/// The slot and color of a `palette` value, when its index is a number
/// below 16 (the color trimmed).
pub open spec fn entry_parts(e: Seq<char>) -> Option<(nat, Seq<char>)> {
    match split_once(e, is_char('=')) {
        Some(parts) => match parse_usize(trim(parts.0)) {
            Some(i) => if i < 16 {
                Some((i, trim(parts.1)))
            } else {
                None
            },
            None => None,
        },
        None => None,
    }
}

/// Why a `palette` value can't be read.
pub open spec fn entry_error(e: Seq<char>) -> Seq<char> {
    match split_once(e, is_char('=')) {
        None => "malformed palette entry: "@ + e,
        Some(parts) => if parse_usize(trim(parts.0)) is None {
            "bad palette index in: "@ + e
        } else {
            "palette index out of range: "@ + e
        },
    }
}

/// The index of the first `palette` value that can't be read, or -1.
pub open spec fn first_bad(es: Seq<Seq<char>>) -> int
    decreases es.len(),
{
    if es.len() == 0 {
        -1
    } else if entry_parts(es[0]) is None {
        0
    } else {
        let r = first_bad(es.drop_first());
        if r < 0 {
            -1
        } else {
            r + 1
        }
    }
}

/// The color the `palette` values give slot `i`: the last one for it wins;
/// empty if none names it.
pub open spec fn entry_color(es: Seq<Seq<char>>, i: nat) -> Seq<char>
    decreases es.len(),
{
    if es.len() == 0 {
        Seq::empty()
    } else {
        match entry_parts(es.last()) {
            Some(parts) => if parts.0 == i {
                parts.1
            } else {
                entry_color(es.drop_last(), i)
            },
            None => entry_color(es.drop_last(), i),
        }
    }
}

/// What a config looks up for `key`.
pub open spec fn kv(cfg: KvConfig, key: Seq<char>) -> Option<Seq<char>> {
    lookup(cfg.syntax, cfg.prefix(), cfg.managed(), key)
}

/// Every value a config gives the repeated `key`.
pub open spec fn kv_all(cfg: KvConfig, key: Seq<char>) -> Seq<Seq<char>> {
    lookup_all(cfg.syntax, cfg.prefix(), cfg.managed(), key)
}

/// The keys of the settings that `apply_theme` owns.
pub open spec fn theme_keys() -> Set<Seq<char>> {
    set![
        "theme"@,
        "background"@,
        "foreground"@,
        "cursor-color"@,
        "selection-background"@,
        "selection-foreground"@,
        "palette"@,
    ]
}

/// The lines left after dropping those that set Ghostty's own `theme`, the
/// background, the foreground, the palette, and (where the theme sets them)
/// the cursor and selection colors: Ghostty would let such lines override
/// the applied colors.
pub open spec fn without_theme_keys(ls: Seq<Seq<char>>, t: Theme) -> Seq<Seq<char>> {
    let e = KvSyntax::Equals;
    let p1 = without_key(e, without_key(e, without_key(e, without_key(e, ls, "theme"@), "background"@), "foreground"@), "palette"@);
    let p2 = if t.palette.cursor is Some { without_key(e, p1, "cursor-color"@) } else { p1 };
    let p3 = if t.palette.selection_background is Some { without_key(e, p2, "selection-background"@) } else { p2 };
    if t.palette.selection_foreground is Some { without_key(e, p3, "selection-foreground"@) } else { p3 }
}

/// Managed lines after setting `key` to `value`.
pub open spec fn set_line(ls: Seq<Seq<char>>, key: Seq<char>, value: Seq<char>) -> Seq<Seq<char>> {
    without_key(KvSyntax::Equals, ls, key).push(format_line(KvSyntax::Equals, key, value))
}

/// Managed lines after setting `key` to `value`, if there is one.
pub open spec fn set_opt(ls: Seq<Seq<char>>, key: Seq<char>, value: Option<String>) -> Seq<Seq<char>> {
    match value {
        Some(v) => set_line(ls, key, v@),
        None => ls,
    }
}

/// The sixteen `palette` lines of a palette, in slot order.
pub open spec fn palette_lines(p: Palette) -> Seq<Seq<char>> {
    Seq::new(16, |i: int| format_line(KvSyntax::Equals, "palette"@, palette_value(i as nat, p.ansi@[i]@)))
}

/// The managed lines after applying theme `t`: the overriding lines
/// dropped, the colors set, and the palette replaced by the theme's 16
/// entries.
pub open spec fn applied_managed(m: Seq<Seq<char>>, t: Theme) -> Seq<Seq<char>> {
    let p = t.palette;
    let m1 = without_theme_keys(m, t);
    let m2 = set_line(set_line(m1, "background"@, p.background@), "foreground"@, p.foreground@);
    let m3 = set_opt(set_opt(set_opt(m2, "cursor-color"@, p.cursor), "selection-background"@, p.selection_background), "selection-foreground"@, p.selection_foreground);
    without_key(KvSyntax::Equals, m3, "palette"@) + palette_lines(p)
}

/// What reading the palette of a config with these lines gives: nothing
/// unless it sets a background, a foreground and exactly 16 `palette`
/// entries; an error for the first entry that isn't `N=COLOR` with `N`
/// below 16; otherwise the colors, each slot from the last entry for it.
pub open spec fn read_palette(s: KvSyntax, prefix: Seq<Seq<char>>, managed: Seq<Seq<char>>) -> Result<Option<PaletteView>, Seq<char>> {
    let bg = lookup(s, prefix, managed, "background"@);
    let fg = lookup(s, prefix, managed, "foreground"@);
    let es = lookup_all(s, prefix, managed, "palette"@);
    if bg is None || fg is None || es.len() != 16 {
        Ok(None)
    } else if first_bad(es) >= 0 {
        Err(entry_error(es[first_bad(es)]))
    } else {
        Ok(Some(PaletteView {
            background: bg.unwrap(),
            foreground: fg.unwrap(),
            cursor: lookup(s, prefix, managed, "cursor-color"@),
            selection_background: lookup(s, prefix, managed, "selection-background"@),
            selection_foreground: lookup(s, prefix, managed, "selection-foreground"@),
            ansi: Seq::new(16, |i: int| entry_color(es, i as nat)),
        }))
    }
}

/// The text of a palette read's result.
pub open spec fn read_view(r: Result<Option<Palette>, String>) -> Result<Option<PaletteView>, Seq<char>> {
    match r {
        Ok(Some(p)) => Ok(Some(p@)),
        Ok(None) => Ok(None),
        Err(e) => Err(e@),
    }
}

/// Is every color of the palette written without whitespace at its ends?
pub open spec fn trimmed_colors(p: Palette) -> bool {
    &&& trim(p.background@) == p.background@
    &&& trim(p.foreground@) == p.foreground@
    &&& (p.cursor matches Some(c) ==> trim(c@) == c@)
    &&& (p.selection_background matches Some(c) ==> trim(c@) == c@)
    &&& (p.selection_foreground matches Some(c) ==> trim(c@) == c@)
    &&& forall|i: int| 0 <= i < 16 ==> trim((#[trigger] p.ansi@[i])@) == p.ansi@[i]@
}

// ---------------------------------------------------------------------------
// Lemmas
// ---------------------------------------------------------------------------

/// The keys Ghostty's adapter writes are valid keys for `key = value`.
proof fn lemma_ghostty_keys_valid()
    ensures
        valid_key(KvSyntax::Equals, "theme"@),
        valid_key(KvSyntax::Equals, "background"@),
        valid_key(KvSyntax::Equals, "foreground"@),
        valid_key(KvSyntax::Equals, "cursor-color"@),
        valid_key(KvSyntax::Equals, "selection-background"@),
        valid_key(KvSyntax::Equals, "selection-foreground"@),
        valid_key(KvSyntax::Equals, "palette"@),
        valid_key(KvSyntax::Equals, "font-family"@),
        valid_key(KvSyntax::Equals, "font-size"@),
        valid_key(KvSyntax::Equals, "background-opacity"@),
{
    reveal_strlit("theme");
    reveal_strlit("background");
    reveal_strlit("foreground");
    reveal_strlit("cursor-color");
    reveal_strlit("selection-background");
    reveal_strlit("selection-foreground");
    reveal_strlit("palette");
    reveal_strlit("font-family");
    reveal_strlit("font-size");
    reveal_strlit("background-opacity");
    lemma_no_eq("theme"@);
    lemma_no_eq("background"@);
    lemma_no_eq("foreground"@);
    lemma_no_eq("cursor-color"@);
    lemma_no_eq("selection-background"@);
    lemma_no_eq("selection-foreground"@);
    lemma_no_eq("palette"@);
    lemma_no_eq("font-family"@);
    lemma_no_eq("font-size"@);
    lemma_no_eq("background-opacity"@);
}

/// A text of letters and dashes has no `=`.
proof fn lemma_no_eq(k: Seq<char>)
    requires
        forall|i: int| 0 <= i < k.len() ==> ('a' <= #[trigger] k[i] && k[i] <= 'z') || k[i] == '-',
    ensures
        !has_char(k, '='),
{
    if has_char(k, '=') {
        let i = choose|i: int| 0 <= i < k.len() && k[i] == '=';
        assert(('a' <= k[i] && k[i] <= 'z') || k[i] == '-');
    }
}

/// The keys Ghostty's adapter writes are all different.
proof fn lemma_ghostty_keys_distinct()
    ensures
        "theme"@ != "background"@,
        "theme"@ != "foreground"@,
        "theme"@ != "cursor-color"@,
        "theme"@ != "selection-background"@,
        "theme"@ != "selection-foreground"@,
        "theme"@ != "palette"@,
        "background"@ != "foreground"@,
        "background"@ != "cursor-color"@,
        "background"@ != "selection-background"@,
        "background"@ != "selection-foreground"@,
        "background"@ != "palette"@,
        "foreground"@ != "cursor-color"@,
        "foreground"@ != "selection-background"@,
        "foreground"@ != "selection-foreground"@,
        "foreground"@ != "palette"@,
        "cursor-color"@ != "selection-background"@,
        "cursor-color"@ != "selection-foreground"@,
        "cursor-color"@ != "palette"@,
        "selection-background"@ != "selection-foreground"@,
        "selection-background"@ != "palette"@,
        "selection-foreground"@ != "palette"@,
{
    reveal_strlit("theme");
    reveal_strlit("background");
    reveal_strlit("foreground");
    reveal_strlit("cursor-color");
    reveal_strlit("selection-background");
    reveal_strlit("selection-foreground");
    reveal_strlit("palette");
    assert("theme"@.len() == 5);
    assert("background"@.len() == 10);
    assert("foreground"@.len() == 10);
    assert("cursor-color"@.len() == 12);
    assert("selection-background"@.len() == 20);
    assert("selection-foreground"@.len() == 20);
    assert("palette"@.len() == 7);
    assert("background"@[0] != "foreground"@[0]);
    assert("selection-background"@[10] != "selection-foreground"@[10]);
}

/// A trimmed color gives a trimmed `palette` value that reads back as its
/// slot and color.
proof fn lemma_palette_value(i: nat, c: Seq<char>)
    requires
        i < 16,
        trim(c) == c,
    ensures
        trim(palette_value(i, c)) == palette_value(i, c),
        entry_parts(palette_value(i, c)) == Some((i, c)),
{
    let d = decimal(i);
    let e = palette_value(i, c);
    lemma_parse_decimal(i);
    lemma_trim_shape(c);
    assert(!is_ws(d[0]));
    assert(e[0] == d[0]);
    assert(!is_ws(e.last())) by {
        if c.len() > 0 {
            assert(e.last() == c.last());
        } else {
            assert(e.last() == '=');
        }
    }
    crate::text::lemma_trim_id(e);
    let n = d.len() as int;
    assert(e[n] == '=');
    assert forall|j: int| 0 <= j < n implies !is_char('=')(#[trigger] e[j]) by {
        assert(e[j] == d[j]);
        assert(is_digit(d[j]));
    }
    lemma_first_index_at(e, is_char('='), n);
    assert(e.take(n) =~= d);
    assert(e.skip(n + 1) =~= c);
    crate::text::lemma_trim_id(d);
}

/// The sixteen `palette` values of a palette, in slot order.
pub open spec fn palette_values(p: Palette) -> Seq<Seq<char>> {
    Seq::new(16, |i: int| palette_value(i as nat, p.ansi@[i]@))
}

/// Reading the sixteen `palette` values back gives each slot its color.
proof fn lemma_palette_values_read(p: Palette, n: int)
    requires
        0 <= n <= 16,
        forall|i: int| 0 <= i < 16 ==> trim((#[trigger] p.ansi@[i])@) == p.ansi@[i]@,
    ensures
        first_bad(palette_values(p).take(n)) == -1,
        forall|i: nat| i < 16 ==> #[trigger] entry_color(palette_values(p).take(n), i) == if i < n {
            p.ansi@[i as int]@
        } else {
            Seq::<char>::empty()
        },
    decreases n,
{
    let es = palette_values(p).take(n);
    if n > 0 {
        lemma_palette_values_read(p, n - 1);
        let prev = palette_values(p).take(n - 1);
        assert(es.drop_last() =~= prev);
        lemma_palette_value((n - 1) as nat, p.ansi@[n - 1]@);
        assert(es.last() == palette_value((n - 1) as nat, p.ansi@[n - 1]@));
        lemma_first_bad_push(prev, es.last());
        assert(prev.push(es.last()) =~= es);
        assert forall|i: nat| i < 16 implies #[trigger] entry_color(es, i) == if i < n {
            p.ansi@[i as int]@
        } else {
            Seq::<char>::empty()
        } by {
            assert(entry_color(es, i) == if i == n - 1 { p.ansi@[n - 1]@ } else { entry_color(prev, i) });
        }
    } else {
        assert forall|i: nat| i < 16 implies #[trigger] entry_color(es, i) == Seq::<char>::empty() by {}
    }
}

/// `first_bad` on a list with a readable value appended.
proof fn lemma_first_bad_push(es: Seq<Seq<char>>, e: Seq<char>)
    requires
        first_bad(es) == -1,
        entry_parts(e) is Some,
    ensures
        first_bad(es.push(e)) == -1,
    decreases es.len(),
{
    if es.len() > 0 {
        assert(entry_parts(es[0]) is Some);
        assert(first_bad(es.drop_first()) == -1);
        lemma_first_bad_push(es.drop_first(), e);
        assert(es.push(e).drop_first() =~= es.drop_first().push(e));
        assert(es.push(e)[0] == es[0]);
    } else {
        assert(es.push(e).drop_first() =~= Seq::<Seq<char>>::empty());
        assert(first_bad(Seq::<Seq<char>>::empty()) == -1);
        assert(es.push(e)[0] == e);
    }
}

/// What `first_bad` returns.
proof fn lemma_first_bad(es: Seq<Seq<char>>)
    ensures
        -1 <= first_bad(es) < es.len(),
        first_bad(es) >= 0 ==> entry_parts(es[first_bad(es)]) is None,
        forall|j: int| 0 <= j < es.len() && (first_bad(es) < 0 || j < first_bad(es)) ==> entry_parts(#[trigger] es[j]) is Some,
    decreases es.len(),
{
    if es.len() > 0 && entry_parts(es[0]) is Some {
        lemma_first_bad(es.drop_first());
        assert forall|j: int| 0 <= j < es.len() && (first_bad(es) < 0 || j < first_bad(es)) implies entry_parts(#[trigger] es[j]) is Some by {
            if j > 0 {
                assert(es[j] == es.drop_first()[j - 1]);
            }
        }
    }
}

/// `first_bad` is the first value that can't be read.
proof fn lemma_first_bad_at(es: Seq<Seq<char>>, k: int)
    requires
        -1 <= k <= es.len(),
        0 <= k < es.len() ==> entry_parts(es[k]) is None,
        forall|j: int| 0 <= j < es.len() && (k < 0 || k == es.len() || j < k) ==> entry_parts(#[trigger] es[j]) is Some,
    ensures
        0 <= k < es.len() ==> first_bad(es) == k,
        (k < 0 || k == es.len()) ==> first_bad(es) == -1,
{
    lemma_first_bad(es);
    let f = first_bad(es);
    if f >= 0 && (k < 0 || k == es.len() || f < k) {
        assert(entry_parts(es[f]) is Some);
    }
    if 0 <= k < es.len() && (f < 0 || k < f) {
        assert(entry_parts(es[k]) is Some);
    }
}


/// Appending the palette lines: the palette values are theirs; every other
/// key looks up what it did before.
proof fn lemma_append_palette_lines(pre: Seq<Seq<char>>, w: Seq<Seq<char>>, p: Palette, n: int)
    requires
        0 <= n <= 16,
        all_values(KvSyntax::Equals, w, "palette"@).len() == 0,
    ensures
        all_values(KvSyntax::Equals, w + palette_lines(p).take(n), "palette"@)
            == Seq::new(n as nat, |i: int| trim(palette_value(i as nat, p.ansi@[i]@))),
        forall|k: Seq<char>| k != "palette"@ ==> #[trigger] lookup(KvSyntax::Equals, pre, w + palette_lines(p).take(n), k)
            == lookup(KvSyntax::Equals, pre, w, k),
        forall|k: Seq<char>| k != "palette"@ ==> #[trigger] lookup_all(KvSyntax::Equals, pre, w + palette_lines(p).take(n), k)
            == lookup_all(KvSyntax::Equals, pre, w, k),
    decreases n,
{
    let e = KvSyntax::Equals;
    if n == 0 {
        assert(w + palette_lines(p).take(0) =~= w);
        assert(all_values(e, w, "palette"@) =~= Seq::new(0, |i: int| trim(palette_value(i as nat, p.ansi@[i]@))));
    } else {
        lemma_append_palette_lines(pre, w, p, n - 1);
        lemma_ghostty_keys_valid();
        let prev = w + palette_lines(p).take(n - 1);
        let v = palette_value((n - 1) as nat, p.ansi@[n - 1]@);
        lemma_push_frame(e, pre, prev, "palette"@, v);
        assert(prev.push(format_line(e, "palette"@, v)) =~= w + palette_lines(p).take(n));
        assert(all_values(e, w + palette_lines(p).take(n), "palette"@) =~= Seq::new(n as nat, |i: int| trim(palette_value(i as nat, p.ansi@[i]@))));
    }
}

/// What looking up each key gives after applying a theme.
proof fn lemma_apply_lookups(prefix: Seq<Seq<char>>, m: Seq<Seq<char>>, t: Theme)
    ensures
        ({
            let s = KvSyntax::Equals;
            let p = t.palette;
            let pre = without_theme_keys(prefix, t);
            let man = applied_managed(m, t);
            &&& lookup(s, pre, man, "theme"@) is None
            &&& lookup(s, pre, man, "background"@) == Some(trim(p.background@))
            &&& lookup(s, pre, man, "foreground"@) == Some(trim(p.foreground@))
            &&& (p.cursor matches Some(c) ==> lookup(s, pre, man, "cursor-color"@) == Some(trim(c@)))
            &&& (p.selection_background matches Some(c) ==> lookup(s, pre, man, "selection-background"@) == Some(trim(c@)))
            &&& (p.selection_foreground matches Some(c) ==> lookup(s, pre, man, "selection-foreground"@) == Some(trim(c@)))
            &&& (p.cursor is None ==> lookup(s, pre, man, "cursor-color"@) == lookup(s, prefix, m, "cursor-color"@))
            &&& (p.selection_background is None ==> lookup(s, pre, man, "selection-background"@) == lookup(s, prefix, m, "selection-background"@))
            &&& (p.selection_foreground is None ==> lookup(s, pre, man, "selection-foreground"@) == lookup(s, prefix, m, "selection-foreground"@))
            &&& lookup_all(s, pre, man, "palette"@) == Seq::new(16, |i: int| trim(palette_value(i as nat, p.ansi@[i]@)))
            &&& forall|k: Seq<char>| !theme_keys().contains(k) ==> #[trigger] lookup(s, pre, man, k) == lookup(s, prefix, m, k)
            &&& forall|k: Seq<char>| !theme_keys().contains(k) ==> #[trigger] lookup_all(s, pre, man, k) == lookup_all(s, prefix, m, k)
        }),
{
    let s = KvSyntax::Equals;
    let p = t.palette;
    lemma_ghostty_keys_valid();
    lemma_ghostty_keys_distinct();
    // Dropping the overriding lines, from the user's lines and the managed ones alike.
    let pa = without_key(s, prefix, "theme"@);
    let ma = without_key(s, m, "theme"@);
    lemma_clear_frame(s, prefix, m, "theme"@);
    let pb = without_key(s, pa, "background"@);
    let mb = without_key(s, ma, "background"@);
    lemma_clear_frame(s, pa, ma, "background"@);
    let pc = without_key(s, pb, "foreground"@);
    let mc = without_key(s, mb, "foreground"@);
    lemma_clear_frame(s, pb, mb, "foreground"@);
    let pd = without_key(s, pc, "palette"@);
    let md = without_key(s, mc, "palette"@);
    lemma_clear_frame(s, pc, mc, "palette"@);
    let pe = if p.cursor is Some { without_key(s, pd, "cursor-color"@) } else { pd };
    let me = if p.cursor is Some { without_key(s, md, "cursor-color"@) } else { md };
    if p.cursor is Some {
        lemma_clear_frame(s, pd, md, "cursor-color"@);
    }
    let pf = if p.selection_background is Some { without_key(s, pe, "selection-background"@) } else { pe };
    let mf = if p.selection_background is Some { without_key(s, me, "selection-background"@) } else { me };
    if p.selection_background is Some {
        lemma_clear_frame(s, pe, me, "selection-background"@);
    }
    let pre = if p.selection_foreground is Some { without_key(s, pf, "selection-foreground"@) } else { pf };
    let m1 = if p.selection_foreground is Some { without_key(s, mf, "selection-foreground"@) } else { mf };
    if p.selection_foreground is Some {
        lemma_clear_frame(s, pf, mf, "selection-foreground"@);
    }
    assert(pre == without_theme_keys(prefix, t));
    assert(m1 == without_theme_keys(m, t));
    // Setting the colors.
    let m2a = set_line(m1, "background"@, p.background@);
    lemma_set_frame(s, pre, m1, "background"@, p.background@);
    let m2 = set_line(m2a, "foreground"@, p.foreground@);
    lemma_set_frame(s, pre, m2a, "foreground"@, p.foreground@);
    let m3a = set_opt(m2, "cursor-color"@, p.cursor);
    if let Some(c) = p.cursor {
        lemma_set_frame(s, pre, m2, "cursor-color"@, c@);
    }
    let m3b = set_opt(m3a, "selection-background"@, p.selection_background);
    if let Some(c) = p.selection_background {
        lemma_set_frame(s, pre, m3a, "selection-background"@, c@);
    }
    let m3 = set_opt(m3b, "selection-foreground"@, p.selection_foreground);
    if let Some(c) = p.selection_foreground {
        lemma_set_frame(s, pre, m3b, "selection-foreground"@, c@);
    }
    // Replacing the palette.
    let w = without_key(s, m3, "palette"@);
    lemma_unset_frame(s, pre, m3, "palette"@);
    lemma_append_palette_lines(pre, w, p, 16);
    assert(palette_lines(p).take(16) =~= palette_lines(p));
    let man = w + palette_lines(p);
    assert(man == applied_managed(m, t));
    assert(all_values(s, man, "palette"@).len() > 0);
    assert forall|k: Seq<char>| !theme_keys().contains(k) implies #[trigger] lookup(s, pre, man, k) == lookup(s, prefix, m, k) by {
        assert(k != "palette"@ && k != "theme"@ && k != "background"@ && k != "foreground"@);
        assert(k != "cursor-color"@ && k != "selection-background"@ && k != "selection-foreground"@);
    }
    assert forall|k: Seq<char>| !theme_keys().contains(k) implies #[trigger] lookup_all(s, pre, man, k) == lookup_all(s, prefix, m, k) by {
        assert(k != "palette"@ && k != "theme"@ && k != "background"@ && k != "foreground"@);
        assert(k != "cursor-color"@ && k != "selection-background"@ && k != "selection-foreground"@);
    }
}

/// Reading the palette back after applying a theme gives the theme's
/// colors (for colors written without whitespace at their ends): the
/// background, foreground and 16 ANSI colors always, the cursor and
/// selection colors where the theme has them. So the theme is recognised
/// again by its colors.
pub proof fn lemma_apply_then_read(prefix: Seq<Seq<char>>, managed: Seq<Seq<char>>, t: Theme)
    requires
        trimmed_colors(t.palette),
    ensures
        read_palette(KvSyntax::Equals, without_theme_keys(prefix, t), applied_managed(managed, t)) matches Ok(Some(v)) && {
            &&& v.background == t.palette@.background
            &&& v.foreground == t.palette@.foreground
            &&& v.ansi == t.palette@.ansi
            &&& (t.palette.cursor is Some ==> v.cursor == t.palette@.cursor)
            &&& (t.palette.selection_background is Some ==> v.selection_background == t.palette@.selection_background)
            &&& (t.palette.selection_foreground is Some ==> v.selection_foreground == t.palette@.selection_foreground)
        },
{
    let p = t.palette;
    lemma_apply_lookups(prefix, managed, t);
    let es = Seq::new(16, |i: int| trim(palette_value(i as nat, p.ansi@[i]@)));
    assert forall|i: int| 0 <= i < 16 implies #[trigger] es[i] == palette_values(p)[i] by {
        lemma_palette_value(i as nat, p.ansi@[i]@);
    }
    assert(es =~= palette_values(p));
    lemma_palette_values_read(p, 16);
    assert(palette_values(p).take(16) =~= palette_values(p));
    let v = read_palette(KvSyntax::Equals, without_theme_keys(prefix, t), applied_managed(managed, t))->Ok_0->Some_0;
    assert(v.ansi =~= t.palette@.ansi);
}

/// Applying a theme leaves every setting it doesn't own as it was, and
/// removes Ghostty's own `theme` directive.
pub proof fn lemma_apply_keeps_other_settings(prefix: Seq<Seq<char>>, managed: Seq<Seq<char>>, t: Theme, k: Seq<char>)
    requires
        !theme_keys().contains(k),
    ensures
        lookup(KvSyntax::Equals, without_theme_keys(prefix, t), applied_managed(managed, t), k)
            == lookup(KvSyntax::Equals, prefix, managed, k),
        lookup_all(KvSyntax::Equals, without_theme_keys(prefix, t), applied_managed(managed, t), k)
            == lookup_all(KvSyntax::Equals, prefix, managed, k),
        lookup(KvSyntax::Equals, without_theme_keys(prefix, t), applied_managed(managed, t), "theme"@) is None,
{
    lemma_apply_lookups(prefix, managed, t);
}

// ---------------------------------------------------------------------------
// Applying a theme twice
// ---------------------------------------------------------------------------

/// The keys whose lines applying theme `t` drops (and then sets).
pub open spec fn dropped_keys(t: Theme) -> Set<Seq<char>> {
    let p = t.palette;
    let k = Set::empty().insert("theme"@).insert("background"@).insert("foreground"@).insert("palette"@);
    let k1 = if p.cursor is Some { k.insert("cursor-color"@) } else { k };
    let k2 = if p.selection_background is Some { k1.insert("selection-background"@) } else { k1 };
    if p.selection_foreground is Some { k2.insert("selection-foreground"@) } else { k2 }
}

/// The line that sets `key` to `value`.
pub open spec fn line_for(key: Seq<char>, value: Seq<char>) -> Seq<char> {
    format_line(KvSyntax::Equals, key, value)
}

/// `a` followed by the line for `value`, if there is one.
pub open spec fn push_opt(a: Seq<Seq<char>>, key: Seq<char>, value: Option<String>) -> Seq<Seq<char>> {
    match value {
        Some(v) => a.push(line_for(key, v@)),
        None => a,
    }
}

/// The lines a theme is written as, in order.
pub open spec fn theme_lines(t: Theme) -> Seq<Seq<char>> {
    let p = t.palette;
    let a = seq![line_for("background"@, p.background@), line_for("foreground"@, p.foreground@)];
    push_opt(push_opt(push_opt(a, "cursor-color"@, p.cursor), "selection-background"@, p.selection_background), "selection-foreground"@, p.selection_foreground)
        + palette_lines(p)
}

/// Dropping a theme's keys line by line is dropping them all at once.
proof fn lemma_without_theme_keys_strip(ls: Seq<Seq<char>>, t: Theme)
    ensures
        without_theme_keys(ls, t) == strip_keys(KvSyntax::Equals, ls, dropped_keys(t)),
{
    let e = KvSyntax::Equals;
    let k0 = Set::<Seq<char>>::empty();
    lemma_strip_none(e, ls);
    lemma_strip_then_without(e, ls, k0, "theme"@);
    let k1 = k0.insert("theme"@);
    lemma_strip_then_without(e, ls, k1, "background"@);
    let k2 = k1.insert("background"@);
    lemma_strip_then_without(e, ls, k2, "foreground"@);
    let k3 = k2.insert("foreground"@);
    lemma_strip_then_without(e, ls, k3, "palette"@);
    let k4 = k3.insert("palette"@);
    let p = t.palette;
    let k5 = if p.cursor is Some { k4.insert("cursor-color"@) } else { k4 };
    if p.cursor is Some {
        lemma_strip_then_without(e, ls, k4, "cursor-color"@);
    }
    let k6 = if p.selection_background is Some { k5.insert("selection-background"@) } else { k5 };
    if p.selection_background is Some {
        lemma_strip_then_without(e, ls, k5, "selection-background"@);
    }
    if p.selection_foreground is Some {
        lemma_strip_then_without(e, ls, k6, "selection-foreground"@);
    }
}

/// The managed lines after applying a theme are the earlier ones without
/// the lines for the keys it drops, followed by its own lines; each of
/// those sets one of the dropped keys.
proof fn lemma_applied_split(m: Seq<Seq<char>>, t: Theme)
    ensures
        applied_managed(m, t) == strip_keys(KvSyntax::Equals, m, dropped_keys(t)) + theme_lines(t),
        forall|i: int| 0 <= i < theme_lines(t).len() ==> sets_one_of(KvSyntax::Equals, #[trigger] theme_lines(t)[i], dropped_keys(t)),
{
    let e = KvSyntax::Equals;
    let p = t.palette;
    let k = dropped_keys(t);
    let w = strip_keys(e, m, k);
    lemma_ghostty_keys_valid();
    lemma_ghostty_keys_distinct();
    lemma_without_theme_keys_strip(m, t);
    let bg = line_for("background"@, p.background@);
    let fg = line_for("foreground"@, p.foreground@);
    let z = Seq::<Seq<char>>::empty();
    assert(w + z =~= w);
    lemma_set_dropped_key(e, m, k, z, "background"@, bg);
    let a1 = z.push(bg);
    lemma_format_sets(e, "background"@, p.background@, k, "foreground"@);
    assert forall|i: int| 0 <= i < a1.len() implies !line_has_key(e, #[trigger] a1[i], "foreground"@) by {
        assert(a1[i] == bg);
    }
    lemma_set_dropped_key(e, m, k, a1, "foreground"@, fg);
    let a2 = a1.push(fg);
    assert(a2 =~= seq![bg, fg]);
    // The lines so far each set one key among those already written.
    lemma_format_sets(e, "foreground"@, p.foreground@, k, "cursor-color"@);
    lemma_format_sets(e, "background"@, p.background@, k, "cursor-color"@);
    lemma_format_sets(e, "foreground"@, p.foreground@, k, "selection-background"@);
    lemma_format_sets(e, "background"@, p.background@, k, "selection-background"@);
    lemma_format_sets(e, "foreground"@, p.foreground@, k, "selection-foreground"@);
    lemma_format_sets(e, "background"@, p.background@, k, "selection-foreground"@);
    lemma_format_sets(e, "foreground"@, p.foreground@, k, "palette"@);
    lemma_format_sets(e, "background"@, p.background@, k, "palette"@);
    let a3 = push_opt(a2, "cursor-color"@, p.cursor);
    if let Some(c) = p.cursor {
        assert forall|i: int| 0 <= i < a2.len() implies !line_has_key(e, #[trigger] a2[i], "cursor-color"@) by {}
        lemma_set_dropped_key(e, m, k, a2, "cursor-color"@, line_for("cursor-color"@, c@));
        lemma_format_sets(e, "cursor-color"@, c@, k, "selection-background"@);
        lemma_format_sets(e, "cursor-color"@, c@, k, "selection-foreground"@);
        lemma_format_sets(e, "cursor-color"@, c@, k, "palette"@);
    }
    let a4 = push_opt(a3, "selection-background"@, p.selection_background);
    if let Some(c) = p.selection_background {
        assert forall|i: int| 0 <= i < a3.len() implies !line_has_key(e, #[trigger] a3[i], "selection-background"@) by {}
        lemma_set_dropped_key(e, m, k, a3, "selection-background"@, line_for("selection-background"@, c@));
        lemma_format_sets(e, "selection-background"@, c@, k, "selection-foreground"@);
        lemma_format_sets(e, "selection-background"@, c@, k, "palette"@);
    }
    let a5 = push_opt(a4, "selection-foreground"@, p.selection_foreground);
    if let Some(c) = p.selection_foreground {
        assert forall|i: int| 0 <= i < a4.len() implies !line_has_key(e, #[trigger] a4[i], "selection-foreground"@) by {}
        lemma_set_dropped_key(e, m, k, a4, "selection-foreground"@, line_for("selection-foreground"@, c@));
        lemma_format_sets(e, "selection-foreground"@, c@, k, "palette"@);
    }
    assert forall|i: int| 0 <= i < a5.len() implies !line_has_key(e, #[trigger] a5[i], "palette"@) by {}
    lemma_set_dropped_key(e, m, k, a5, "palette"@, Seq::empty());
    assert(applied_managed(m, t) == (w + a5) + palette_lines(p));
    assert((w + a5) + palette_lines(p) =~= w + (a5 + palette_lines(p)));
    assert forall|i: int| 0 <= i < theme_lines(t).len() implies sets_one_of(e, #[trigger] theme_lines(t)[i], k) by {
        let tl = theme_lines(t);
        if i < a5.len() {
            assert(tl[i] == a5[i]);
            lemma_format_sets(e, "background"@, p.background@, k, "background"@);
            lemma_format_sets(e, "foreground"@, p.foreground@, k, "foreground"@);
            if let Some(c) = p.cursor {
                lemma_format_sets(e, "cursor-color"@, c@, k, "cursor-color"@);
            }
            if let Some(c) = p.selection_background {
                lemma_format_sets(e, "selection-background"@, c@, k, "selection-background"@);
            }
            if let Some(c) = p.selection_foreground {
                lemma_format_sets(e, "selection-foreground"@, c@, k, "selection-foreground"@);
            }
        } else {
            let j = i - a5.len();
            assert(tl[i] == palette_lines(p)[j]);
            lemma_format_sets(e, "palette"@, palette_value(j as nat, p.ansi@[j]@), k, "palette"@);
        }
    }
}

/// Applying the same theme again changes nothing: the user's lines and the
/// managed lines after a second apply are those after the first, so no
/// line is duplicated.
pub proof fn lemma_apply_twice(prefix: Seq<Seq<char>>, managed: Seq<Seq<char>>, t: Theme)
    ensures
        without_theme_keys(without_theme_keys(prefix, t), t) == without_theme_keys(prefix, t),
        applied_managed(applied_managed(managed, t), t) == applied_managed(managed, t),
{
    let e = KvSyntax::Equals;
    let k = dropped_keys(t);
    lemma_without_theme_keys_strip(prefix, t);
    lemma_without_theme_keys_strip(without_theme_keys(prefix, t), t);
    lemma_strip_twice(e, prefix, k);
    let tl = theme_lines(t);
    lemma_applied_split(managed, t);
    let once = strip_keys(e, managed, k) + tl;
    lemma_applied_split(once, t);
    lemma_strip_concat(e, strip_keys(e, managed, k), tl, k);
    lemma_strip_twice(e, managed, k);
    lemma_strip_all(e, tl, k);
    assert(strip_keys(e, managed, k) + Seq::<Seq<char>>::empty() =~= strip_keys(e, managed, k));
}

// ---------------------------------------------------------------------------
// Saving and loading again
// ---------------------------------------------------------------------------

/// The keys applying a theme writes hold no newline.
proof fn lemma_keys_one_line()
    ensures
        !has_char("background"@, '\n'),
        !has_char("foreground"@, '\n'),
        !has_char("cursor-color"@, '\n'),
        !has_char("selection-background"@, '\n'),
        !has_char("selection-foreground"@, '\n'),
        !has_char("palette"@, '\n'),
{
    reveal_strlit("background");
    reveal_strlit("foreground");
    reveal_strlit("cursor-color");
    reveal_strlit("selection-background");
    reveal_strlit("selection-foreground");
    reveal_strlit("palette");
    lemma_no_newline("background"@);
    lemma_no_newline("foreground"@);
    lemma_no_newline("cursor-color"@);
    lemma_no_newline("selection-background"@);
    lemma_no_newline("selection-foreground"@);
    lemma_no_newline("palette"@);
}

/// A word of lowercase letters and `-` holds no newline.
proof fn lemma_no_newline(k: Seq<char>)
    requires
        forall|i: int| 0 <= i < k.len() ==> ('a' <= #[trigger] k[i] && k[i] <= 'z') || k[i] == '-',
    ensures
        !has_char(k, '\n'),
{
    if has_char(k, '\n') {
        let i = choose|i: int| 0 <= i < k.len() && k[i] == '\n';
        assert(('a' <= k[i] && k[i] <= 'z') || k[i] == '-');
    }
}

/// Dropping a theme's keys keeps what every line has.
proof fn lemma_without_theme_keys_keeps(ls: Seq<Seq<char>>, t: Theme, pred: spec_fn(Seq<char>) -> bool)
    requires
        forall|i: int| 0 <= i < ls.len() ==> pred(#[trigger] ls[i]),
    ensures
        forall|i: int| 0 <= i < without_theme_keys(ls, t).len() ==> pred(#[trigger] without_theme_keys(ls, t)[i]),
{
    let e = KvSyntax::Equals;
    let a = without_key(e, ls, "theme"@);
    let b = without_key(e, a, "background"@);
    let c = without_key(e, b, "foreground"@);
    let p1 = without_key(e, c, "palette"@);
    lemma_without_key_keeps_lines(e, ls, "theme"@, pred);
    lemma_without_key_keeps_lines(e, a, "background"@, pred);
    lemma_without_key_keeps_lines(e, b, "foreground"@, pred);
    lemma_without_key_keeps_lines(e, c, "palette"@, pred);
    let p2 = if t.palette.cursor is Some { without_key(e, p1, "cursor-color"@) } else { p1 };
    lemma_without_key_keeps_lines(e, p1, "cursor-color"@, pred);
    let p3 = if t.palette.selection_background is Some { without_key(e, p2, "selection-background"@) } else { p2 };
    lemma_without_key_keeps_lines(e, p2, "selection-background"@, pred);
    lemma_without_key_keeps_lines(e, p3, "selection-foreground"@, pred);
}

/// Setting a key with no newline to a storable value keeps every line
/// storable.
proof fn lemma_set_line_storable(ls: Seq<Seq<char>>, key: Seq<char>, value: Seq<char>)
    requires
        all_storable(ls),
        !has_char(key, '\n'),
        storable(value),
    ensures
        all_storable(set_line(ls, key, value)),
{
    let e = KvSyntax::Equals;
    lemma_without_key_keeps_lines(e, ls, key, |l: Seq<char>| storable(l));
    lemma_format_line_storable(e, key, value);
    let w = without_key(e, ls, key);
    assert forall|i: int| 0 <= i < set_line(ls, key, value).len() implies storable(#[trigger] set_line(ls, key, value)[i]) by {
        if i < w.len() {
            assert(set_line(ls, key, value)[i] == w[i]);
        }
    }
}

/// A `palette` value of a storable color is storable.
proof fn lemma_palette_value_storable(i: nat, c: Seq<char>)
    requires
        i < 16,
        storable(c),
    ensures
        storable(palette_value(i, c)),
{
    lemma_parse_decimal(i);
    let d = decimal(i);
    let v = palette_value(i, c);
    assert(!has_char(v, '\n')) by {
        if has_char(v, '\n') {
            let k = choose|k: int| 0 <= k < v.len() && v[k] == '\n';
            if k < d.len() {
                assert(is_digit(d[k]));
                assert(d[k] == v[k]);
            } else if k > d.len() {
                assert(c[k - d.len() - 1] == v[k]);
            }
        }
    }
    if c.len() > 0 {
        assert(v.last() == c.last());
    }
}

/// The managed lines after applying a theme with one-line, trimmed colors
/// to storable lines are storable, and there are some.
proof fn lemma_applied_managed_storable(m: Seq<Seq<char>>, t: Theme)
    requires
        all_storable(m),
        trimmed_colors(t.palette),
        single_line_colors(t.palette),
    ensures
        all_storable(applied_managed(m, t)),
        applied_managed(m, t).len() > 0,
{
    let e = KvSyntax::Equals;
    let p = t.palette;
    lemma_keys_one_line();
    lemma_trimmed_storable(p.background@);
    lemma_trimmed_storable(p.foreground@);
    let m1 = without_theme_keys(m, t);
    lemma_without_theme_keys_keeps(m, t, |l: Seq<char>| storable(l));
    let m2a = set_line(m1, "background"@, p.background@);
    lemma_set_line_storable(m1, "background"@, p.background@);
    let m2 = set_line(m2a, "foreground"@, p.foreground@);
    lemma_set_line_storable(m2a, "foreground"@, p.foreground@);
    let m3a = set_opt(m2, "cursor-color"@, p.cursor);
    if let Some(c) = p.cursor {
        lemma_trimmed_storable(c@);
        lemma_set_line_storable(m2, "cursor-color"@, c@);
    }
    let m3b = set_opt(m3a, "selection-background"@, p.selection_background);
    if let Some(c) = p.selection_background {
        lemma_trimmed_storable(c@);
        lemma_set_line_storable(m3a, "selection-background"@, c@);
    }
    let m3 = set_opt(m3b, "selection-foreground"@, p.selection_foreground);
    if let Some(c) = p.selection_foreground {
        lemma_trimmed_storable(c@);
        lemma_set_line_storable(m3b, "selection-foreground"@, c@);
    }
    let w = without_key(e, m3, "palette"@);
    lemma_without_key_keeps_lines(e, m3, "palette"@, |l: Seq<char>| storable(l));
    let pl = palette_lines(p);
    assert forall|i: int| 0 <= i < 16 implies storable(#[trigger] pl[i]) by {
        lemma_trimmed_storable(p.ansi@[i]@);
        lemma_palette_value_storable(i as nat, p.ansi@[i]@);
        lemma_format_line_storable(e, "palette"@, palette_value(i as nat, p.ansi@[i]@));
    }
    assert(applied_managed(m, t) == w + pl);
    assert forall|i: int| 0 <= i < (w + pl).len() implies storable(#[trigger] (w + pl)[i]) by {
        if i < w.len() {
            assert((w + pl)[i] == w[i]);
        } else {
            assert((w + pl)[i] == pl[i - w.len()]);
        }
    }
}

/// Applying a theme to a config loaded from `text`, saving it, and loading
/// the saved text again reads back the theme's colors: the background,
/// foreground and 16 ANSI colors always, the cursor and selection colors
/// where the theme has them. This holds for a text whose lines are each
/// storable and a theme whose colors are trimmed and on one line.
pub proof fn lemma_apply_save_load_read(text: Seq<char>, t: Theme)
    requires
        all_storable(lines(text)),
        trimmed_colors(t.palette),
        single_line_colors(t.palette),
    ensures
        ({
            let ls = lines(text);
            let saved = rendered(without_theme_keys(loaded_prefix(ls), t), applied_managed(loaded_managed(ls), t));
            read_palette(KvSyntax::Equals, loaded_prefix(lines(saved)), loaded_managed(lines(saved))) matches Ok(Some(v)) && {
                &&& v.background == t.palette@.background
                &&& v.foreground == t.palette@.foreground
                &&& v.ansi == t.palette@.ansi
                &&& (t.palette.cursor is Some ==> v.cursor == t.palette@.cursor)
                &&& (t.palette.selection_background is Some ==> v.selection_background == t.palette@.selection_background)
                &&& (t.palette.selection_foreground is Some ==> v.selection_foreground == t.palette@.selection_foreground)
            }
        }),
{
    let e = KvSyntax::Equals;
    let ls = lines(text);
    lemma_loaded_lines(text);
    let pre = without_theme_keys(loaded_prefix(ls), t);
    let man = applied_managed(loaded_managed(ls), t);
    lemma_without_theme_keys_keeps(loaded_prefix(ls), t, |l: Seq<char>| storable(l) && l != marker());
    assert(plain_user_lines(pre));
    lemma_applied_managed_storable(loaded_managed(ls), t);
    let saved = lines(rendered(pre, man));
    lemma_save_load_lookups(e, pre, man, "background"@);
    lemma_save_load_lookups(e, pre, man, "foreground"@);
    lemma_save_load_lookups(e, pre, man, "palette"@);
    lemma_save_load_lookups(e, pre, man, "cursor-color"@);
    lemma_save_load_lookups(e, pre, man, "selection-background"@);
    lemma_save_load_lookups(e, pre, man, "selection-foreground"@);
    assert(read_palette(e, loaded_prefix(saved), loaded_managed(saved)) == read_palette(e, pre, man));
    lemma_apply_then_read(loaded_prefix(ls), loaded_managed(ls), t);
}

// ---------------------------------------------------------------------------
// Executable code
// ---------------------------------------------------------------------------

/// Reads one `palette` value, or says why it can't be read.
fn read_entry(e: &String) -> (r: Result<(usize, Vec<char>), String>)
    ensures
        match r {
            Ok(parts) => entry_parts(e@) == Some((parts.0 as nat, parts.1@)),
            Err(msg) => entry_parts(e@) is None && msg@ == entry_error(e@),
        },
{
    let v = chars_of(e.as_str());
    proof {
        lemma_first_index(v@, is_char('='));
    }
    match find_char(&v, '=') {
        None => {
            let mut m = String::from_str("malformed palette entry: ");
            m.append(e.as_str());
            Err(m)
        },
        Some(k) => {
            assert(k < v.len());
            let a = slice_of(&v, 0, k);
            let b = slice_of(&v, k + 1, v.len());
            assert(a@ =~= v@.take(k as int));
            assert(b@ =~= v@.skip(k + 1));
            let at = trimmed(&a);
            match parse_usize_chars(&at) {
                None => {
                    let mut m = String::from_str("bad palette index in: ");
                    m.append(e.as_str());
                    Err(m)
                },
                Some(i) => {
                    if i >= 16 {
                        let mut m = String::from_str("palette index out of range: ");
                        m.append(e.as_str());
                        Err(m)
                    } else {
                        Ok((i, trimmed(&b)))
                    }
                },
            }
        },
    }
}

/// A string holding the characters of an optional value.
fn opt_string(v: Option<String>) -> (r: Option<String>)
    ensures
        r == v,
{
    v
}

impl GhosttyAdapter {
    /// The font family, font size and background opacity the config sets.
    pub fn read_current(&self, cfg: &KvConfig) -> (r: CurrentSettings)
        ensures
            opt_view(r.font_family) == lookup(cfg.syntax, cfg.prefix(), cfg.managed(), "font-family"@),
            opt_view(r.font_size) == lookup(cfg.syntax, cfg.prefix(), cfg.managed(), "font-size"@),
            opt_view(r.opacity) == lookup(cfg.syntax, cfg.prefix(), cfg.managed(), "background-opacity"@),
    {
        CurrentSettings {
            font_family: cfg.get("font-family"),
            font_size: cfg.get("font-size"),
            opacity: cfg.get("background-opacity"),
        }
    }

    /// The colors currently configured, if a full palette (background,
    /// foreground, and 16 `palette` entries) is set; used to reverse-match
    /// against known themes. `Ok(None)` means no theme has been applied yet,
    /// or the config only sets some colors; an entry that isn't `N=COLOR`
    /// with `N` below 16 is an error.
    pub fn read_current_palette(&self, cfg: &KvConfig) -> (r: Result<Option<Palette>, String>)
        ensures
            read_view(r) == read_palette(cfg.syntax, cfg.prefix(), cfg.managed()),
    {
        let background = match cfg.get("background") {
            Some(b) => b,
            None => return Ok(None),
        };
        let foreground = match cfg.get("foreground") {
            Some(f) => f,
            None => return Ok(None),
        };
        let entries = cfg.get_all("palette");
        let ghost es = sviews(entries@);
        if entries.len() != 16 {
            return Ok(None);
        }
        let mut ansi = empty_ansi();
        let mut k: usize = 0;
        assert(es.take(0) =~= Seq::<Seq<char>>::empty());
        while k < 16
            invariant
                k <= 16,
                entries.len() == 16,
                es == sviews(entries@),
                es == kv_all(*cfg, "palette"@),
                kv(*cfg, "background"@) is Some,
                kv(*cfg, "foreground"@) is Some,
                first_bad(es.take(k as int)) == -1,
                forall|i: nat| i < 16 ==> (#[trigger] ansi@[i as int])@ == entry_color(es.take(k as int), i),
            decreases 16 - k,
        {
            let ghost t2 = es.take(k + 1);
            assert(t2.drop_last() =~= es.take(k as int));
            assert(t2.last() == entries@[k as int]@);
            match read_entry(&entries[k]) {
                Err(m) => {
                    proof {
                        lemma_first_bad(es.take(k as int));
                        assert forall|j: int| 0 <= j < k implies entry_parts(#[trigger] es[j]) is Some by {
                            assert(es[j] == es.take(k as int)[j]);
                        }
                        lemma_first_bad_at(es, k as int);
                    }
                    return Err(m);
                },
                Ok(parts) => {
                    let ghost before = ansi@;
                    ansi[parts.0] = string_of(&parts.1);
                    proof {
                        lemma_first_bad_push(es.take(k as int), es[k as int]);
                        assert(es.take(k as int).push(es[k as int]) =~= t2);
                        assert forall|i: nat| i < 16 implies (#[trigger] ansi@[i as int])@ == entry_color(t2, i) by {
                            if i != parts.0 {
                                assert(ansi@[i as int] == before[i as int]);
                            }
                        }
                    }
                },
            }
            k = k + 1;
        }
        assert(es.take(16) =~= es);
        let p = Palette {
            background,
            foreground,
            cursor: opt_string(cfg.get("cursor-color")),
            selection_background: opt_string(cfg.get("selection-background")),
            selection_foreground: opt_string(cfg.get("selection-foreground")),
            ansi,
        };
        proof {
            lemma_first_bad(es);
            assert(p@.ansi =~= Seq::new(16, |i: int| entry_color(es, i as nat)));
        }
        Ok(Some(p))
    }

    /// Applies a theme's colors: background, foreground, the cursor and
    /// selection colors it has, and all 16 `palette` entries. Ghostty's own
    /// `theme` directive and the user's lines for the colors being set are
    /// removed too: Ghostty keeps the first definition of a color, and its
    /// `theme` loads a whole scheme over explicit colors, so either would
    /// keep the applied colors from taking effect. Every other line is left
    /// as it was.
    pub fn apply_theme(&self, cfg: &mut KvConfig, theme: &Theme)
        requires
            old(cfg).syntax == KvSyntax::Equals,
        ensures
            final(cfg).syntax == KvSyntax::Equals,
            final(cfg).prefix() == without_theme_keys(old(cfg).prefix(), *theme),
            final(cfg).managed() == applied_managed(old(cfg).managed(), *theme),
    {
        let ghost m0 = cfg.managed();
        let ghost p0 = cfg.prefix();
        let pal = &theme.palette;
        cfg.clear_key("theme");
        cfg.clear_key("background");
        cfg.clear_key("foreground");
        cfg.clear_key("palette");
        if pal.cursor.is_some() {
            cfg.clear_key("cursor-color");
        }
        if pal.selection_background.is_some() {
            cfg.clear_key("selection-background");
        }
        if pal.selection_foreground.is_some() {
            cfg.clear_key("selection-foreground");
        }
        assert(cfg.prefix() == without_theme_keys(p0, *theme));
        assert(cfg.managed() == without_theme_keys(m0, *theme));
        cfg.set("background", pal.background.as_str());
        cfg.set("foreground", pal.foreground.as_str());
        match &pal.cursor {
            Some(c) => cfg.set("cursor-color", c.as_str()),
            None => {},
        }
        match &pal.selection_background {
            Some(c) => cfg.set("selection-background", c.as_str()),
            None => {},
        }
        match &pal.selection_foreground {
            Some(c) => cfg.set("selection-foreground", c.as_str()),
            None => {},
        }
        cfg.unset("palette");
        let ghost w = cfg.managed();
        let mut i: usize = 0;
        assert(w + palette_lines(theme.palette).take(0) =~= w);
        while i < 16
            invariant
                i <= 16,
                cfg.syntax == KvSyntax::Equals,
                cfg.prefix() == without_theme_keys(p0, *theme),
                pal == &theme.palette,
                cfg.managed() == w + palette_lines(theme.palette).take(i as int),
            decreases 16 - i,
        {
            let mut v = small_decimal(i);
            v.push('=');
            let c = chars_of(pal.ansi[i].as_str());
            extend(&mut v, &c);
            assert(v@ =~= palette_value(i as nat, pal.ansi@[i as int]@));
            let entry = string_of(&v);
            cfg.push("palette", entry.as_str());
            assert(cfg.managed() =~= w + palette_lines(theme.palette).take(i + 1));
            i = i + 1;
        }
        assert(palette_lines(theme.palette).take(16) =~= palette_lines(theme.palette));
    }

    /// Sets the font family and size (the size as the text to write).
    pub fn apply_font(&self, cfg: &mut KvConfig, family: &str, size: &str)
        requires
            old(cfg).syntax == KvSyntax::Equals,
        ensures
            final(cfg).syntax == KvSyntax::Equals,
            final(cfg).prefix() == old(cfg).prefix(),
            final(cfg).managed() == without_key(
                KvSyntax::Equals,
                without_key(KvSyntax::Equals, old(cfg).managed(), "font-family"@).push(
                    format_line(KvSyntax::Equals, "font-family"@, family@),
                ),
                "font-size"@,
            ).push(format_line(KvSyntax::Equals, "font-size"@, size@)),
    {
        cfg.set("font-family", family);
        cfg.set("font-size", size);
    }

    /// Sets the background opacity (as the text to write).
    pub fn apply_opacity(&self, cfg: &mut KvConfig, opacity: &str)
        requires
            old(cfg).syntax == KvSyntax::Equals,
        ensures
            final(cfg).syntax == KvSyntax::Equals,
            final(cfg).prefix() == old(cfg).prefix(),
            final(cfg).managed() == without_key(KvSyntax::Equals, old(cfg).managed(), "background-opacity"@).push(
                format_line(KvSyntax::Equals, "background-opacity"@, opacity@),
            ),
    {
        cfg.set("background-opacity", opacity);
    }
}

} // verus!
