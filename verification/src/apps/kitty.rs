//! Kitty's config: flat `key value` lines, colors written as `#RRGGBB`,
//! the 16 ANSI colors as `color0` to `color15`.
use vstd::prelude::*;

use crate::apps::CurrentSettings;
use crate::kv_config::{
    lemma_set_after_strip, lemma_set_frame, lemma_strip_all, lemma_strip_concat, lemma_strip_none, lemma_strip_twice,
    lookup, sets_one_of, strip_keys, valid_key, valid_value, without_key, format_line, KvConfig, KvSyntax,
    all_storable, lemma_format_line_storable, lemma_loaded_lines, lemma_save_load_lookups, lemma_trimmed_storable,
    lemma_without_key_keeps_lines, loaded_managed, loaded_prefix, rendered, storable,
};
use crate::text::{
    chars_of, decimal, extend, is_digit, is_ws, lemma_parse_decimal, lemma_trim_shape,
    small_decimal, string_of, strip_leading, trim, trim_end, trim_start, has_char, lines};
use crate::theme::{empty_ansi, opt_chars, single_line_colors, Palette, PaletteView, Theme};
use crate::theme_store::opt_view;

verus! {

/// Kitty's config adapter.
pub struct KittyAdapter;

// ---------------------------------------------------------------------------
// Specifications
// ---------------------------------------------------------------------------

/// The key of ANSI color `i`: `color0` to `color15`.
pub open spec fn color_key(i: nat) -> Seq<char> {
    "color"@ + decimal(i)
}

/// A color as Kitty's config holds it: with a leading `#`.
pub open spec fn hash_color(c: Seq<char>) -> Seq<char> {
    seq!['#'] + c
}

/// A color as read back from Kitty's config: without leading `#`.
pub open spec fn kitty_color(v: Option<Seq<char>>) -> Option<Seq<char>> {
    match v {
        Some(c) => Some(strip_leading(c, '#')),
        None => None,
    }
}

/// Managed lines after setting `key` to the color `c`.
pub open spec fn set_color(ls: Seq<Seq<char>>, key: Seq<char>, c: Seq<char>) -> Seq<Seq<char>> {
    without_key(KvSyntax::Space, ls, key).push(format_line(KvSyntax::Space, key, hash_color(c)))
}

/// Managed lines after setting `key` to the color `c`, if there is one.
pub open spec fn set_color_opt(ls: Seq<Seq<char>>, key: Seq<char>, c: Option<String>) -> Seq<Seq<char>> {
    match c {
        Some(v) => set_color(ls, key, v@),
        None => ls,
    }
}

/// Managed lines after setting `color0` to `color{n-1}`.
pub open spec fn set_colors(ls: Seq<Seq<char>>, p: Palette, n: nat) -> Seq<Seq<char>>
    decreases n,
{
    if n == 0 {
        ls
    } else {
        set_color(set_colors(ls, p, (n - 1) as nat), color_key((n - 1) as nat), p.ansi@[n - 1]@)
    }
}

/// The managed lines after applying theme `t`.
pub open spec fn applied_managed(m: Seq<Seq<char>>, t: Theme) -> Seq<Seq<char>> {
    let p = t.palette;
    let m1 = set_color(set_color(m, "background"@, p.background@), "foreground"@, p.foreground@);
    let m2 = set_color_opt(set_color_opt(set_color_opt(m1, "cursor"@, p.cursor), "selection_background"@, p.selection_background), "selection_foreground"@, p.selection_foreground);
    set_colors(m2, p, 16)
}

/// Are all sixteen color keys set?
pub open spec fn all_colors_set(s: KvSyntax, prefix: Seq<Seq<char>>, managed: Seq<Seq<char>>) -> bool {
    forall|i: nat| i < 16 ==> (#[trigger] lookup(s, prefix, managed, color_key(i))) is Some
}

/// What reading the palette of a Kitty config with these lines gives: the
/// colors (without `#`) if background, foreground and all 16 ANSI colors
/// are set, else nothing.
pub open spec fn read_palette(s: KvSyntax, prefix: Seq<Seq<char>>, managed: Seq<Seq<char>>) -> Option<PaletteView> {
    let bg = lookup(s, prefix, managed, "background"@);
    let fg = lookup(s, prefix, managed, "foreground"@);
    if bg is None || fg is None || !all_colors_set(s, prefix, managed) {
        None
    } else {
        Some(PaletteView {
            background: strip_leading(bg.unwrap(), '#'),
            foreground: strip_leading(fg.unwrap(), '#'),
            cursor: kitty_color(lookup(s, prefix, managed, "cursor"@)),
            selection_background: kitty_color(lookup(s, prefix, managed, "selection_background"@)),
            selection_foreground: kitty_color(lookup(s, prefix, managed, "selection_foreground"@)),
            ansi: Seq::new(16, |i: int| strip_leading(lookup(s, prefix, managed, color_key(i as nat)).unwrap(), '#')),
        })
    }
}

/// A color that reads back as written: no whitespace at its ends, no
/// leading `#`.
pub open spec fn plain_color(c: Seq<char>) -> bool {
    trim(c) == c && (c.len() == 0 || c[0] != '#')
}

/// Is every color of the palette plain?
pub open spec fn plain_colors(p: Palette) -> bool {
    &&& plain_color(p.background@)
    &&& plain_color(p.foreground@)
    &&& (p.cursor matches Some(c) ==> plain_color(c@))
    &&& (p.selection_background matches Some(c) ==> plain_color(c@))
    &&& (p.selection_foreground matches Some(c) ==> plain_color(c@))
    &&& forall|i: int| 0 <= i < 16 ==> plain_color((#[trigger] p.ansi@[i])@)
}

/// Is `k` one of the keys `apply_theme` sets?
pub open spec fn is_theme_key(k: Seq<char>) -> bool {
    ||| k == "background"@
    ||| k == "foreground"@
    ||| k == "cursor"@
    ||| k == "selection_background"@
    ||| k == "selection_foreground"@
    ||| exists|i: nat| i < 16 && k == #[trigger] color_key(i)
}

// ---------------------------------------------------------------------------
// Lemmas
// ---------------------------------------------------------------------------

/// A text of lowercase letters and underscores has no whitespace.
proof fn lemma_word(k: Seq<char>)
    requires
        k.len() > 0,
        forall|i: int| 0 <= i < k.len() ==> ('a' <= #[trigger] k[i] && k[i] <= 'z') || k[i] == '_',
    ensures
        valid_key(KvSyntax::Space, k),
{
    assert(('a' <= k[0] && k[0] <= 'z') || k[0] == '_');
    assert(('a' <= k.last() && k.last() <= 'z') || k.last() == '_') by {
        assert(k.last() == k[k.len() - 1]);
    }
    assert forall|i: int| 0 <= i < k.len() implies !is_ws(#[trigger] k[i]) by {
        assert(('a' <= k[i] && k[i] <= 'z') || k[i] == '_');
    }
}

/// The keys Kitty's adapter writes are valid keys for `key value`.
proof fn lemma_kitty_keys_valid()
    ensures
        valid_key(KvSyntax::Space, "background"@),
        valid_key(KvSyntax::Space, "foreground"@),
        valid_key(KvSyntax::Space, "cursor"@),
        valid_key(KvSyntax::Space, "selection_background"@),
        valid_key(KvSyntax::Space, "selection_foreground"@),
        valid_key(KvSyntax::Space, "font_family"@),
        valid_key(KvSyntax::Space, "font_size"@),
        valid_key(KvSyntax::Space, "background_opacity"@),
{
    reveal_strlit("background");
    reveal_strlit("foreground");
    reveal_strlit("cursor");
    reveal_strlit("selection_background");
    reveal_strlit("selection_foreground");
    reveal_strlit("font_family");
    reveal_strlit("font_size");
    reveal_strlit("background_opacity");
    lemma_word("background"@);
    lemma_word("foreground"@);
    lemma_word("cursor"@);
    lemma_word("selection_background"@);
    lemma_word("selection_foreground"@);
    lemma_word("font_family"@);
    lemma_word("font_size"@);
    lemma_word("background_opacity"@);
}

/// The color keys are valid, distinct from each other, and distinct from
/// the other keys Kitty's adapter writes.
proof fn lemma_color_key(i: nat)
    requires
        i < 16,
    ensures
        valid_key(KvSyntax::Space, color_key(i)),
        color_key(i) != "background"@,
        color_key(i) != "foreground"@,
        color_key(i) != "cursor"@,
        color_key(i) != "selection_background"@,
        color_key(i) != "selection_foreground"@,
        forall|j: nat| j < 16 && j != i ==> color_key(i) != #[trigger] color_key(j),
        color_key(i).skip(5) == decimal(i),
{
    reveal_strlit("color");
    reveal_strlit("background");
    reveal_strlit("foreground");
    reveal_strlit("cursor");
    reveal_strlit("selection_background");
    reveal_strlit("selection_foreground");
    let k = color_key(i);
    let d = decimal(i);
    lemma_parse_decimal(i);
    assert(k.len() == 5 + d.len());
    assert(d.len() <= 2) by {
        if i >= 10 {
            assert(decimal(i / 10).len() == 1);
        }
    }
    assert(k[0] == 'c');
    assert(k[1] == 'o');
    assert(!is_ws(k.last())) by {
        assert(k.last() == d[d.len() - 1]);
        assert(is_digit(d[d.len() - 1]));
    }
    assert forall|j: int| 0 <= j < k.len() implies !is_ws(#[trigger] k[j]) by {
        if j >= 5 {
            assert(k[j] == d[j - 5]);
            assert(is_digit(d[j - 5]));
        }
    }
    assert(k.skip(5) =~= d);
    assert("cursor"@[1] == 'u');
    assert("background"@.len() == 10);
    assert("foreground"@.len() == 10);
    assert("selection_background"@.len() == 20);
    assert("selection_foreground"@.len() == 20);
    assert forall|j: nat| j < 16 && j != i implies color_key(i) != #[trigger] color_key(j) by {
        lemma_parse_decimal(j);
        if color_key(i) == color_key(j) {
            assert(color_key(j).skip(5) =~= decimal(j));
            assert(decimal(i) == decimal(j));
        }
    }
}

/// A plain color, written with `#`, reads back as itself.
proof fn lemma_plain_color(c: Seq<char>)
    requires
        plain_color(c),
    ensures
        trim(hash_color(c)) == hash_color(c),
        strip_leading(hash_color(c), '#') == c,
        valid_value(KvSyntax::Space, hash_color(c)),
{
    let h = hash_color(c);
    lemma_trim_shape(c);
    assert(h[0] == '#');
    assert(!is_ws(h.last())) by {
        if c.len() > 0 {
            assert(h.last() == c.last());
        }
    }
    crate::text::lemma_trim_id(h);
    assert(h.drop_first() =~= c);
    assert(h.len() > 0);
    assert(strip_leading(c, '#') == c);
    assert(strip_leading(h, '#') == strip_leading(h.drop_first(), '#'));
    lemma_hash_nonblank(c);
}

/// After setting `color0` to `color{n-1}`, each of them looks up its color,
/// and every other key what it did before.
proof fn lemma_set_colors(pre: Seq<Seq<char>>, m: Seq<Seq<char>>, p: Palette, n: nat)
    requires
        n <= 16,
    ensures
        forall|i: nat| i < n ==> #[trigger] lookup(KvSyntax::Space, pre, set_colors(m, p, n), color_key(i))
            == Some(trim(hash_color(p.ansi@[i as int]@))),
        forall|k: Seq<char>| (forall|j: nat| j < n ==> k != #[trigger] color_key(j)) ==> #[trigger] lookup(
            KvSyntax::Space,
            pre,
            set_colors(m, p, n),
            k,
        ) == lookup(KvSyntax::Space, pre, m, k),
    decreases n,
{
    if n > 0 {
        let s = KvSyntax::Space;
        lemma_set_colors(pre, m, p, (n - 1) as nat);
        let prev = set_colors(m, p, (n - 1) as nat);
        let key = color_key((n - 1) as nat);
        lemma_color_key((n - 1) as nat);
        let c = p.ansi@[n - 1]@;
        assert(valid_value(s, hash_color(c))) by {
            assert(hash_color(c)[0] == '#');
            assert(trim_start(hash_color(c)) == hash_color(c));
            lemma_trim_shape(hash_color(c));
            crate::text::lemma_trim_of_trim_end(hash_color(c));
            lemma_hash_nonblank(c);
        }
        lemma_set_frame(s, pre, prev, key, hash_color(c));
        assert forall|i: nat| i < n implies #[trigger] lookup(s, pre, set_colors(m, p, n), color_key(i))
            == Some(trim(hash_color(p.ansi@[i as int]@))) by {
            if i < n - 1 {
                assert(color_key(i) != key);
            }
        }
    }
}

/// A color written with `#` is never blank.
proof fn lemma_hash_nonblank(c: Seq<char>)
    ensures
        trim(hash_color(c)).len() > 0,
{
    let h = hash_color(c);
    assert(h[0] == '#');
    assert(!is_ws(h[0]));
    assert(trim_start(h) == h);
    lemma_trim_end_nonempty(h);
}

/// Trimming the end of a text that starts with something other than
/// whitespace leaves that first character.
proof fn lemma_trim_end_nonempty(h: Seq<char>)
    requires
        h.len() > 0,
        !is_ws(h[0]),
    ensures
        trim_end(h).len() > 0,
    decreases h.len(),
{
    if is_ws(h.last()) {
        assert(h.len() > 1);
        assert(h.drop_last()[0] == h[0]);
        lemma_trim_end_nonempty(h.drop_last());
    }
}

/// What looking up each key gives after applying a theme.
proof fn lemma_apply_lookups(pre: Seq<Seq<char>>, m: Seq<Seq<char>>, t: Theme)
    ensures
        ({
            let s = KvSyntax::Space;
            let p = t.palette;
            let man = applied_managed(m, t);
            &&& lookup(s, pre, man, "background"@) == Some(trim(hash_color(p.background@)))
            &&& lookup(s, pre, man, "foreground"@) == Some(trim(hash_color(p.foreground@)))
            &&& (p.cursor matches Some(c) ==> lookup(s, pre, man, "cursor"@) == Some(trim(hash_color(c@))))
            &&& (p.selection_background matches Some(c) ==> lookup(s, pre, man, "selection_background"@) == Some(trim(hash_color(c@))))
            &&& (p.selection_foreground matches Some(c) ==> lookup(s, pre, man, "selection_foreground"@) == Some(trim(hash_color(c@))))
            &&& forall|i: nat| i < 16 ==> #[trigger] lookup(s, pre, man, color_key(i)) == Some(trim(hash_color(p.ansi@[i as int]@)))
            &&& forall|k: Seq<char>| !is_theme_key(k) ==> #[trigger] lookup(s, pre, man, k) == lookup(s, pre, m, k)
        }),
{
    let s = KvSyntax::Space;
    let p = t.palette;
    lemma_kitty_keys_valid();
    reveal_strlit("background");
    reveal_strlit("foreground");
    reveal_strlit("cursor");
    reveal_strlit("selection_background");
    reveal_strlit("selection_foreground");
    assert("background"@[0] != "foreground"@[0]);
    assert("selection_background"@[10] != "selection_foreground"@[10]);
    assert("cursor"@.len() == 6);
    assert("background"@.len() == 10);
    assert("foreground"@.len() == 10);
    assert("selection_background"@.len() == 20);
    assert("selection_foreground"@.len() == 20);
    lemma_hash_nonblank(p.background@);
    lemma_hash_nonblank(p.foreground@);
    let ma = set_color(m, "background"@, p.background@);
    lemma_set_frame(s, pre, m, "background"@, hash_color(p.background@));
    let m1 = set_color(ma, "foreground"@, p.foreground@);
    lemma_set_frame(s, pre, ma, "foreground"@, hash_color(p.foreground@));
    let mb = set_color_opt(m1, "cursor"@, p.cursor);
    if let Some(c) = p.cursor {
        lemma_hash_nonblank(c@);
        lemma_set_frame(s, pre, m1, "cursor"@, hash_color(c@));
    }
    let mc = set_color_opt(mb, "selection_background"@, p.selection_background);
    if let Some(c) = p.selection_background {
        lemma_hash_nonblank(c@);
        lemma_set_frame(s, pre, mb, "selection_background"@, hash_color(c@));
    }
    let m2 = set_color_opt(mc, "selection_foreground"@, p.selection_foreground);
    if let Some(c) = p.selection_foreground {
        lemma_hash_nonblank(c@);
        lemma_set_frame(s, pre, mc, "selection_foreground"@, hash_color(c@));
    }
    lemma_set_colors(pre, m2, p, 16);
    let man = set_colors(m2, p, 16);
    lemma_color_key(0);
    assert forall|j: nat| j < 16 implies "background"@ != #[trigger] color_key(j) by {
        lemma_color_key(j);
    }
    assert forall|j: nat| j < 16 implies "foreground"@ != #[trigger] color_key(j) by {
        lemma_color_key(j);
    }
    assert forall|j: nat| j < 16 implies "cursor"@ != #[trigger] color_key(j) by {
        lemma_color_key(j);
    }
    assert forall|j: nat| j < 16 implies "selection_background"@ != #[trigger] color_key(j) by {
        lemma_color_key(j);
    }
    assert forall|j: nat| j < 16 implies "selection_foreground"@ != #[trigger] color_key(j) by {
        lemma_color_key(j);
    }
    assert forall|k: Seq<char>| !is_theme_key(k) implies #[trigger] lookup(s, pre, man, k) == lookup(s, pre, m, k) by {
        assert forall|j: nat| j < 16 implies k != #[trigger] color_key(j) by {
            if k == color_key(j) {
                assert(is_theme_key(k));
            }
        }
    }
}

/// Reading the palette back after applying a theme gives the theme's
/// colors (for plain colors: no whitespace at their ends, no leading `#`):
/// the background, foreground and 16 ANSI colors always, the cursor and
/// selection colors where the theme has them.
pub proof fn lemma_apply_then_read(prefix: Seq<Seq<char>>, managed: Seq<Seq<char>>, t: Theme)
    requires
        plain_colors(t.palette),
    ensures
        read_palette(KvSyntax::Space, prefix, applied_managed(managed, t)) matches Some(v) && {
            &&& v.background == t.palette@.background
            &&& v.foreground == t.palette@.foreground
            &&& v.ansi == t.palette@.ansi
            &&& (t.palette.cursor is Some ==> v.cursor == t.palette@.cursor)
            &&& (t.palette.selection_background is Some ==> v.selection_background == t.palette@.selection_background)
            &&& (t.palette.selection_foreground is Some ==> v.selection_foreground == t.palette@.selection_foreground)
        },
{
    let p = t.palette;
    let s = KvSyntax::Space;
    let man = applied_managed(managed, t);
    lemma_apply_lookups(prefix, managed, t);
    lemma_plain_color(p.background@);
    lemma_plain_color(p.foreground@);
    if let Some(c) = p.cursor {
        lemma_plain_color(c@);
    }
    if let Some(c) = p.selection_background {
        lemma_plain_color(c@);
    }
    if let Some(c) = p.selection_foreground {
        lemma_plain_color(c@);
    }
    assert forall|i: nat| i < 16 implies (#[trigger] lookup(s, prefix, man, color_key(i))) is Some by {}
    let v = read_palette(s, prefix, man)->Some_0;
    assert forall|i: int| 0 <= i < 16 implies #[trigger] v.ansi[i] == t.palette@.ansi[i] by {
        lemma_plain_color(p.ansi@[i]@);
        assert(lookup(s, prefix, man, color_key(i as nat)) == Some(trim(hash_color(p.ansi@[i]@))));
    }
    assert(v.ansi =~= t.palette@.ansi);
}

/// Applying a theme sets `color0` to `color15` (the slot number written in
/// decimal after `color`) to `#` and the palette's ANSI color for that
/// slot, and `background` and `foreground` to `#` and the theme's colors,
/// for colors written without whitespace at their ends.
pub proof fn lemma_applied_color_keys(prefix: Seq<Seq<char>>, managed: Seq<Seq<char>>, t: Theme)
    requires
        trim(t.palette.background@) == t.palette.background@,
        trim(t.palette.foreground@) == t.palette.foreground@,
        forall|i: int| 0 <= i < 16 ==> trim((#[trigger] t.palette.ansi@[i])@) == t.palette.ansi@[i]@,
    ensures
        lookup(KvSyntax::Space, prefix, applied_managed(managed, t), "background"@) == Some(seq!['#'] + t.palette.background@),
        lookup(KvSyntax::Space, prefix, applied_managed(managed, t), "foreground"@) == Some(seq!['#'] + t.palette.foreground@),
        forall|i: nat| i < 16 ==> #[trigger] lookup(KvSyntax::Space, prefix, applied_managed(managed, t), "color"@ + decimal(i))
            == Some(seq!['#'] + t.palette.ansi@[i as int]@),
{
    let p = t.palette;
    lemma_apply_lookups(prefix, managed, t);
    lemma_hash_trimmed(p.background@);
    lemma_hash_trimmed(p.foreground@);
    assert forall|i: nat| i < 16 implies #[trigger] lookup(KvSyntax::Space, prefix, applied_managed(managed, t), "color"@ + decimal(i))
        == Some(seq!['#'] + p.ansi@[i as int]@) by {
        lemma_hash_trimmed(p.ansi@[i as int]@);
        assert(color_key(i) == "color"@ + decimal(i));
    }
}

/// A trimmed color written with `#` is trimmed too.
proof fn lemma_hash_trimmed(c: Seq<char>)
    requires
        trim(c) == c,
    ensures
        trim(hash_color(c)) == hash_color(c),
{
    let h = hash_color(c);
    lemma_trim_shape(c);
    assert(h[0] == '#');
    if c.len() > 0 {
        assert(h.last() == c.last());
    }
    crate::text::lemma_trim_id(h);
}

/// Applying a theme leaves every setting it doesn't own as it was.
pub proof fn lemma_apply_keeps_other_settings(prefix: Seq<Seq<char>>, managed: Seq<Seq<char>>, t: Theme, k: Seq<char>)
    requires
        !is_theme_key(k),
    ensures
        lookup(KvSyntax::Space, prefix, applied_managed(managed, t), k) == lookup(KvSyntax::Space, prefix, managed, k),
{
    lemma_apply_lookups(prefix, managed, t);
}

// ---------------------------------------------------------------------------
// Applying a theme twice
// ---------------------------------------------------------------------------

/// The line that sets `key` to the color `c`.
pub open spec fn color_line(key: Seq<char>, c: Seq<char>) -> Seq<char> {
    format_line(KvSyntax::Space, key, hash_color(c))
}

/// `a` followed by the line for the color `c`, if there is one.
pub open spec fn push_color_opt(a: Seq<Seq<char>>, key: Seq<char>, c: Option<String>) -> Seq<Seq<char>> {
    match c {
        Some(v) => a.push(color_line(key, v@)),
        None => a,
    }
}

/// `a` followed by the lines for `color0` to `color{n-1}`.
pub open spec fn push_colors(a: Seq<Seq<char>>, p: Palette, n: nat) -> Seq<Seq<char>>
    decreases n,
{
    if n == 0 {
        a
    } else {
        push_colors(a, p, (n - 1) as nat).push(color_line(color_key((n - 1) as nat), p.ansi@[n - 1]@))
    }
}

/// The lines a theme's colors are written as, in the order they are set.
pub open spec fn theme_lines(t: Theme) -> Seq<Seq<char>> {
    let p = t.palette;
    let a = seq![color_line("background"@, p.background@), color_line("foreground"@, p.foreground@)];
    let b = push_color_opt(push_color_opt(push_color_opt(a, "cursor"@, p.cursor), "selection_background"@, p.selection_background), "selection_foreground"@, p.selection_foreground);
    push_colors(b, p, 16)
}

/// `k` with `key` added when the color `c` is there.
pub open spec fn key_opt(k: Set<Seq<char>>, key: Seq<char>, c: Option<String>) -> Set<Seq<char>> {
    if c is Some {
        k.insert(key)
    } else {
        k
    }
}

/// `k` with `color0` to `color{n-1}` added.
pub open spec fn with_color_keys(k: Set<Seq<char>>, n: nat) -> Set<Seq<char>>
    decreases n,
{
    if n == 0 {
        k
    } else {
        with_color_keys(k, (n - 1) as nat).insert(color_key((n - 1) as nat))
    }
}

/// The keys applying a theme sets.
pub open spec fn theme_key_set(t: Theme) -> Set<Seq<char>> {
    let p = t.palette;
    let k = Set::empty().insert("background"@).insert("foreground"@);
    with_color_keys(key_opt(key_opt(key_opt(k, "cursor"@, p.cursor), "selection_background"@, p.selection_background), "selection_foreground"@, p.selection_foreground), 16)
}

/// What `with_color_keys` holds.
proof fn lemma_with_color_keys(k: Set<Seq<char>>, n: nat, x: Seq<char>)
    requires
        n <= 16,
    ensures
        with_color_keys(k, n).contains(x) <==> (k.contains(x) || exists|j: nat| j < n && x == #[trigger] color_key(j)),
    decreases n,
{
    if n > 0 {
        lemma_with_color_keys(k, (n - 1) as nat, x);
        if x == color_key((n - 1) as nat) {
            assert(exists|j: nat| j < n && x == #[trigger] color_key(j));
        }
        if exists|j: nat| j < n && x == #[trigger] color_key(j) {
            let j = choose|j: nat| j < n && x == #[trigger] color_key(j);
            if j < n - 1 {
                assert(exists|j: nat| j < n - 1 && x == #[trigger] color_key(j));
            }
        }
    }
}

/// A color line is a valid line for its key.
proof fn lemma_color_value(c: Seq<char>)
    ensures
        valid_value(KvSyntax::Space, hash_color(c)),
{
    lemma_hash_nonblank(c);
}

/// Setting `color0` to `color{n-1}` on lines made of the user's lines
/// without some keys, then lines that set those keys.
proof fn lemma_colors_after_strip(m: Seq<Seq<char>>, k: Set<Seq<char>>, a: Seq<Seq<char>>, p: Palette, n: nat)
    requires
        n <= 16,
        forall|j: nat| j < 16 ==> !k.contains(#[trigger] color_key(j)),
        forall|i: int| 0 <= i < a.len() ==> sets_one_of(KvSyntax::Space, #[trigger] a[i], k),
    ensures
        set_colors(strip_keys(KvSyntax::Space, m, k) + a, p, n) == strip_keys(KvSyntax::Space, m, with_color_keys(k, n)) + push_colors(a, p, n),
        forall|i: int| 0 <= i < push_colors(a, p, n).len() ==> sets_one_of(KvSyntax::Space, #[trigger] push_colors(a, p, n)[i], with_color_keys(k, n)),
    decreases n,
{
    if n > 0 {
        let j = (n - 1) as nat;
        lemma_colors_after_strip(m, k, a, p, j);
        lemma_color_key(j);
        lemma_with_color_keys(k, j, color_key(j));
        if with_color_keys(k, j).contains(color_key(j)) {
            let q = choose|q: nat| q < j && color_key(j) == #[trigger] color_key(q);
            assert(color_key(j) != color_key(q));
        }
        lemma_color_value(p.ansi@[n - 1]@);
        lemma_set_after_strip(KvSyntax::Space, m, with_color_keys(k, j), push_colors(a, p, j), color_key(j), hash_color(p.ansi@[n - 1]@));
    }
}

/// The managed lines after applying a theme are the earlier ones without
/// the lines for the keys it sets, followed by its own lines.
proof fn lemma_applied_split(m: Seq<Seq<char>>, t: Theme)
    ensures
        applied_managed(m, t) == strip_keys(KvSyntax::Space, m, theme_key_set(t)) + theme_lines(t),
        forall|i: int| 0 <= i < theme_lines(t).len() ==> sets_one_of(KvSyntax::Space, #[trigger] theme_lines(t)[i], theme_key_set(t)),
{
    let s = KvSyntax::Space;
    let p = t.palette;
    reveal_strlit("background");
    reveal_strlit("foreground");
    reveal_strlit("cursor");
    reveal_strlit("selection_background");
    reveal_strlit("selection_foreground");
    lemma_kitty_keys_valid();
    assert("background"@.len() == 10 && "foreground"@[0] != "background"@[0]);
    assert("cursor"@.len() == 6);
    assert("selection_background"@.len() == 20 && "selection_foreground"@[10] != "selection_background"@[10]);
    lemma_strip_none(s, m);
    let e = Seq::<Seq<char>>::empty();
    let k0 = Set::<Seq<char>>::empty();
    assert(strip_keys(s, m, k0) + e =~= m);
    lemma_color_value(p.background@);
    lemma_set_after_strip(s, m, k0, e, "background"@, hash_color(p.background@));
    let k1 = k0.insert("background"@);
    let a1 = e.push(color_line("background"@, p.background@));
    lemma_color_value(p.foreground@);
    lemma_set_after_strip(s, m, k1, a1, "foreground"@, hash_color(p.foreground@));
    let k2 = k1.insert("foreground"@);
    let a2 = a1.push(color_line("foreground"@, p.foreground@));
    assert(a2 =~= seq![color_line("background"@, p.background@), color_line("foreground"@, p.foreground@)]);
    let k3 = key_opt(k2, "cursor"@, p.cursor);
    let a3 = push_color_opt(a2, "cursor"@, p.cursor);
    if let Some(c) = p.cursor {
        lemma_color_value(c@);
        lemma_set_after_strip(s, m, k2, a2, "cursor"@, hash_color(c@));
    }
    let k4 = key_opt(k3, "selection_background"@, p.selection_background);
    let a4 = push_color_opt(a3, "selection_background"@, p.selection_background);
    if let Some(c) = p.selection_background {
        lemma_color_value(c@);
        lemma_set_after_strip(s, m, k3, a3, "selection_background"@, hash_color(c@));
    }
    let k5 = key_opt(k4, "selection_foreground"@, p.selection_foreground);
    let a5 = push_color_opt(a4, "selection_foreground"@, p.selection_foreground);
    if let Some(c) = p.selection_foreground {
        lemma_color_value(c@);
        lemma_set_after_strip(s, m, k4, a4, "selection_foreground"@, hash_color(c@));
    }
    assert forall|j: nat| j < 16 implies !k5.contains(#[trigger] color_key(j)) by {
        lemma_color_key(j);
    }
    lemma_colors_after_strip(m, k5, a5, p, 16);
}

/// Applying the same theme again changes nothing: the managed lines after
/// a second apply are those after the first, so no line is duplicated.
pub proof fn lemma_apply_twice(managed: Seq<Seq<char>>, t: Theme)
    ensures
        applied_managed(applied_managed(managed, t), t) == applied_managed(managed, t),
{
    let s = KvSyntax::Space;
    let k = theme_key_set(t);
    let tl = theme_lines(t);
    lemma_applied_split(managed, t);
    let once = strip_keys(s, managed, k) + tl;
    lemma_applied_split(once, t);
    lemma_strip_concat(s, strip_keys(s, managed, k), tl, k);
    lemma_strip_twice(s, managed, k);
    lemma_strip_all(s, tl, k);
    assert(strip_keys(s, managed, k) + Seq::<Seq<char>>::empty() =~= strip_keys(s, managed, k));
}

// ---------------------------------------------------------------------------
// Saving and loading again
// ---------------------------------------------------------------------------

/// A key for `key value` holds no newline.
proof fn lemma_key_one_line(k: Seq<char>)
    requires
        valid_key(KvSyntax::Space, k),
    ensures
        !has_char(k, '\n'),
{
    if has_char(k, '\n') {
        let i = choose|i: int| 0 <= i < k.len() && k[i] == '\n';
        assert(!is_ws(k[i]));
    }
}

/// Setting a key for `key value` to a storable color keeps every line
/// storable.
proof fn lemma_set_color_storable(ls: Seq<Seq<char>>, key: Seq<char>, c: Seq<char>)
    requires
        all_storable(ls),
        valid_key(KvSyntax::Space, key),
        storable(c),
    ensures
        all_storable(set_color(ls, key, c)),
{
    let s = KvSyntax::Space;
    lemma_key_one_line(key);
    let h = hash_color(c);
    assert(!has_char(h, '\n')) by {
        if has_char(h, '\n') {
            let k = choose|k: int| 0 <= k < h.len() && h[k] == '\n';
            if k > 0 {
                assert(c[k - 1] == h[k]);
            }
        }
    }
    if c.len() > 0 {
        assert(h.last() == c.last());
    }
    lemma_format_line_storable(s, key, h);
    lemma_without_key_keeps_lines(s, ls, key, |l: Seq<char>| storable(l));
    let w = without_key(s, ls, key);
    assert forall|i: int| 0 <= i < set_color(ls, key, c).len() implies storable(#[trigger] set_color(ls, key, c)[i]) by {
        if i < w.len() {
            assert(set_color(ls, key, c)[i] == w[i]);
        }
    }
}

/// Setting the first `n` ANSI colors, each plain and on one line, keeps
/// every line storable.
proof fn lemma_set_colors_storable(ls: Seq<Seq<char>>, p: Palette, n: nat)
    requires
        all_storable(ls),
        n <= 16,
        plain_colors(p),
        single_line_colors(p),
    ensures
        all_storable(set_colors(ls, p, n)),
    decreases n,
{
    if n > 0 {
        lemma_set_colors_storable(ls, p, (n - 1) as nat);
        lemma_color_key((n - 1) as nat);
        lemma_trimmed_storable(p.ansi@[n - 1]@);
        lemma_set_color_storable(set_colors(ls, p, (n - 1) as nat), color_key((n - 1) as nat), p.ansi@[n - 1]@);
    }
}

/// The managed lines after applying a theme with plain, one-line colors to
/// storable lines are storable, and there are some.
proof fn lemma_applied_managed_storable(m: Seq<Seq<char>>, t: Theme)
    requires
        all_storable(m),
        plain_colors(t.palette),
        single_line_colors(t.palette),
    ensures
        all_storable(applied_managed(m, t)),
        applied_managed(m, t).len() > 0,
{
    let p = t.palette;
    lemma_kitty_keys_valid();
    lemma_trimmed_storable(p.background@);
    lemma_trimmed_storable(p.foreground@);
    let m1a = set_color(m, "background"@, p.background@);
    lemma_set_color_storable(m, "background"@, p.background@);
    let m1 = set_color(m1a, "foreground"@, p.foreground@);
    lemma_set_color_storable(m1a, "foreground"@, p.foreground@);
    let m2a = set_color_opt(m1, "cursor"@, p.cursor);
    if let Some(c) = p.cursor {
        lemma_trimmed_storable(c@);
        lemma_set_color_storable(m1, "cursor"@, c@);
    }
    let m2b = set_color_opt(m2a, "selection_background"@, p.selection_background);
    if let Some(c) = p.selection_background {
        lemma_trimmed_storable(c@);
        lemma_set_color_storable(m2a, "selection_background"@, c@);
    }
    let m2 = set_color_opt(m2b, "selection_foreground"@, p.selection_foreground);
    if let Some(c) = p.selection_foreground {
        lemma_trimmed_storable(c@);
        lemma_set_color_storable(m2b, "selection_foreground"@, c@);
    }
    lemma_set_colors_storable(m2, p, 16);
    assert(set_colors(m2, p, 16).len() > 0);
}

/// Applying a theme to a config loaded from `text`, saving it, and loading
/// the saved text again reads back the theme's colors: the background,
/// foreground and 16 ANSI colors always, the cursor and selection colors
/// where the theme has them. This holds for a text whose lines are each
/// storable and a theme whose colors are plain and on one line.
pub proof fn lemma_apply_save_load_read(text: Seq<char>, t: Theme)
    requires
        all_storable(lines(text)),
        plain_colors(t.palette),
        single_line_colors(t.palette),
    ensures
        ({
            let ls = lines(text);
            let saved = rendered(loaded_prefix(ls), applied_managed(loaded_managed(ls), t));
            read_palette(KvSyntax::Space, loaded_prefix(lines(saved)), loaded_managed(lines(saved))) matches Some(v) && {
                &&& v.background == t.palette@.background
                &&& v.foreground == t.palette@.foreground
                &&& v.ansi == t.palette@.ansi
                &&& (t.palette.cursor is Some ==> v.cursor == t.palette@.cursor)
                &&& (t.palette.selection_background is Some ==> v.selection_background == t.palette@.selection_background)
                &&& (t.palette.selection_foreground is Some ==> v.selection_foreground == t.palette@.selection_foreground)
            }
        }),
{
    let s = KvSyntax::Space;
    let ls = lines(text);
    lemma_loaded_lines(text);
    let pre = loaded_prefix(ls);
    let man = applied_managed(loaded_managed(ls), t);
    lemma_applied_managed_storable(loaded_managed(ls), t);
    let saved = lines(rendered(pre, man));
    let pre2 = loaded_prefix(saved);
    let man2 = loaded_managed(saved);
    assert forall|k: Seq<char>| #[trigger] lookup(s, pre2, man2, k) == lookup(s, pre, man, k) by {
        lemma_save_load_lookups(s, pre, man, k);
    }
    lemma_apply_then_read(pre, loaded_managed(ls), t);
    let v = read_palette(s, pre, man)->Some_0;
    assert(all_colors_set(s, pre2, man2));
    let v2 = read_palette(s, pre2, man2)->Some_0;
    assert(v2.ansi =~= v.ansi);
}

// ---------------------------------------------------------------------------
// Executable code
// ---------------------------------------------------------------------------

/// The color a config sets for `key`, without leading `#`.
fn color_of(cfg: &KvConfig, key: &str) -> (r: Option<String>)
    ensures
        opt_view(r) == kitty_color(lookup(cfg.syntax, cfg.prefix(), cfg.managed(), key@)),
{
    match cfg.get(key) {
        None => None,
        Some(v) => {
            let cs = chars_of(v.as_str());
            let mut i: usize = 0;
            assert(cs@.skip(0) =~= cs@);
            while i < cs.len() && cs[i] == '#'
                invariant
                    i <= cs.len(),
                    strip_leading(cs@, '#') == strip_leading(cs@.skip(i as int), '#'),
                decreases cs.len() - i,
            {
                assert(cs@.skip(i as int).drop_first() =~= cs@.skip(i + 1));
                i = i + 1;
            }
            let rest = crate::text::slice_of(&cs, i, cs.len());
            assert(rest@ =~= cs@.skip(i as int));
            Some(string_of(&rest))
        },
    }
}

/// The key of ANSI color `i`.
fn color_key_string(i: usize) -> (r: String)
    requires
        i < 16,
    ensures
        r@ == color_key(i as nat),
{
    let mut k = chars_of("color");
    let d = small_decimal(i);
    extend(&mut k, &d);
    string_of(&k)
}

/// A color with a leading `#`.
fn hashed(c: &String) -> (r: String)
    ensures
        r@ == hash_color(c@),
{
    let mut v: Vec<char> = Vec::new();
    v.push('#');
    let cs = chars_of(c.as_str());
    extend(&mut v, &cs);
    assert(v@ =~= hash_color(c@));
    string_of(&v)
}

impl KittyAdapter {
    /// The font family, font size and background opacity the config sets.
    pub fn read_current(&self, cfg: &KvConfig) -> (r: CurrentSettings)
        ensures
            opt_view(r.font_family) == lookup(cfg.syntax, cfg.prefix(), cfg.managed(), "font_family"@),
            opt_view(r.font_size) == lookup(cfg.syntax, cfg.prefix(), cfg.managed(), "font_size"@),
            opt_view(r.opacity) == lookup(cfg.syntax, cfg.prefix(), cfg.managed(), "background_opacity"@),
    {
        CurrentSettings {
            font_family: cfg.get("font_family"),
            font_size: cfg.get("font_size"),
            opacity: cfg.get("background_opacity"),
        }
    }

    /// The colors currently configured, if background, foreground and all
    /// 16 ANSI colors are set (each without its leading `#`).
    pub fn read_current_palette(&self, cfg: &KvConfig) -> (r: Result<Option<Palette>, String>)
        ensures
            r is Ok,
            match r {
                Ok(Some(p)) => read_palette(cfg.syntax, cfg.prefix(), cfg.managed()) == Some(p@),
                _ => read_palette(cfg.syntax, cfg.prefix(), cfg.managed()) is None,
            },
    {
        let background = match color_of(cfg, "background") {
            Some(b) => b,
            None => return Ok(None),
        };
        let foreground = match color_of(cfg, "foreground") {
            Some(f) => f,
            None => return Ok(None),
        };
        let mut ansi = empty_ansi();
        let mut i: usize = 0;
        while i < 16
            invariant
                i <= 16,
                forall|j: nat| j < i ==> (#[trigger] lookup(cfg.syntax, cfg.prefix(), cfg.managed(), color_key(j))) is Some,
                forall|j: int| 0 <= j < i ==> Some((#[trigger] ansi@[j])@) == kitty_color(
                    lookup(cfg.syntax, cfg.prefix(), cfg.managed(), color_key(j as nat)),
                ),
            decreases 16 - i,
        {
            let key = color_key_string(i);
            match color_of(cfg, key.as_str()) {
                Some(c) => {
                    ansi[i] = c;
                },
                None => {
                    proof {
                        assert(lookup(cfg.syntax, cfg.prefix(), cfg.managed(), color_key(i as nat)) is None);
                        assert(!all_colors_set(cfg.syntax, cfg.prefix(), cfg.managed()));
                    }
                    return Ok(None);
                },
            }
            i = i + 1;
        }
        let p = Palette {
            background,
            foreground,
            cursor: color_of(cfg, "cursor"),
            selection_background: color_of(cfg, "selection_background"),
            selection_foreground: color_of(cfg, "selection_foreground"),
            ansi,
        };
        proof {
            let v = read_palette(cfg.syntax, cfg.prefix(), cfg.managed())->Some_0;
            assert(p@.ansi =~= v.ansi);
            assert(opt_chars(p.cursor) == opt_view(p.cursor));
        }
        Ok(Some(p))
    }

    /// Applies a theme's colors (each written with a leading `#`):
    /// background, foreground, the cursor and selection colors it has, and
    /// `color0` to `color15`. Every other line is left as it was.
    pub fn apply_theme(&self, cfg: &mut KvConfig, theme: &Theme)
        requires
            old(cfg).syntax == KvSyntax::Space,
        ensures
            final(cfg).syntax == KvSyntax::Space,
            final(cfg).prefix() == old(cfg).prefix(),
            final(cfg).managed() == applied_managed(old(cfg).managed(), *theme),
    {
        let ghost m0 = cfg.managed();
        let pal = &theme.palette;
        cfg.set("background", hashed(&pal.background).as_str());
        cfg.set("foreground", hashed(&pal.foreground).as_str());
        match &pal.cursor {
            Some(c) => cfg.set("cursor", hashed(c).as_str()),
            None => {},
        }
        match &pal.selection_background {
            Some(c) => cfg.set("selection_background", hashed(c).as_str()),
            None => {},
        }
        match &pal.selection_foreground {
            Some(c) => cfg.set("selection_foreground", hashed(c).as_str()),
            None => {},
        }
        let ghost m2 = cfg.managed();
        let mut i: usize = 0;
        while i < 16
            invariant
                i <= 16,
                cfg.syntax == KvSyntax::Space,
                cfg.prefix() == old(cfg).prefix(),
                pal == &theme.palette,
                cfg.managed() == set_colors(m2, theme.palette, i as nat),
            decreases 16 - i,
        {
            let key = color_key_string(i);
            cfg.set(key.as_str(), hashed(&pal.ansi[i]).as_str());
            i = i + 1;
        }
    }

    /// Sets the font family and size (the size as the text to write).
    pub fn apply_font(&self, cfg: &mut KvConfig, family: &str, size: &str)
        requires
            old(cfg).syntax == KvSyntax::Space,
        ensures
            final(cfg).syntax == KvSyntax::Space,
            final(cfg).prefix() == old(cfg).prefix(),
            final(cfg).managed() == without_key(
                KvSyntax::Space,
                without_key(KvSyntax::Space, old(cfg).managed(), "font_family"@).push(
                    format_line(KvSyntax::Space, "font_family"@, family@),
                ),
                "font_size"@,
            ).push(format_line(KvSyntax::Space, "font_size"@, size@)),
    {
        cfg.set("font_family", family);
        cfg.set("font_size", size);
    }

    /// Sets the background opacity (as the text to write).
    pub fn apply_opacity(&self, cfg: &mut KvConfig, opacity: &str)
        requires
            old(cfg).syntax == KvSyntax::Space,
        ensures
            final(cfg).syntax == KvSyntax::Space,
            final(cfg).prefix() == old(cfg).prefix(),
            final(cfg).managed() == without_key(KvSyntax::Space, old(cfg).managed(), "background_opacity"@).push(
                format_line(KvSyntax::Space, "background_opacity"@, opacity@),
            ),
    {
        cfg.set("background_opacity", opacity);
    }
}

} // verus!
