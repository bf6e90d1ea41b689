//! Ghostty's bundled color schemes: plain files (one theme per file, named
//! by theme name) in the same flat `key = value` format as its main config.
//! This reads one such file into a palette, names and orders the themes,
//! and works out the channels that decide whether a theme looks light.
use vstd::prelude::*;

use crate::config_dir::{join_path, path_join};
use crate::kv_config::{format_line, last_value, lemma_parse_format, line_has_key, parse_line, valid_key, KvSyntax};
use crate::text::{
    chars_of, hex_pair, is_char, lines, parse_hex_pair, parse_usize, parse_usize_chars, same_chars,
    slice_of, split_lines, split_once, string_of, strip_leading, trim, trimmed, find_char, lemma_first_index,
    decimal, has_char, is_digit, is_ws, lemma_first_index_at, lemma_parse_decimal, lemma_trim_end_append,
    lemma_trim_of_trim_end, trim_end, trim_start,
};
use crate::theme::{empty_ansi, Palette, Theme, ThemeSource, ThemeVariant};
use crate::theme_store::{opt_view, slug, slugify};

verus! {

// ---------------------------------------------------------------------------
// Specifications
// ---------------------------------------------------------------------------

/// A color value as written in a theme file: trimmed, without leading `#`.
pub open spec fn strip_hash(v: Seq<char>) -> Seq<char> {
    strip_leading(trim(v), '#')
}

/// The color a theme file sets for `key`: the last such line wins.
pub open spec fn file_color(ls: Seq<Seq<char>>, key: Seq<char>) -> Option<Seq<char>> {
    match last_value(KvSyntax::Equals, ls, key) {
        Some(v) => Some(strip_hash(v)),
        None => None,
    }
}

/// A `palette` value `N=COLOR` with `N` below 16.
pub open spec fn palette_entry(v: Seq<char>) -> Option<(nat, Seq<char>)> {
    match split_once(v, is_char('=')) {
        Some(parts) => match parse_usize(trim(parts.0)) {
            Some(i) => if i < 16 {
                Some((i, strip_hash(parts.1)))
            } else {
                None
            },
            None => None,
        },
        None => None,
    }
}

/// The ANSI slot and color a `palette = N=COLOR` line sets.
pub open spec fn line_slot(l: Seq<char>) -> Option<(nat, Seq<char>)> {
    if line_has_key(KvSyntax::Equals, l, "palette"@) {
        palette_entry(parse_line(KvSyntax::Equals, l).unwrap().1)
    } else {
        None
    }
}

/// The color a theme file sets for ANSI slot `i`: the last `palette` line
/// for that slot wins.
pub open spec fn slot_color(ls: Seq<Seq<char>>, i: nat) -> Option<Seq<char>>
    decreases ls.len(),
{
    if ls.len() == 0 {
        None
    } else {
        match line_slot(ls.last()) {
            Some(e) => if e.0 == i {
                Some(e.1)
            } else {
                slot_color(ls.drop_last(), i)
            },
            None => slot_color(ls.drop_last(), i),
        }
    }
}

/// A theme file is complete when it sets a background, a foreground, and
/// all 16 ANSI colors.
pub open spec fn file_complete(ls: Seq<Seq<char>>) -> bool {
    &&& file_color(ls, "background"@) is Some
    &&& file_color(ls, "foreground"@) is Some
    &&& forall|i: nat| i < 16 ==> (#[trigger] slot_color(ls, i)) is Some
}

/// The palette read from a complete theme file with lines `ls`.
pub open spec fn palette_from_file(p: Palette, ls: Seq<Seq<char>>) -> bool {
    &&& Some(p.background@) == file_color(ls, "background"@)
    &&& Some(p.foreground@) == file_color(ls, "foreground"@)
    &&& opt_view(p.cursor) == file_color(ls, "cursor-color"@)
    &&& opt_view(p.selection_background) == file_color(ls, "selection-background"@)
    &&& opt_view(p.selection_foreground) == file_color(ls, "selection-foreground"@)
    &&& forall|i: nat| i < 16 ==> Some((#[trigger] p.ansi@[i as int])@) == slot_color(ls, i)
}

/// Is every character ASCII?
pub open spec fn all_ascii(s: Seq<char>) -> bool {
    forall|i: int| 0 <= i < s.len() ==> (#[trigger] s[i]) < '\u{80}'
}

/// The red, green and blue channels of a six-digit hex color (as
/// `u8::from_str_radix` reads each pair).
pub open spec fn rgb_of(hex: Seq<char>) -> Option<(nat, nat, nat)> {
    if hex.len() == 6 && all_ascii(hex) {
        match (hex_pair(hex[0], hex[1]), hex_pair(hex[2], hex[3]), hex_pair(hex[4], hex[5])) {
            (Some(r), Some(g), Some(b)) => Some((r, g, b)),
            _ => None,
        }
    } else {
        None
    }
}

/// Is `a` ordered before or equal to `b`, character by character, as
/// `String`'s `Ord` orders them?
pub open spec fn lex_le(a: Seq<char>, b: Seq<char>) -> bool
    decreases a.len(),
{
    if a.len() == 0 {
        true
    } else if b.len() == 0 {
        false
    } else if a[0] != b[0] {
        a[0] < b[0]
    } else {
        lex_le(a.drop_first(), b.drop_first())
    }
}

/// Are the themes in name order?
pub open spec fn sorted_by_name(ts: Seq<Theme>) -> bool {
    forall|i: int, j: int| 0 <= i < j < ts.len() ==> lex_le(#[trigger] ts[i].name@, #[trigger] ts[j].name@)
}

/// The directories a Ghostty install may keep its bundled themes in, in
/// the order they are tried: the per-user macOS app (when `HOME` is known),
/// the system-wide macOS app, then the usual Linux package locations.
pub open spec fn candidate_paths(home: Option<Seq<char>>) -> Seq<Seq<char>> {
    let rest = seq![
        "/Applications/Ghostty.app/Contents/Resources/ghostty/themes"@,
        "/usr/share/ghostty/themes"@,
        "/usr/local/share/ghostty/themes"@,
        "/usr/lib/ghostty/themes"@,
    ];
    match home {
        Some(h) => seq![path_join(h, "Applications/Ghostty.app/Contents/Resources/ghostty/themes"@)] + rest,
        None => rest,
    }
}

/// The first of `paths` whose flag in `is_dir` (same position) is set; a
/// path without a flag counts as not a directory.
pub open spec fn first_flagged(paths: Seq<Seq<char>>, is_dir: Seq<bool>) -> Option<Seq<char>>
    decreases paths.len(),
{
    if paths.len() == 0 || is_dir.len() == 0 {
        None
    } else if is_dir[0] {
        Some(paths[0])
    } else {
        first_flagged(paths.drop_first(), is_dir.drop_first())
    }
}

/// `t` is the theme made from a bundled file: its name, palette and
/// guessed variant.
pub open spec fn is_bundled(t: Theme, f: (String, Palette, ThemeVariant)) -> bool {
    &&& t.id@ == "ghostty-"@ + slug(f.0@)
    &&& t.name == f.0
    &&& t.palette == f.1
    &&& t.variant == f.2
    &&& t.source == ThemeSource::BuiltIn
    &&& t.git_url is None
}

/// `built` holds, in order, the theme made from each bundled file.
pub open spec fn all_bundled(built: Seq<Theme>, found: Seq<(String, Palette, ThemeVariant)>) -> bool {
    &&& built.len() == found.len()
    &&& forall|i: int| 0 <= i < found.len() ==> is_bundled(#[trigger] built[i], found[i])
}

// ---------------------------------------------------------------------------
// Lemmas
// ---------------------------------------------------------------------------

/// Any two texts are ordered one way or the other.
pub proof fn lemma_lex_total(a: Seq<char>, b: Seq<char>)
    ensures
        lex_le(a, b) || lex_le(b, a),
    decreases a.len(),
{
    if a.len() > 0 && b.len() > 0 && a[0] == b[0] {
        lemma_lex_total(a.drop_first(), b.drop_first());
    }
}

/// The order is transitive.
pub proof fn lemma_lex_trans(a: Seq<char>, b: Seq<char>, c: Seq<char>)
    requires
        lex_le(a, b),
        lex_le(b, c),
    ensures
        lex_le(a, c),
    decreases a.len(),
{
    if a.len() > 0 && b.len() > 0 && c.len() > 0 && a[0] == b[0] && b[0] == c[0] {
        lemma_lex_trans(a.drop_first(), b.drop_first(), c.drop_first());
    }
}

/// The keys a theme file sets are six different keys.
proof fn lemma_theme_keys_distinct()
    ensures
        "background"@ != "foreground"@,
        "background"@ != "cursor-color"@,
        "background"@ != "selection-background"@,
        "background"@ != "selection-foreground"@,
        "background"@ != "palette"@,
        "foreground"@ != "cursor-color"@,
        "foreground"@ != "selection-background"@,
        "foreground"@ != "selection-foreground"@,
        "foreground"@ != "palette"@,
        "cursor-color"@ != "selection-background"@,
        "cursor-color"@ != "selection-foreground"@,
        "cursor-color"@ != "palette"@,
        "selection-background"@ != "selection-foreground"@,
        "selection-background"@ != "palette"@,
        "selection-foreground"@ != "palette"@,
{
    reveal_strlit("background");
    reveal_strlit("foreground");
    reveal_strlit("cursor-color");
    reveal_strlit("selection-background");
    reveal_strlit("selection-foreground");
    reveal_strlit("palette");
    assert("background"@[0] != "foreground"@[0]);
    assert("cursor-color"@.len() == 12);
    assert("palette"@.len() == 7);
    assert("selection-background"@.len() == 20);
    assert("selection-foreground"@.len() == 20);
    assert("background"@.len() == 10);
    assert("foreground"@.len() == 10);
    assert("selection-background"@[10] != "selection-foreground"@[10]);
}

/// The line `palette = N=COLOR`, with `N` below 16 written in decimal,
/// sets ANSI slot `N` to `COLOR` trimmed and without leading `#`.
pub proof fn lemma_palette_line_slot(n: nat, c: Seq<char>)
    requires
        n < 16,
    ensures
        line_slot("palette = "@ + decimal(n) + "="@ + c) == Some((n, strip_leading(trim(c), '#'))),
{
    reveal_strlit("palette = ");
    reveal_strlit("palette");
    reveal_strlit("=");
    let e = KvSyntax::Equals;
    let key = "palette"@;
    let d = decimal(n);
    let a = d + seq!['='];
    let v = a + c;
    let l = "palette = "@ + d + "="@ + c;
    assert(l =~= format_line(e, key, v));
    assert(valid_key(e, key)) by {
        assert(key.len() == 7);
        assert(!is_ws(key[0]) && !is_ws(key.last()));
        if has_char(key, '=') {
            let i = choose|i: int| 0 <= i < key.len() && key[i] == '=';
            assert(key[i] != '=');
        }
    }
    lemma_parse_format(e, key, v);
    lemma_parse_decimal(n);
    lemma_trim_end_append(a, c);
    assert(trim_end(a) == a) by {
        assert(a.last() == '=');
    }
    let c2 = trim_end(c);
    let t = a + c2;
    assert(trim_end(v) == t) by {
        if c2.len() == 0 {
            assert(a + c2 =~= a);
        }
    }
    assert(v[0] == d[0]);
    assert(is_digit(d[0]));
    assert(trim_start(v) == v);
    assert(trim(v) == t);
    assert(parse_line(e, l) == Some((key, t)));
    let k = d.len() as int;
    assert(t[k] == '=');
    assert forall|j: int| 0 <= j < k implies !is_char('=')(#[trigger] t[j]) by {
        assert(t[j] == d[j]);
        assert(is_digit(d[j]));
    }
    lemma_first_index_at(t, is_char('='), k);
    assert(t.take(k) =~= d);
    assert(t.skip(k + 1) =~= c2);
    assert(trim(d) == d) by {
        crate::text::lemma_trim_id(d);
    }
    lemma_trim_of_trim_end(c);
}

/// Does line `l` set no ANSI slot other than `n`: it is no `palette` line,
/// or it is `palette = M=COLOR` for some other `M` below 16 (in decimal)?
pub open spec fn sets_no_slot_but(l: Seq<char>, n: nat) -> bool {
    ||| !line_has_key(KvSyntax::Equals, l, "palette"@)
    ||| exists|m: nat, c: Seq<char>| m < 16 && m != n && l == "palette = "@ + decimal(m) + "="@ + c
}

/// `slot_color` of lines whose line `k` is `palette = N=COLOR` and whose
/// later lines set no other entry for slot `N`.
proof fn lemma_slot_color_at(ls: Seq<Seq<char>>, k: int, n: nat, c: Seq<char>)
    requires
        n < 16,
        0 <= k < ls.len(),
        ls[k] == "palette = "@ + decimal(n) + "="@ + c,
        forall|j: int| k < j < ls.len() ==> sets_no_slot_but(#[trigger] ls[j], n),
    ensures
        slot_color(ls, n) == Some(strip_leading(trim(c), '#')),
    decreases ls.len(),
{
    if k == ls.len() - 1 {
        lemma_palette_line_slot(n, c);
        assert(ls.last() == ls[k]);
    } else {
        let l = ls.last();
        assert(l == ls[ls.len() - 1]);
        assert(sets_no_slot_but(l, n));
        if line_has_key(KvSyntax::Equals, l, "palette"@) {
            let (m, c2) = choose|m: nat, c2: Seq<char>| m < 16 && m != n && l == "palette = "@ + decimal(m) + "="@ + c2;
            lemma_palette_line_slot(m, c2);
        }
        let d = ls.drop_last();
        assert forall|j: int| k < j < d.len() implies sets_no_slot_but(#[trigger] d[j], n) by {
            assert(d[j] == ls[j]);
        }
        lemma_slot_color_at(d, k, n, c);
    }
}

/// A theme file's line `palette = N=COLOR` (`N` below 16, in decimal) gives
/// the palette read from the file (`p`, as `parse_theme_file` returns it)
/// `COLOR` in ANSI slot `N`, trimmed and without leading `#`, when no later
/// line sets slot `N`.
pub proof fn lemma_palette_line_sets_slot(text: Seq<char>, p: Palette, k: int, n: nat, c: Seq<char>)
    requires
        palette_from_file(p, lines(text)),
        n < 16,
        0 <= k < lines(text).len(),
        lines(text)[k] == "palette = "@ + decimal(n) + "="@ + c,
        forall|j: int| k < j < lines(text).len() ==> sets_no_slot_but(#[trigger] lines(text)[j], n),
    ensures
        p.ansi@[n as int]@ == strip_leading(trim(c), '#'),
{
    lemma_slot_color_at(lines(text), k, n, c);
    assert(Some(p.ansi@[n as int]@) == slot_color(lines(text), n));
}

// ---------------------------------------------------------------------------
// Executable code
// ---------------------------------------------------------------------------

/// A color value as written in a theme file: trimmed, without leading `#`.
pub fn strip_hash_chars(v: &[char]) -> (r: Vec<char>)
    ensures
        r@ == strip_hash(v@),
{
    let t = trimmed(v);
    let mut i: usize = 0;
    assert(t@.skip(0) =~= t@);
    while i < t.len() && t[i] == '#'
        invariant
            i <= t.len(),
            strip_leading(t@, '#') == strip_leading(t@.skip(i as int), '#'),
        decreases t.len() - i,
    {
        assert(t@.skip(i as int).drop_first() =~= t@.skip(i + 1));
        i = i + 1;
    }
    assert(t@.skip(i as int) =~= t@.subrange(i as int, t@.len() as int));
    slice_of(&t, i, t.len())
}

/// Reads a `palette` value `N=COLOR` with `N` below 16.
fn parse_palette_entry(v: &[char]) -> (r: Option<(usize, Vec<char>)>)
    ensures
        match r {
            Some(e) => palette_entry(v@) == Some((e.0 as nat, e.1@)),
            None => palette_entry(v@) is None,
        },
{
    proof {
        lemma_first_index(v@, is_char('='));
    }
    match find_char(v, '=') {
        None => None,
        Some(k) => {
            let a = slice_of(v, 0, k);
            assert(k < v.len());
            let b = slice_of(v, k + 1, v.len());
            assert(a@ =~= v@.take(k as int));
            assert(b@ =~= v@.skip(k + 1));
            let at = trimmed(&a);
            match parse_usize_chars(&at) {
                Some(i) => {
                    if i < 16 {
                        Some((i, strip_hash_chars(&b)))
                    } else {
                        None
                    }
                },
                None => None,
            }
        },
    }
}

/// Reads a Ghostty theme file. `None` unless it sets a background, a
/// foreground and all 16 palette entries; later lines override earlier
/// ones, and lines for other keys, blank lines, comments, and lines without
/// `=` are skipped.
pub fn parse_theme_file(contents: &str) -> (r: Option<Palette>)
    ensures
        r is Some <==> file_complete(lines(contents@)),
        r matches Some(p) ==> palette_from_file(p, lines(contents@)),
{
    let cs = chars_of(contents);
    let ls = split_lines(&cs);
    let ghost lv = crate::text::vviews(ls@);
    let k_background = chars_of("background");
    let k_foreground = chars_of("foreground");
    let k_cursor = chars_of("cursor-color");
    let k_sel_bg = chars_of("selection-background");
    let k_sel_fg = chars_of("selection-foreground");
    let k_palette = chars_of("palette");
    let mut background: Option<Vec<char>> = None;
    let mut foreground: Option<Vec<char>> = None;
    let mut cursor: Option<Vec<char>> = None;
    let mut sel_bg: Option<Vec<char>> = None;
    let mut sel_fg: Option<Vec<char>> = None;
    let mut ansi: Vec<Vec<char>> = Vec::new();
    let mut set: Vec<bool> = Vec::new();
    let mut n: usize = 0;
    while n < 16
        invariant
            n <= 16,
            ansi.len() == n,
            set.len() == n,
            forall|j: int| 0 <= j < n ==> !(#[trigger] set@[j]),
        decreases 16 - n,
    {
        ansi.push(Vec::new());
        set.push(false);
        n = n + 1;
    }
    let mut k: usize = 0;
    while k < ls.len()
        invariant
            k <= ls.len(),
            lv == crate::text::vviews(ls@),
            k_background@ == "background"@,
            k_foreground@ == "foreground"@,
            k_cursor@ == "cursor-color"@,
            k_sel_bg@ == "selection-background"@,
            k_sel_fg@ == "selection-foreground"@,
            k_palette@ == "palette"@,
            ansi.len() == 16,
            set.len() == 16,
            match background {
                Some(v) => file_color(lv.take(k as int), "background"@) == Some(v@),
                None => file_color(lv.take(k as int), "background"@) is None,
            },
            match foreground {
                Some(v) => file_color(lv.take(k as int), "foreground"@) == Some(v@),
                None => file_color(lv.take(k as int), "foreground"@) is None,
            },
            match cursor {
                Some(v) => file_color(lv.take(k as int), "cursor-color"@) == Some(v@),
                None => file_color(lv.take(k as int), "cursor-color"@) is None,
            },
            match sel_bg {
                Some(v) => file_color(lv.take(k as int), "selection-background"@) == Some(v@),
                None => file_color(lv.take(k as int), "selection-background"@) is None,
            },
            match sel_fg {
                Some(v) => file_color(lv.take(k as int), "selection-foreground"@) == Some(v@),
                None => file_color(lv.take(k as int), "selection-foreground"@) is None,
            },
            forall|i: nat| i < 16 ==> (#[trigger] set@[i as int] <==> slot_color(lv.take(k as int), i) is Some),
            forall|i: nat| i < 16 && set@[i as int] ==> Some((#[trigger] ansi@[i as int])@) == slot_color(lv.take(k as int), i),
        decreases ls.len() - k,
    {
        proof {
            lemma_theme_keys_distinct();
        }
        let ghost t = lv.take(k as int);
        let ghost t2 = lv.take(k + 1);
        assert(t2.drop_last() =~= t);
        assert(t2.last() == ls@[k as int]@);
        let ghost line = ls@[k as int]@;
        let ghost old_set = set@;
        let ghost old_ansi = ansi@;
        let parsed = KvSyntax::Equals.parse_chars(&ls[k]);
        let entry: Option<(usize, Vec<char>)> = match &parsed {
            Some(kv) => {
                if same_chars(&kv.0, &k_palette) {
                    parse_palette_entry(&kv.1)
                } else {
                    None
                }
            },
            None => None,
        };
        match &parsed {
            None => {},
            Some(kv) => {
                let key = &kv.0;
                let value = &kv.1;
                if same_chars(key, &k_background) {
                    background = Some(strip_hash_chars(value));
                } else if same_chars(key, &k_foreground) {
                    foreground = Some(strip_hash_chars(value));
                } else if same_chars(key, &k_cursor) {
                    cursor = Some(strip_hash_chars(value));
                } else if same_chars(key, &k_sel_bg) {
                    sel_bg = Some(strip_hash_chars(value));
                } else if same_chars(key, &k_sel_fg) {
                    sel_fg = Some(strip_hash_chars(value));
                }
            },
        }
        assert(match entry {
            Some(e) => line_slot(line) == Some((e.0 as nat, e.1@)),
            None => line_slot(line) is None,
        });
        match entry {
            Some(e) => {
                let idx = e.0;
                ansi.set(idx, e.1);
                set.set(idx, true);
            },
            None => {},
        }
        proof {
            assert forall|i: nat| i < 16 implies (#[trigger] set@[i as int] <==> slot_color(t2, i) is Some) by {
                assert(slot_color(t, i) is Some <==> old_set[i as int]);
            }
            assert forall|i: nat| i < 16 && set@[i as int] implies Some((#[trigger] ansi@[i as int])@) == slot_color(t2, i) by {
                if line_slot(line) matches Some(e) && e.0 == i {
                } else {
                    assert(old_set[i as int]);
                    assert(ansi@[i as int] == old_ansi[i as int]);
                }
            }
        }
        k = k + 1;
    }
    let ghost all = lv.take(ls.len() as int);
    assert(all =~= lv);
    let complete = background.is_some() && foreground.is_some() && all_set(&set);
    if !complete {
        proof {
            if background.is_some() && foreground.is_some() {
                let i = choose|i: int| 0 <= i < 16 && !set@[i];
                assert(slot_color(lv, i as nat) is None);
            }
        }
        return None;
    }
    let mut arr = empty_ansi();
    let mut i: usize = 0;
    while i < 16
        invariant
            i <= 16,
            ansi.len() == 16,
            forall|j: int| 0 <= j < i ==> (#[trigger] arr@[j])@ == ansi@[j]@,
        decreases 16 - i,
    {
        arr[i] = string_of(&ansi[i]);
        i = i + 1;
    }
    let p = Palette {
        background: string_of(background.as_ref().unwrap()),
        foreground: string_of(foreground.as_ref().unwrap()),
        cursor: match &cursor {
            Some(v) => Some(string_of(v)),
            None => None,
        },
        selection_background: match &sel_bg {
            Some(v) => Some(string_of(v)),
            None => None,
        },
        selection_foreground: match &sel_fg {
            Some(v) => Some(string_of(v)),
            None => None,
        },
        ansi: arr,
    };
    proof {
        assert forall|i: nat| i < 16 implies (#[trigger] slot_color(lv, i)) is Some by {
            assert(set@[i as int]);
        }
        assert forall|i: nat| i < 16 implies Some((#[trigger] p.ansi@[i as int])@) == slot_color(lv, i) by {
            assert(set@[i as int]);
        }
    }
    Some(p)
}

/// Are all sixteen slots set?
fn all_set(set: &Vec<bool>) -> (r: bool)
    requires
        set.len() == 16,
    ensures
        r == forall|i: int| 0 <= i < 16 ==> set@[i],
{
    let mut i: usize = 0;
    while i < 16
        invariant
            i <= 16,
            set.len() == 16,
            forall|j: int| 0 <= j < i ==> set@[j],
        decreases 16 - i,
    {
        if !set[i] {
            return false;
        }
        i = i + 1;
    }
    true
}

/// The red, green and blue channels of a palette's background, when it is
/// six hex digits; they decide whether the theme looks light or dark.
pub fn background_channels(palette: &Palette) -> (r: Option<(u8, u8, u8)>)
    ensures
        match r {
            Some(c) => rgb_of(palette.background@) == Some((c.0 as nat, c.1 as nat, c.2 as nat)),
            None => rgb_of(palette.background@) is None,
        },
{
    let h = chars_of(palette.background.as_str());
    if h.len() != 6 {
        return None;
    }
    let mut i: usize = 0;
    while i < 6
        invariant
            i <= 6,
            h.len() == 6,
            h@ == palette.background@,
            forall|j: int| 0 <= j < i ==> (#[trigger] h@[j]) < '\u{80}',
        decreases 6 - i,
    {
        if h[i] >= '\u{80}' {
            assert(!all_ascii(h@));
            return None;
        }
        i = i + 1;
    }
    match (parse_hex_pair(h[0], h[1]), parse_hex_pair(h[2], h[3]), parse_hex_pair(h[4], h[5])) {
        (Some(r), Some(g), Some(b)) => Some((r, g, b)),
        _ => None,
    }
}

/// The theme for a bundled Ghostty theme file named `name`.
pub fn bundled_theme(name: String, palette: Palette, variant: ThemeVariant) -> (t: Theme)
    ensures
        t.id@ == "ghostty-"@ + slug(name@),
        t.name == name,
        t.variant == variant,
        t.source == ThemeSource::BuiltIn,
        t.git_url is None,
        t.palette == palette,
{
    let mut id = String::from_str("ghostty-");
    let s = slugify(name.as_str());
    id.append(s.as_str());
    Theme { id, name, variant, source: ThemeSource::BuiltIn, git_url: None, palette }
}

/// Is `a` ordered before or equal to `b`?
fn name_le(a: &String, b: &String) -> (r: bool)
    ensures
        r == lex_le(a@, b@),
{
    let x = chars_of(a.as_str());
    let y = chars_of(b.as_str());
    let mut i: usize = 0;
    assert(x@.skip(0) =~= x@);
    assert(y@.skip(0) =~= y@);
    while i < x.len() && i < y.len() && x[i] == y[i]
        invariant
            i <= x.len(),
            i <= y.len(),
            lex_le(x@, y@) == lex_le(x@.skip(i as int), y@.skip(i as int)),
        decreases x.len() - i,
    {
        assert(x@.skip(i as int).drop_first() =~= x@.skip(i + 1));
        assert(y@.skip(i as int).drop_first() =~= y@.skip(i + 1));
        i = i + 1;
    }
    if i == x.len() {
        true
    } else if i == y.len() {
        false
    } else {
        x[i] < y[i]
    }
}

/// The themes in name order (equal names keep their order), as
/// `sort_by` on the names orders them.
pub fn sort_by_name(themes: Vec<Theme>) -> (r: Vec<Theme>)
    ensures
        sorted_by_name(r@),
        r@.to_multiset() == themes@.to_multiset(),
{
    broadcast use vstd::seq_lib::group_to_multiset_ensures;

    let mut r: Vec<Theme> = Vec::new();
    let mut k: usize = 0;
    assert(r@ =~= themes@.take(0));
    while k < themes.len()
        invariant
            k <= themes.len(),
            sorted_by_name(r@),
            r@.to_multiset() == themes@.take(k as int).to_multiset(),
        decreases themes.len() - k,
    {
        let t = themes[k].duplicate();
        let mut j: usize = 0;
        while j < r.len() && name_le(&r[j].name, &t.name)
            invariant
                j <= r.len(),
                forall|q: int| 0 <= q < j ==> lex_le(#[trigger] r@[q].name@, t.name@),
            decreases r.len() - j,
        {
            j = j + 1;
        }
        proof {
            if j < r.len() {
                lemma_lex_total(r@[j as int].name@, t.name@);
            }
            assert forall|q: int| j <= q < r.len() implies lex_le(t.name@, #[trigger] r@[q].name@) by {
                if q > j {
                    lemma_lex_trans(t.name@, r@[j as int].name@, r@[q].name@);
                }
            }
        }
        let ghost before = r@;
        r.insert(j, t);
        proof {
            assert forall|a: int, b: int| 0 <= a < b < r@.len() implies lex_le(#[trigger] r@[a].name@, #[trigger] r@[b].name@) by {
                if a < j && b == j {
                } else if a == j {
                    assert(r@[b] == before[b - 1]);
                } else if b < j {
                    assert(r@[a] == before[a]);
                    assert(r@[b] == before[b]);
                } else if a < j {
                    assert(r@[b] == before[b - 1]);
                    lemma_lex_trans(r@[a].name@, t.name@, r@[b].name@);
                } else {
                    assert(r@[a] == before[a - 1]);
                    assert(r@[b] == before[b - 1]);
                }
            }
            assert(themes@.take(k + 1) =~= themes@.take(k as int).push(themes@[k as int]));
            vstd::seq_lib::to_multiset_build(themes@.take(k as int), themes@[k as int]);
            vstd::seq_lib::to_multiset_insert(before, j as int, themes@[k as int]);
        }
        k = k + 1;
    }
    assert(themes@.take(themes.len() as int) =~= themes@);
    r
}

/// The directories a Ghostty install keeps its bundled themes in, in the
/// order they are tried (`candidate_paths`).
pub fn candidate_dirs(home: Option<String>) -> (r: Vec<String>)
    ensures
        r@.map_values(|d: String| d@) == candidate_paths(opt_view(home)),
{
    let mut dirs: Vec<String> = Vec::new();
    match home {
        Some(h) => {
            dirs.push(join_path(h.as_str(), "Applications/Ghostty.app/Contents/Resources/ghostty/themes"));
        },
        None => {},
    }
    dirs.push(String::from_str("/Applications/Ghostty.app/Contents/Resources/ghostty/themes"));
    dirs.push(String::from_str("/usr/share/ghostty/themes"));
    dirs.push(String::from_str("/usr/local/share/ghostty/themes"));
    dirs.push(String::from_str("/usr/lib/ghostty/themes"));
    assert(dirs@.map_values(|d: String| d@) =~= candidate_paths(opt_view(home)));
    dirs
}

/// Where this Ghostty install keeps its bundled themes, given `HOME` and,
/// for each of the candidate directories (`candidate_dirs(home)`, in order),
/// whether it is a directory: the first candidate that is one, if any.
pub fn bundled_themes_dir(home: Option<String>, is_dir: Vec<bool>) -> (r: Option<String>)
    ensures
        opt_view(r) == first_flagged(candidate_paths(opt_view(home)), is_dir@),
{
    let dirs = candidate_dirs(home);
    let ghost paths = candidate_paths(opt_view(home));
    let mut i: usize = 0;
    assert(paths.skip(0) =~= paths);
    assert(is_dir@.skip(0) =~= is_dir@);
    while i < dirs.len() && i < is_dir.len()
        invariant
            i <= dirs.len(),
            i <= is_dir.len(),
            paths == candidate_paths(opt_view(home)),
            dirs@.map_values(|d: String| d@) == paths,
            first_flagged(paths, is_dir@) == first_flagged(paths.skip(i as int), is_dir@.skip(i as int)),
        decreases dirs.len() - i,
    {
        assert(paths.skip(i as int).drop_first() =~= paths.skip(i + 1));
        assert(is_dir@.skip(i as int).drop_first() =~= is_dir@.skip(i + 1));
        assert(paths.skip(i as int)[0] == dirs@[i as int]@);
        assert(is_dir@.skip(i as int)[0] == is_dir@[i as int]);
        if is_dir[i] {
            let d = dirs[i].clone();
            assert(paths.skip(i as int).len() > 0 && is_dir@.skip(i as int).len() > 0);
            assert(first_flagged(paths.skip(i as int), is_dir@.skip(i as int)) == Some(d@));
            return Some(d);
        }
        i = i + 1;
    }
    assert(paths.len() == dirs@.len());
    assert(paths.skip(i as int).len() == 0 || is_dir@.skip(i as int).len() == 0);
    None
}

/// The bundled themes, from the files that parsed (each with its file
/// name, palette and guessed variant): one built-in theme per file, with
/// id `ghostty-<slug of the name>`, in name order.
pub fn list_bundled_themes(found: Vec<(String, Palette, ThemeVariant)>) -> (r: Vec<Theme>)
    ensures
        sorted_by_name(r@),
        exists|built: Seq<Theme>| #[trigger] all_bundled(built, found@) && r@.to_multiset() == built.to_multiset(),
{
    let mut built: Vec<Theme> = Vec::new();
    let mut i: usize = 0;
    while i < found.len()
        invariant
            i <= found.len(),
            built@.len() == i,
            forall|j: int| 0 <= j < i ==> is_bundled(#[trigger] built@[j], found@[j]),
        decreases found.len() - i,
    {
        let t = bundled_theme(found[i].0.clone(), found[i].1.duplicate(), found[i].2);
        built.push(t);
        i = i + 1;
    }
    let ghost b = built@;
    let r = sort_by_name(built);
    assert(all_bundled(b, found@) && r@.to_multiset() == b.to_multiset());
    r
}

} // verus!
