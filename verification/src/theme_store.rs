//! The theme list: Sheets' built-in themes, Ghostty's bundled ones, and the
//! user's own; lookups, filters, reverse-matching a palette to a theme, and
//! the rules for saving, removing and exporting user themes.
use vstd::prelude::*;

use crate::config_dir::{join_path, path_join};

use crate::text::{
    same_ignoring_ascii_case, chars_of, eq_ignore_ascii_case, extend, has_char, join, lemma_split_on_len, split_on,
    lemma_split_on_join,
    string_of, trim, trimmed};
use crate::theme::{period_accepts, Palette, Period, Theme, ThemeSource, ThemeVariant};

verus! {

// ---------------------------------------------------------------------------
// Outside functions
// ---------------------------------------------------------------------------

/// What `str::to_lowercase` gives for a text (Unicode lowercase mapping).
pub uninterp spec fn lowercase(s: Seq<char>) -> Seq<char>;

/// What `char::is_alphanumeric` says of a character (Unicode Alphabetic or
/// Numeric).
pub uninterp spec fn alphanumeric(c: char) -> bool;

/// `str::to_lowercase`: the Unicode lowercase of `s`, a function of `s`
/// alone; nothing more is claimed of it.
#[verifier::external_body]
fn to_lowercase(s: &str) -> (r: String)
    ensures
        r@ == lowercase(s@),
{
    s.to_lowercase()
}

/// `char::is_alphanumeric`: whether `c` is Unicode Alphabetic or Numeric,
/// a function of `c` alone; nothing more is claimed of it.
#[verifier::external_body]
fn is_alphanumeric(c: char) -> (r: bool)
    ensures
        r == alphanumeric(c),
{
    c.is_alphanumeric()
}

// ---------------------------------------------------------------------------
// Specifications
// ---------------------------------------------------------------------------

/// The characters of an optional string.
pub open spec fn opt_view(o: Option<String>) -> Option<Seq<char>> {
    match o {
        Some(s) => Some(s@),
        None => None,
    }
}

/// The sixteen ANSI colors of a palette.
pub open spec fn ansi_view(p: Palette) -> Seq<Seq<char>> {
    p.ansi@.map_values(|s: String| s@)
}

/// Two palettes describe the same theme: background, foreground and all 16
/// ANSI colors equal up to ASCII case.
pub open spec fn same_colors(a: Palette, b: Palette) -> bool {
    &&& eq_ignore_ascii_case(a.background@, b.background@)
    &&& eq_ignore_ascii_case(a.foreground@, b.foreground@)
    &&& forall|i: int| 0 <= i < 16 ==> eq_ignore_ascii_case(#[trigger] a.ansi@[i]@, b.ansi@[i]@)
}

/// A palette with exactly these colors.
pub open spec fn palette_is(
    p: Palette,
    background: Seq<char>,
    foreground: Seq<char>,
    cursor: Option<Seq<char>>,
    selection_background: Option<Seq<char>>,
    selection_foreground: Option<Seq<char>>,
    ansi: Seq<Seq<char>>,
) -> bool {
    &&& p.background@ == background
    &&& p.foreground@ == foreground
    &&& opt_view(p.cursor) == cursor
    &&& opt_view(p.selection_background) == selection_background
    &&& opt_view(p.selection_foreground) == selection_foreground
    &&& ansi_view(p) == ansi
}

/// Sheets' two built-in themes, Tokyo Night and Solarized Light.
pub open spec fn built_in_spec(ts: Seq<Theme>) -> bool {
    &&& ts.len() == 2
    &&& ts[0].id@ == "tokyo-night"@
    &&& ts[0].name@ == "Tokyo Night"@
    &&& ts[0].variant == ThemeVariant::Dark
    &&& ts[0].source == ThemeSource::BuiltIn
    &&& ts[0].git_url is None
    &&& palette_is(
        ts[0].palette,
        "1a1b26"@,
        "c0caf5"@,
        Some("c0caf5"@),
        Some("283457"@),
        None,
        seq![
            "15161e"@, "f7768e"@, "9ece6a"@, "e0af68"@, "7aa2f7"@, "bb9af7"@, "7dcfff"@, "a9b1d6"@,
            "414868"@, "f7768e"@, "9ece6a"@, "e0af68"@, "7aa2f7"@, "bb9af7"@, "7dcfff"@, "c0caf5"@,
        ],
    )
    &&& ts[1].id@ == "solarized-light"@
    &&& ts[1].name@ == "Solarized Light"@
    &&& ts[1].variant == ThemeVariant::Light
    &&& ts[1].source == ThemeSource::BuiltIn
    &&& ts[1].git_url is None
    &&& palette_is(
        ts[1].palette,
        "fdf6e3"@,
        "657b83"@,
        Some("657b83"@),
        Some("eee8d5"@),
        None,
        seq![
            "073642"@, "dc322f"@, "859900"@, "b58900"@, "268bd2"@, "d33682"@, "2aa198"@, "eee8d5"@,
            "002b36"@, "cb4b16"@, "586e75"@, "657b83"@, "839496"@, "6c71c4"@, "93a1a1"@, "fdf6e3"@,
        ],
    )
}

/// The index of the first theme with id `id`, or -1.
pub open spec fn index_of_id(ts: Seq<Theme>, id: Seq<char>) -> int
    decreases ts.len(),
{
    if ts.len() == 0 {
        -1
    } else if ts[0].id@ == id {
        0
    } else {
        let r = index_of_id(ts.drop_first(), id);
        if r < 0 {
            -1
        } else {
            r + 1
        }
    }
}

/// The index of the first theme whose palette has the same colors as `p`,
/// or -1.
pub open spec fn index_of_colors(ts: Seq<Theme>, p: Palette) -> int
    decreases ts.len(),
{
    if ts.len() == 0 {
        -1
    } else if same_colors(ts[0].palette, p) {
        0
    } else {
        let r = index_of_colors(ts.drop_first(), p);
        if r < 0 {
            -1
        } else {
            r + 1
        }
    }
}

/// The themes suitable for `period`, in order.
pub open spec fn for_period(ts: Seq<Theme>, period: Period) -> Seq<Theme>
    decreases ts.len(),
{
    if ts.len() == 0 {
        ts
    } else {
        let r = for_period(ts.drop_last(), period);
        if period_accepts(period, ts.last().variant) {
            r.push(ts.last())
        } else {
            r
        }
    }
}

/// The themes with source `source`, in order.
pub open spec fn with_source(ts: Seq<Theme>, source: ThemeSource) -> Seq<Theme>
    decreases ts.len(),
{
    if ts.len() == 0 {
        ts
    } else {
        let r = with_source(ts.drop_last(), source);
        if ts.last().source == source {
            r.push(ts.last())
        } else {
            r
        }
    }
}

/// The themes whose id is not `id`, in order.
pub open spec fn without_id(ts: Seq<Theme>, id: Seq<char>) -> Seq<Theme>
    decreases ts.len(),
{
    if ts.len() == 0 {
        ts
    } else {
        let r = without_id(ts.drop_last(), id);
        if ts.last().id@ == id {
            r
        } else {
            r.push(ts.last())
        }
    }
}

/// Is there a theme with id `id`?
pub open spec fn has_id(ts: Seq<Theme>, id: Seq<char>) -> bool {
    exists|i: int| 0 <= i < ts.len() && (#[trigger] ts[i]).id@ == id
}

/// Is there a pre-installed (built-in) theme with id `id`?
pub open spec fn has_built_in_id(ts: Seq<Theme>, id: Seq<char>) -> bool {
    exists|i: int| 0 <= i < ts.len() && (#[trigger] ts[i]).id@ == id && ts[i].source == ThemeSource::BuiltIn
}

/// The non-empty pieces, in order.
pub open spec fn nonempty_pieces(ps: Seq<Seq<char>>) -> Seq<Seq<char>>
    decreases ps.len(),
{
    if ps.len() == 0 {
        ps
    } else {
        let r = nonempty_pieces(ps.drop_last());
        if ps.last().len() > 0 {
            r.push(ps.last())
        } else {
            r
        }
    }
}

/// Every character that is not alphanumeric replaced by `-`.
pub open spec fn dash_non_alphanumeric(s: Seq<char>) -> Seq<char> {
    s.map_values(|c: char| if alphanumeric(c) { c } else { '-' })
}

/// A text with every run of non-alphanumeric characters turned into one
/// `-`, and none at either end.
pub open spec fn dashed_words(s: Seq<char>) -> Seq<char> {
    join(nonempty_pieces(split_on(dash_non_alphanumeric(s), '-')), seq!['-'])
}

/// The id a theme name gets: lowercased, every run of non-alphanumeric
/// characters turned into one `-`, with none at either end.
pub open spec fn slug(name: Seq<char>) -> Seq<char> {
    dashed_words(lowercase(name))
}

/// The error for a theme id that no theme has.
pub open spec fn no_theme_error(id: Seq<char>) -> Seq<char> {
    "no theme with id \""@ + id + "\""@
}

/// The error for removing a user theme id that no user theme has.
pub open spec fn no_user_theme_error(id: Seq<char>) -> Seq<char> {
    "no user-installed theme with id \""@ + id + "\""@
}

/// The error for saving a theme with a blank name.
pub open spec fn empty_name_error() -> Seq<char> {
    "theme name can't be empty"@
}

/// The error for saving a theme under the name of a pre-installed one.
pub open spec fn pre_installed_error(name: Seq<char>) -> Seq<char> {
    "\""@ + name + "\" is a pre-installed theme, so it can't be overwritten; save it under a different name"@
}

/// The error for exporting a theme that isn't the user's own.
pub open spec fn not_exportable_error(name: Seq<char>) -> Seq<char> {
    "\""@ + name + "\" isn't a user-created theme, so there's nothing to export"@
}

// ---------------------------------------------------------------------------
// Lemmas
// ---------------------------------------------------------------------------

/// What `index_of_id` returns.
pub proof fn lemma_index_of_id(ts: Seq<Theme>, id: Seq<char>)
    ensures
        -1 <= index_of_id(ts, id) < ts.len(),
        index_of_id(ts, id) >= 0 ==> ts[index_of_id(ts, id)].id@ == id,
        forall|j: int| 0 <= j < ts.len() && (index_of_id(ts, id) < 0 || j < index_of_id(ts, id)) ==> (#[trigger] ts[j]).id@ != id,
    decreases ts.len(),
{
    if ts.len() > 0 && ts[0].id@ != id {
        lemma_index_of_id(ts.drop_first(), id);
        assert forall|j: int| 0 <= j < ts.len() && (index_of_id(ts, id) < 0 || j < index_of_id(ts, id)) implies (#[trigger] ts[j]).id@ != id by {
            if j > 0 {
                assert(ts[j] == ts.drop_first()[j - 1]);
            }
        }
    }
}

/// `index_of_id` is the first position with that id.
proof fn lemma_index_of_id_at(ts: Seq<Theme>, id: Seq<char>, i: int)
    requires
        -1 <= i <= ts.len(),
        0 <= i < ts.len() ==> ts[i].id@ == id,
        forall|j: int| 0 <= j < ts.len() && (i < 0 || i == ts.len() || j < i) ==> (#[trigger] ts[j]).id@ != id,
    ensures
        0 <= i < ts.len() ==> index_of_id(ts, id) == i,
        (i < 0 || i == ts.len()) ==> index_of_id(ts, id) == -1,
{
    lemma_index_of_id(ts, id);
    let f = index_of_id(ts, id);
    if f >= 0 && (i < 0 || i == ts.len() || f < i) {
        assert(ts[f].id@ != id);
    }
    if 0 <= i < ts.len() && (f < 0 || i < f) {
        assert(ts[i].id@ != id);
    }
}

/// What `index_of_colors` returns.
pub proof fn lemma_index_of_colors(ts: Seq<Theme>, p: Palette)
    ensures
        -1 <= index_of_colors(ts, p) < ts.len(),
        index_of_colors(ts, p) >= 0 ==> same_colors(ts[index_of_colors(ts, p)].palette, p),
        forall|j: int| 0 <= j < ts.len() && (index_of_colors(ts, p) < 0 || j < index_of_colors(ts, p)) ==> !same_colors((#[trigger] ts[j]).palette, p),
    decreases ts.len(),
{
    if ts.len() > 0 && !same_colors(ts[0].palette, p) {
        lemma_index_of_colors(ts.drop_first(), p);
        assert forall|j: int| 0 <= j < ts.len() && (index_of_colors(ts, p) < 0 || j < index_of_colors(ts, p)) implies !same_colors((#[trigger] ts[j]).palette, p) by {
            if j > 0 {
                assert(ts[j] == ts.drop_first()[j - 1]);
            }
        }
    }
}

/// No theme left by `without_id` has that id; the others stay.
pub proof fn lemma_without_id(ts: Seq<Theme>, id: Seq<char>)
    ensures
        !has_id(without_id(ts, id), id),
        without_id(ts, id).len() <= ts.len(),
        without_id(ts, id).len() == ts.len() <==> !has_id(ts, id),
    decreases ts.len(),
{
    if ts.len() > 0 {
        let d = ts.drop_last();
        lemma_without_id(d, id);
        let r = without_id(d, id);
        assert(forall|i: int| 0 <= i < d.len() ==> d[i] == ts[i]);
        if has_id(d, id) {
            let i = choose|i: int| 0 <= i < d.len() && (#[trigger] d[i]).id@ == id;
            assert(ts[i].id@ == id);
        }
        if has_id(ts, id) && !has_id(d, id) {
            let i = choose|i: int| 0 <= i < ts.len() && (#[trigger] ts[i]).id@ == id;
            if i < d.len() {
                assert(d[i].id@ == id);
            }
        }
        if !has_id(ts, id) {
            assert(ts.last().id@ != id);
        }
        if has_id(without_id(ts, id), id) {
            let w = without_id(ts, id);
            let i = choose|i: int| 0 <= i < w.len() && (#[trigger] w[i]).id@ == id;
            if i < r.len() {
                assert(r[i] == w[i]);
            }
        }
    }
}

/// The pieces of `split_on(s, c)` hold no `c`.
pub proof fn lemma_split_on_pieces(s: Seq<char>, c: char)
    ensures
        forall|i: int| 0 <= i < split_on(s, c).len() ==> !has_char(#[trigger] split_on(s, c)[i], c),
    decreases s.len(),
{
    lemma_split_on_len(s, c);
    if s.len() > 0 {
        let r = split_on(s.drop_last(), c);
        lemma_split_on_pieces(s.drop_last(), c);
        lemma_split_on_len(s.drop_last(), c);
        if s.last() != c {
            let last = r.last().push(s.last());
            assert(!has_char(r.last(), c)) by {
                assert(r.last() == r[r.len() - 1]);
            }
            assert(!has_char(last, c)) by {
                if has_char(last, c) {
                    let k = choose|k: int| 0 <= k < last.len() && last[k] == c;
                    if k < r.last().len() {
                        assert(r.last()[k] == c);
                    }
                }
            }
            assert forall|i: int| 0 <= i < split_on(s, c).len() implies !has_char(#[trigger] split_on(s, c)[i], c) by {
                if i < r.len() - 1 {
                    assert(split_on(s, c)[i] == r[i]);
                }
            }
        } else {
            assert forall|i: int| 0 <= i < split_on(s, c).len() implies !has_char(#[trigger] split_on(s, c)[i], c) by {
                if i < r.len() {
                    assert(split_on(s, c)[i] == r[i]);
                } else {
                    assert(!has_char(Seq::<char>::empty(), c));
                }
            }
        }
    }
}

/// `nonempty_pieces` keeps only non-empty pieces, each one a piece of the
/// input.
pub proof fn lemma_nonempty_pieces(ps: Seq<Seq<char>>)
    ensures
        forall|i: int| 0 <= i < nonempty_pieces(ps).len() ==> (#[trigger] nonempty_pieces(ps)[i]).len() > 0,
        forall|i: int| 0 <= i < nonempty_pieces(ps).len() ==> ps.contains(#[trigger] nonempty_pieces(ps)[i]),
    decreases ps.len(),
{
    if ps.len() > 0 {
        let d = ps.drop_last();
        lemma_nonempty_pieces(d);
        let r = nonempty_pieces(d);
        assert forall|i: int| 0 <= i < nonempty_pieces(ps).len() implies ps.contains(#[trigger] nonempty_pieces(ps)[i]) by {
            if i < r.len() {
                assert(nonempty_pieces(ps)[i] == r[i]);
                let k = choose|k: int| 0 <= k < d.len() && d[k] == r[i];
                assert(ps[k] == r[i]);
            } else {
                assert(ps[ps.len() - 1] == nonempty_pieces(ps)[i]);
            }
        }
    }
}

/// Joining non-empty pieces that hold no `c` with `c` between them gives a
/// text with no `c` at either end and no two `c` in a row.
pub proof fn lemma_join_shape(ps: Seq<Seq<char>>, c: char)
    requires
        forall|i: int| 0 <= i < ps.len() ==> (#[trigger] ps[i]).len() > 0 && !has_char(ps[i], c),
    ensures
        ({
            let j = join(ps, seq![c]);
            &&& (j.len() > 0 <==> ps.len() > 0)
            &&& j.len() > 0 ==> j[0] != c && j.last() != c
            &&& forall|k: int| 0 <= k < j.len() - 1 ==> !(#[trigger] j[k] == c && j[k + 1] == c)
        }),
    decreases ps.len(),
{
    let j = join(ps, seq![c]);
    if ps.len() == 1 {
        assert(ps[0].len() > 0);
        assert(!has_char(ps[0], c));
        assert(j == ps[0]);
        assert(j[0] != c) by {
            if j[0] == c {
                assert(has_char(ps[0], c));
            }
        }
        assert(j.last() != c) by {
            if j.last() == c {
                assert(ps[0][ps[0].len() - 1] == c);
            }
        }
        assert forall|k: int| 0 <= k < j.len() - 1 implies !(#[trigger] j[k] == c && j[k + 1] == c) by {
            if j[k] == c {
                assert(ps[0][k] == c);
            }
        }
    } else if ps.len() > 1 {
        let d = ps.drop_last();
        assert forall|i: int| 0 <= i < d.len() implies (#[trigger] d[i]).len() > 0 && !has_char(d[i], c) by {
            assert(d[i] == ps[i]);
        }
        lemma_join_shape(d, c);
        let jd = join(d, seq![c]);
        let last = ps.last();
        assert(last == ps[ps.len() - 1]);
        assert(j == jd + seq![c] + last);
        assert(j[0] == jd[0]);
        assert(j.last() == last.last());
        assert(last.last() != c) by {
            if last.last() == c {
                assert(last[last.len() - 1] == c);
            }
        }
        assert forall|k: int| 0 <= k < j.len() - 1 implies !(#[trigger] j[k] == c && j[k + 1] == c) by {
            let n = jd.len() as int;
            if k < n - 1 {
                assert(j[k] == jd[k]);
                assert(j[k + 1] == jd[k + 1]);
            } else if k == n - 1 {
                assert(j[k] == jd.last());
            } else if k == n {
                assert(j[k + 1] == last[0]);
                if last[0] == c {
                    assert(has_char(last, c));
                }
            } else {
                assert(j[k] == last[k - n - 1]);
                if last[k - n - 1] == c {
                    assert(has_char(last, c));
                }
            }
        }
    }
}

/// A theme id made by `slug` has no `-` at either end and no two `-` in a
/// row, and is empty only when the name has no alphanumeric character left
/// after lowercasing.
pub proof fn lemma_slug_shape(name: Seq<char>)
    ensures
        slug(name).len() > 0 ==> slug(name)[0] != '-' && slug(name).last() != '-',
        forall|k: int| 0 <= k < slug(name).len() - 1 ==> !(#[trigger] slug(name)[k] == '-' && slug(name)[k + 1] == '-'),
{
    let s = dash_non_alphanumeric(lowercase(name));
    let ps = split_on(s, '-');
    lemma_split_on_pieces(s, '-');
    lemma_nonempty_pieces(ps);
    let q = nonempty_pieces(ps);
    assert forall|i: int| 0 <= i < q.len() implies (#[trigger] q[i]).len() > 0 && !has_char(q[i], '-') by {
        assert(ps.contains(q[i]));
        let k = choose|k: int| 0 <= k < ps.len() && ps[k] == q[i];
        assert(!has_char(ps[k], '-'));
    }
    lemma_join_shape(q, '-');
}

/// Every character of every piece of `split_on(s, c)` is one of `s`'s, so
/// has what all of those have.
proof fn lemma_split_on_chars(s: Seq<char>, c: char, pred: spec_fn(char) -> bool)
    requires
        forall|k: int| 0 <= k < s.len() ==> pred(#[trigger] s[k]),
    ensures
        forall|i: int, k: int| 0 <= i < split_on(s, c).len() && 0 <= k < split_on(s, c)[i].len() ==> pred(#[trigger] split_on(s, c)[i][k]),
    decreases s.len(),
{
    lemma_split_on_len(s, c);
    if s.len() > 0 {
        let d = s.drop_last();
        assert forall|k: int| 0 <= k < d.len() implies pred(#[trigger] d[k]) by {
            assert(d[k] == s[k]);
        }
        lemma_split_on_chars(d, c, pred);
        lemma_split_on_len(d, c);
        let r = split_on(d, c);
        let out = split_on(s, c);
        assert(pred(s[s.len() - 1]));
        assert forall|i: int, k: int| 0 <= i < out.len() && 0 <= k < out[i].len() implies pred(#[trigger] out[i][k]) by {
            if s.last() == c {
                if i < r.len() {
                    assert(out[i] == r[i]);
                }
            } else if i < r.len() - 1 {
                assert(out[i] == r[i]);
            } else {
                assert(out[i] == r[r.len() - 1].push(s.last()));
                if k < r[r.len() - 1].len() {
                    assert(out[i][k] == r[r.len() - 1][k]);
                }
            }
        }
    }
}

/// Every character of pieces joined with `c` is `c` or a piece's.
proof fn lemma_join_chars(ps: Seq<Seq<char>>, c: char, pred: spec_fn(char) -> bool)
    requires
        pred(c),
        forall|i: int, k: int| 0 <= i < ps.len() && 0 <= k < ps[i].len() ==> pred(#[trigger] ps[i][k]),
    ensures
        forall|k: int| 0 <= k < join(ps, seq![c]).len() ==> pred(#[trigger] join(ps, seq![c])[k]),
    decreases ps.len(),
{
    if ps.len() == 1 {
        assert forall|k: int| 0 <= k < ps[0].len() implies pred(#[trigger] ps[0][k]) by {}
    } else if ps.len() > 1 {
        let d = ps.drop_last();
        assert forall|i: int, k: int| 0 <= i < d.len() && 0 <= k < d[i].len() implies pred(#[trigger] d[i][k]) by {
            assert(d[i] == ps[i]);
        }
        lemma_join_chars(d, c, pred);
        let jd = join(d, seq![c]);
        let j = join(ps, seq![c]);
        assert(j == jd + seq![c] + ps.last());
        assert forall|k: int| 0 <= k < j.len() implies pred(#[trigger] j[k]) by {
            if k < jd.len() {
                assert(j[k] == jd[k]);
            } else if k == jd.len() {
                assert(j[k] == c);
            } else {
                assert(j[k] == ps[ps.len() - 1][k - jd.len() - 1]);
            }
        }
    }
}

/// `nonempty_pieces` keeps a list of non-empty pieces as it is.
proof fn lemma_nonempty_pieces_id(ps: Seq<Seq<char>>)
    requires
        forall|i: int| 0 <= i < ps.len() ==> (#[trigger] ps[i]).len() > 0,
    ensures
        nonempty_pieces(ps) == ps,
    decreases ps.len(),
{
    if ps.len() > 0 {
        let d = ps.drop_last();
        assert forall|i: int| 0 <= i < d.len() implies (#[trigger] d[i]).len() > 0 by {
            assert(d[i] == ps[i]);
        }
        lemma_nonempty_pieces_id(d);
        assert(ps.last().len() > 0) by {
            assert(ps.last() == ps[ps.len() - 1]);
        }
        assert(d.push(ps.last()) =~= ps);
    }
}

/// Collapsing the runs again changes nothing: `dashed_words` of a text it
/// made is that text.
pub proof fn lemma_dashed_words_idempotent(s: Seq<char>)
    ensures
        dashed_words(dashed_words(s)) == dashed_words(s),
{
    let m = dash_non_alphanumeric(s);
    let ps = split_on(m, '-');
    let q = nonempty_pieces(ps);
    let d = join(q, seq!['-']);
    let pred = |x: char| alphanumeric(x) || x == '-';
    assert forall|k: int| 0 <= k < m.len() implies pred(#[trigger] m[k]) by {}
    lemma_split_on_chars(m, '-', pred);
    lemma_split_on_pieces(m, '-');
    lemma_nonempty_pieces(ps);
    assert forall|i: int, k: int| 0 <= i < q.len() && 0 <= k < q[i].len() implies pred(#[trigger] q[i][k]) by {
        assert(ps.contains(q[i]));
        let j = choose|j: int| 0 <= j < ps.len() && ps[j] == q[i];
        assert(ps[j][k] == q[i][k]);
    }
    assert forall|i: int| 0 <= i < q.len() implies !has_char(#[trigger] q[i], '-') by {
        assert(ps.contains(q[i]));
        let j = choose|j: int| 0 <= j < ps.len() && ps[j] == q[i];
        assert(!has_char(ps[j], '-'));
    }
    lemma_join_chars(q, '-', pred);
    assert(dash_non_alphanumeric(d) =~= d) by {
        assert forall|k: int| 0 <= k < d.len() implies #[trigger] dash_non_alphanumeric(d)[k] == d[k] by {
            assert(pred(d[k]));
        }
    }
    if q.len() == 0 {
        assert(d == Seq::<char>::empty());
        let e = split_on(d, '-');
        assert(e == seq![Seq::<char>::empty()]);
        assert(e.drop_last() =~= Seq::<Seq<char>>::empty());
        assert(nonempty_pieces(e) == nonempty_pieces(e.drop_last()));
        assert(nonempty_pieces(e) =~= Seq::<Seq<char>>::empty());
    } else {
        lemma_split_on_join(q, '-');
        lemma_nonempty_pieces_id(q);
    }
}

/// Slugifying a theme id again gives the same id, whenever lowercasing the
/// id leaves it as it is (no property of Unicode lowercasing is assumed
/// here); with `lemma_slug_shape`, the id has no `-` at either end and no
/// two `-` in a row.
pub proof fn lemma_slug_idempotent(name: Seq<char>)
    ensures
        lowercase(slug(name)) == slug(name) ==> slug(slug(name)) == slug(name),
{
    lemma_dashed_words_idempotent(lowercase(name));
}

/// What `identify_theme` finds (its result `r` for `themes` and
/// `palette`) is sound and complete: a theme it names has the palette's
/// background, foreground and 16 ANSI colors, each equal ignoring ASCII
/// case; when it names none, no theme has all of them.
pub proof fn lemma_identify_theme(themes: Seq<Theme>, palette: Palette, r: Option<Theme>)
    requires
        match r {
            Some(t) => index_of_colors(themes, palette) >= 0 && t == themes[index_of_colors(themes, palette)],
            None => index_of_colors(themes, palette) == -1,
        },
    ensures
        r is Some ==> {
            let t = r->Some_0;
            &&& eq_ignore_ascii_case(t.palette.background@, palette.background@)
            &&& eq_ignore_ascii_case(t.palette.foreground@, palette.foreground@)
            &&& forall|i: int| 0 <= i < 16 ==> eq_ignore_ascii_case(#[trigger] t.palette.ansi@[i]@, palette.ansi@[i]@)
        },
        r is None ==> forall|j: int| 0 <= j < themes.len() ==> !{
            let q = (#[trigger] themes[j]).palette;
            &&& eq_ignore_ascii_case(q.background@, palette.background@)
            &&& eq_ignore_ascii_case(q.foreground@, palette.foreground@)
            &&& forall|i: int| 0 <= i < 16 ==> eq_ignore_ascii_case(#[trigger] q.ansi@[i]@, palette.ansi@[i]@)
        },
{
    lemma_index_of_colors(themes, palette);
    if r is None {
        assert forall|j: int| 0 <= j < themes.len() implies !same_colors((#[trigger] themes[j]).palette, palette) by {}
    }
}

/// A saved theme is what looking up its id finds afterwards, ahead of
/// every other theme: no pre-installed theme has its id (saving checks
/// that), and the user's list keeps exactly one theme with it, the new one.
pub proof fn lemma_saved_theme_is_found(pre: Seq<Theme>, user: Seq<Theme>, t: Theme)
    requires
        forall|i: int| 0 <= i < pre.len() ==> (#[trigger] pre[i]).source == ThemeSource::BuiltIn,
        !has_built_in_id(pre, t.id@),
    ensures
        ({
            let users = without_id(user, t.id@).push(t);
            let after = pre + users;
            &&& index_of_id(after, t.id@) == after.len() - 1
            &&& after[index_of_id(after, t.id@)] == t
            &&& index_of_id(users, t.id@) == users.len() - 1
        }),
{
    let id = t.id@;
    let w = without_id(user, id);
    lemma_without_id(user, id);
    let users = w.push(t);
    let after = pre + users;
    assert forall|j: int| 0 <= j < after.len() - 1 implies (#[trigger] after[j]).id@ != id by {
        if j < pre.len() {
            assert(after[j] == pre[j]);
            if pre[j].id@ == id {
                assert(has_built_in_id(pre, id));
            }
        } else {
            assert(after[j] == w[j - pre.len()]);
            if w[j - pre.len()].id@ == id {
                assert(has_id(w, id));
            }
        }
    }
    lemma_index_of_id_at(after, id, after.len() - 1);
    assert forall|j: int| 0 <= j < users.len() - 1 implies (#[trigger] users[j]).id@ != id by {
        assert(users[j] == w[j]);
        if w[j].id@ == id {
            assert(has_id(w, id));
        }
    }
    lemma_index_of_id_at(users, id, users.len() - 1);
}

/// After removing a user theme, no user theme has its id.
pub proof fn lemma_removed_theme_is_gone(user: Seq<Theme>, id: Seq<char>)
    ensures
        !has_id(without_id(user, id), id),
        index_of_id(without_id(user, id), id) == -1,
{
    lemma_without_id(user, id);
    let w = without_id(user, id);
    assert forall|j: int| 0 <= j < w.len() implies (#[trigger] w[j]).id@ != id by {
        if w[j].id@ == id {
            assert(has_id(w, id));
        }
    }
    lemma_index_of_id_at(w, id, -1);
}

/// A palette is reverse-matched to a theme whenever some theme has the
/// same colors: the first such theme, and never one with other colors.
pub proof fn lemma_identify_finds_first_match(themes: Seq<Theme>, p: Palette, i: int)
    requires
        0 <= i < themes.len(),
        same_colors(themes[i].palette, p),
    ensures
        0 <= index_of_colors(themes, p) <= i,
        same_colors(themes[index_of_colors(themes, p)].palette, p),
{
    lemma_index_of_colors(themes, p);
    let f = index_of_colors(themes, p);
    if f < 0 || f > i {
        assert(!same_colors(themes[i].palette, p));
    }
}

/// A palette read back with a theme's background, foreground and ANSI
/// colors is reverse-matched to that theme, or to an earlier one with the
/// same colors.
pub proof fn lemma_read_back_identifies(themes: Seq<Theme>, i: int, p: Palette)
    requires
        0 <= i < themes.len(),
        p@.background == themes[i].palette@.background,
        p@.foreground == themes[i].palette@.foreground,
        p@.ansi == themes[i].palette@.ansi,
    ensures
        0 <= index_of_colors(themes, p) <= i,
        same_colors(themes[index_of_colors(themes, p)].palette, p),
{
    let q = themes[i].palette;
    assert forall|k: int| 0 <= k < 16 implies eq_ignore_ascii_case(#[trigger] q.ansi@[k]@, p.ansi@[k]@) by {
        assert(q@.ansi[k] == p@.ansi[k]);
    }
    assert(same_colors(q, p));
    lemma_identify_finds_first_match(themes, p, i);
}

/// Importing an exported user theme recreates it: the theme saved from
/// the exported name, variant and palette has the exported theme's id
/// (its name's slug, as saving gives every user theme), name, variant,
/// source, `git_url` and palette.
pub proof fn lemma_import_of_export(themes: Seq<Theme>, id: Seq<char>, m: ThemeManifest, saved: Theme)
    requires
        index_of_id(themes, id) >= 0,
        ({
            let t = themes[index_of_id(themes, id)];
            &&& t.source == ThemeSource::UserInstalled
            &&& t.git_url is None
            &&& t.id@ == slug(t.name@)
            &&& m.name == t.name
            &&& m.variant == t.variant
            &&& m.palette == t.palette
        }),
        saved.id@ == slug(m.name@),
        saved.name == m.name,
        saved.variant == m.variant,
        saved.source == ThemeSource::UserInstalled,
        saved.git_url is None,
        saved.palette == m.palette,
    ensures
        ({
            let t = themes[index_of_id(themes, id)];
            &&& saved.id@ == t.id@
            &&& saved.name == t.name
            &&& saved.variant == t.variant
            &&& saved.source == t.source
            &&& saved.git_url == t.git_url
            &&& saved.palette == t.palette
        }),
{
}

// ---------------------------------------------------------------------------
// Executable code
// ---------------------------------------------------------------------------

/// A `String` with the characters of a literal.
fn text(s: &str) -> (r: String)
    ensures
        r@ == s@,
{
    String::from_str(s)
}

/// Sixteen colors from literals.
fn colors(c: [&str; 16]) -> (r: [String; 16])
    ensures
        forall|i: int| 0 <= i < 16 ==> (#[trigger] r@[i])@ == c@[i]@,
{
    [
        text(c[0]),
        text(c[1]),
        text(c[2]),
        text(c[3]),
        text(c[4]),
        text(c[5]),
        text(c[6]),
        text(c[7]),
        text(c[8]),
        text(c[9]),
        text(c[10]),
        text(c[11]),
        text(c[12]),
        text(c[13]),
        text(c[14]),
        text(c[15]),
    ]
}

/// Sheets' own two themes.
pub fn built_in_themes() -> (r: Vec<Theme>)
    ensures
        built_in_spec(r@),
{
    let tokyo_ansi = [
        "15161e", "f7768e", "9ece6a", "e0af68", "7aa2f7", "bb9af7", "7dcfff", "a9b1d6", "414868",
        "f7768e", "9ece6a", "e0af68", "7aa2f7", "bb9af7", "7dcfff", "c0caf5",
    ];
    let solarized_ansi = [
        "073642", "dc322f", "859900", "b58900", "268bd2", "d33682", "2aa198", "eee8d5", "002b36",
        "cb4b16", "586e75", "657b83", "839496", "6c71c4", "93a1a1", "fdf6e3",
    ];
    let tokyo = Theme {
        id: text("tokyo-night"),
        name: text("Tokyo Night"),
        variant: ThemeVariant::Dark,
        source: ThemeSource::BuiltIn,
        git_url: None,
        palette: Palette {
            background: text("1a1b26"),
            foreground: text("c0caf5"),
            cursor: Some(text("c0caf5")),
            selection_background: Some(text("283457")),
            selection_foreground: None,
            ansi: colors(tokyo_ansi),
        },
    };
    let solarized = Theme {
        id: text("solarized-light"),
        name: text("Solarized Light"),
        variant: ThemeVariant::Light,
        source: ThemeSource::BuiltIn,
        git_url: None,
        palette: Palette {
            background: text("fdf6e3"),
            foreground: text("657b83"),
            cursor: Some(text("657b83")),
            selection_background: Some(text("eee8d5")),
            selection_foreground: None,
            ansi: colors(solarized_ansi),
        },
    };
    assert(ansi_view(tokyo.palette) =~= seq![
        "15161e"@, "f7768e"@, "9ece6a"@, "e0af68"@, "7aa2f7"@, "bb9af7"@, "7dcfff"@, "a9b1d6"@,
        "414868"@, "f7768e"@, "9ece6a"@, "e0af68"@, "7aa2f7"@, "bb9af7"@, "7dcfff"@, "c0caf5"@,
    ]);
    assert(ansi_view(solarized.palette) =~= seq![
        "073642"@, "dc322f"@, "859900"@, "b58900"@, "268bd2"@, "d33682"@, "2aa198"@, "eee8d5"@,
        "002b36"@, "cb4b16"@, "586e75"@, "657b83"@, "839496"@, "6c71c4"@, "93a1a1"@, "fdf6e3"@,
    ]);
    let mut r = Vec::new();
    r.push(tokyo);
    r.push(solarized);
    r
}

/// Do two palettes have the same background, foreground and ANSI colors,
/// ignoring ASCII case?
pub fn palettes_match(a: &Palette, b: &Palette) -> (r: bool)
    ensures
        r == same_colors(*a, *b),
        r <==> {
            &&& eq_ignore_ascii_case(a.background@, b.background@)
            &&& eq_ignore_ascii_case(a.foreground@, b.foreground@)
            &&& forall|i: int| 0 <= i < 16 ==> eq_ignore_ascii_case(#[trigger] a.ansi@[i]@, b.ansi@[i]@)
        },
{
    let ab = chars_of(a.background.as_str());
    let bb = chars_of(b.background.as_str());
    if !same_ignoring_ascii_case(&ab, &bb) {
        return false;
    }
    let af = chars_of(a.foreground.as_str());
    let bf = chars_of(b.foreground.as_str());
    if !same_ignoring_ascii_case(&af, &bf) {
        return false;
    }
    let mut i: usize = 0;
    while i < 16
        invariant
            i <= 16,
            eq_ignore_ascii_case(a.background@, b.background@),
            eq_ignore_ascii_case(a.foreground@, b.foreground@),
            forall|j: int| 0 <= j < i ==> eq_ignore_ascii_case(#[trigger] a.ansi@[j]@, b.ansi@[j]@),
        decreases 16 - i,
    {
        let x = chars_of(a.ansi[i].as_str());
        let y = chars_of(b.ansi[i].as_str());
        if !same_ignoring_ascii_case(&x, &y) {
            return false;
        }
        i = i + 1;
    }
    true
}

/// The id a theme name gets: lowercased, with every run of characters that
/// are not alphanumeric turned into a single `-`, and none at either end.
pub fn slugify(name: &str) -> (r: String)
    ensures
        r@ == slug(name@),
{
    let lower = to_lowercase(name);
    dashed_words_of(lower.as_str())
}

/// `lower` with every run of characters that are not alphanumeric turned
/// into a single `-`, and none at either end: the id of a theme whose
/// lowercased name is `lower`.
pub fn dashed_words_of(lower: &str) -> (r: String)
    ensures
        r@ == dashed_words(lower@),
{
    let cs = chars_of(lower);
    let ghost mapped = dash_non_alphanumeric(lower@);
    let mut out: Vec<char> = Vec::new();
    let mut cur: Vec<char> = Vec::new();
    let mut i: usize = 0;
    proof {
        lemma_split_on_len(mapped.take(0), '-');
        assert(mapped.take(0) =~= Seq::<char>::empty());
    }
    while i < cs.len()
        invariant
            i <= cs.len(),
            cs@ == lower@,
            mapped == dash_non_alphanumeric(lower@),
            ({
                let ps = split_on(mapped.take(i as int), '-');
                &&& ps.len() >= 1
                &&& cur@ == ps.last()
                &&& out@ == join(nonempty_pieces(ps.drop_last()), seq!['-'])
                &&& (out@.len() > 0 <==> nonempty_pieces(ps.drop_last()).len() > 0)
            }),
        decreases cs.len() - i,
    {
        let c = cs[i];
        let m = if is_alphanumeric(c) { c } else { '-' };
        let ghost ps = split_on(mapped.take(i as int), '-');
        let ghost t = mapped.take(i + 1);
        assert(t.drop_last() =~= mapped.take(i as int));
        assert(t.last() == m);
        if m == '-' {
            proof {
                let q = nonempty_pieces(ps.drop_last());
                let ps2 = ps.push(Seq::<char>::empty());
                assert(ps2.drop_last() =~= ps);
                assert(ps.drop_last().push(ps.last()) =~= ps);
                assert(ps2.drop_last().drop_last() =~= ps.drop_last());
            }
            if cur.len() > 0 {
                if out.len() > 0 {
                    out.push('-');
                }
                extend(&mut out, &cur);
                proof {
                    let q = nonempty_pieces(ps.drop_last());
                    assert(ps.drop_last().push(ps.last()) =~= ps);
                    assert(nonempty_pieces(ps) == q.push(ps.last()));
                    assert(q.push(ps.last()).drop_last() =~= q);
                    if q.len() == 0 {
                        assert(out@ =~= ps.last());
                    } else {
                        assert(out@ =~= join(q, seq!['-']) + seq!['-'] + ps.last());
                    }
                }
            } else {
                proof {
                    assert(ps.drop_last().push(ps.last()) =~= ps);
                }
            }
            cur = Vec::new();
        } else {
            let ghost before = cur@;
            cur.push(m);
            proof {
                let ps2 = split_on(t, '-');
                assert(ps2 == ps.update(ps.len() - 1, ps.last().push(m)));
                assert(ps2.drop_last() =~= ps.drop_last());
            }
        }
        i = i + 1;
    }
    let ghost ps = split_on(mapped.take(cs.len() as int), '-');
    assert(mapped.take(cs.len() as int) =~= mapped);
    if cur.len() > 0 {
        if out.len() > 0 {
            out.push('-');
        }
        extend(&mut out, &cur);
        proof {
            let q = nonempty_pieces(ps.drop_last());
            assert(ps.drop_last().push(ps.last()) =~= ps);
            assert(nonempty_pieces(ps) == q.push(ps.last()));
            assert(q.push(ps.last()).drop_last() =~= q);
            if q.len() == 0 {
                assert(out@ =~= ps.last());
            } else {
                assert(out@ =~= join(q, seq!['-']) + seq!['-'] + ps.last());
            }
        }
    } else {
        proof {
            assert(ps.drop_last().push(ps.last()) =~= ps);
        }
    }
    string_of(&out)
}

/// Where the user's themes are kept under the data directory.
pub fn manifest_path(data_dir: &str) -> (r: String)
    ensures
        r@ == path_join(data_dir@, "themes.json"@),
{
    join_path(data_dir, "themes.json")
}

/// Every theme Sheets knows: its own built-in ones, then Ghostty's bundled
/// ones, then the user's.
pub fn list_themes(bundled: Vec<Theme>, user: Vec<Theme>) -> (r: Vec<Theme>)
    ensures
        built_in_spec(r@.take(2)),
        r@.len() == 2 + bundled@.len() + user@.len(),
        r@.skip(2) == bundled@ + user@,
{
    let mut r = built_in_themes();
    let mut b = bundled;
    let mut u = user;
    let ghost bv = b@;
    let ghost uv = u@;
    let ghost rv = r@;
    r.append(&mut b);
    r.append(&mut u);
    assert(r@.take(2) =~= rv);
    assert(r@.skip(2) =~= bv + uv);
    r
}

/// The first theme with id `id`.
pub fn get_theme(themes: &Vec<Theme>, id: &str) -> (r: Result<Theme, String>)
    ensures
        match r {
            Ok(t) => index_of_id(themes@, id@) >= 0 && t == themes@[index_of_id(themes@, id@)],
            Err(e) => index_of_id(themes@, id@) == -1 && e@ == no_theme_error(id@),
        },
{
    let key = String::from_str(id);
    let mut i: usize = 0;
    while i < themes.len()
        invariant
            i <= themes.len(),
            key@ == id@,
            forall|j: int| 0 <= j < i ==> (#[trigger] themes@[j]).id@ != id@,
        decreases themes.len() - i,
    {
        if themes[i].id == key {
            proof {
                lemma_index_of_id_at(themes@, id@, i as int);
            }
            return Ok(themes[i].duplicate());
        }
        i = i + 1;
    }
    proof {
        lemma_index_of_id_at(themes@, id@, -1);
    }
    let mut e = String::from_str("no theme with id \"");
    e.append(id);
    e.append("\"");
    Err(e)
}

/// The themes suitable for `period`: Light or Both by day, Dark or Both by
/// night.
pub fn list_themes_for_period(themes: Vec<Theme>, period: Period) -> (r: Vec<Theme>)
    ensures
        r@ == for_period(themes@, period),
{
    let mut r: Vec<Theme> = Vec::new();
    let mut i: usize = 0;
    while i < themes.len()
        invariant
            i <= themes.len(),
            r@ == for_period(themes@.take(i as int), period),
        decreases themes.len() - i,
    {
        assert(themes@.take(i + 1).drop_last() =~= themes@.take(i as int));
        if period.accepts(themes[i].variant) {
            r.push(themes[i].duplicate());
        }
        i = i + 1;
    }
    assert(themes@.take(themes.len() as int) =~= themes@);
    r
}

/// The themes the user created or installed, the only exportable ones.
pub fn list_exportable_themes(themes: Vec<Theme>) -> (r: Vec<Theme>)
    ensures
        r@ == with_source(themes@, ThemeSource::UserInstalled),
{
    let mut r: Vec<Theme> = Vec::new();
    let mut i: usize = 0;
    while i < themes.len()
        invariant
            i <= themes.len(),
            r@ == with_source(themes@.take(i as int), ThemeSource::UserInstalled),
        decreases themes.len() - i,
    {
        assert(themes@.take(i + 1).drop_last() =~= themes@.take(i as int));
        if themes[i].source == ThemeSource::UserInstalled {
            r.push(themes[i].duplicate());
        }
        i = i + 1;
    }
    assert(themes@.take(themes.len() as int) =~= themes@);
    r
}

/// Reverse-matches a palette read from a live config file back to a known
/// theme: the first one with the same colors. `None` means the colors don't
/// match anything Sheets knows about (a custom or hand-edited config).
pub fn identify_theme(themes: &Vec<Theme>, palette: &Palette) -> (r: Option<Theme>)
    ensures
        match r {
            Some(t) => index_of_colors(themes@, *palette) >= 0 && t == themes@[index_of_colors(themes@, *palette)],
            None => index_of_colors(themes@, *palette) == -1,
        },
        r is Some ==> {
            let t = r->Some_0;
            &&& eq_ignore_ascii_case(t.palette.background@, palette.background@)
            &&& eq_ignore_ascii_case(t.palette.foreground@, palette.foreground@)
            &&& forall|i: int| 0 <= i < 16 ==> eq_ignore_ascii_case(#[trigger] t.palette.ansi@[i]@, palette.ansi@[i]@)
        },
{
    let mut i: usize = 0;
    while i < themes.len()
        invariant
            i <= themes.len(),
            forall|j: int| 0 <= j < i ==> !same_colors((#[trigger] themes@[j]).palette, *palette),
        decreases themes.len() - i,
    {
        if palettes_match(&themes[i].palette, palette) {
            proof {
                lemma_index_of_colors(themes@, *palette);
                let f = index_of_colors(themes@, *palette);
                if f < 0 || f > i {
                    assert(!same_colors(themes@[i as int].palette, *palette));
                } else if f < i {
                    assert(!same_colors(themes@[f].palette, *palette));
                }
            }
            let found = themes[i].duplicate();
            assert(same_colors(found.palette, *palette));
            return Some(found);
        }
        i = i + 1;
    }
    proof {
        lemma_index_of_colors(themes@, *palette);
        let f = index_of_colors(themes@, *palette);
        if f >= 0 {
            assert(!same_colors(themes@[f].palette, *palette));
        }
    }
    None
}

/// Copies of the themes whose id is not `id`.
fn themes_without(themes: &Vec<Theme>, id: &String) -> (r: Vec<Theme>)
    ensures
        r@ == without_id(themes@, id@),
{
    let mut r: Vec<Theme> = Vec::new();
    let mut i: usize = 0;
    while i < themes.len()
        invariant
            i <= themes.len(),
            r@ == without_id(themes@.take(i as int), id@),
        decreases themes.len() - i,
    {
        assert(themes@.take(i + 1).drop_last() =~= themes@.take(i as int));
        if themes[i].id != *id {
            r.push(themes[i].duplicate());
        }
        i = i + 1;
    }
    assert(themes@.take(themes.len() as int) =~= themes@);
    r
}

/// Removes the user theme with id `id`; an error if there is none.
pub fn remove_user_theme(user: Vec<Theme>, id: &str) -> (r: Result<Vec<Theme>, String>)
    ensures
        match r {
            Ok(rest) => has_id(user@, id@) && rest@ == without_id(user@, id@),
            Err(e) => !has_id(user@, id@) && e@ == no_user_theme_error(id@),
        },
{
    let key = String::from_str(id);
    let rest = themes_without(&user, &key);
    proof {
        lemma_without_id(user@, id@);
    }
    if rest.len() == user.len() {
        let mut e = String::from_str("no user-installed theme with id \"");
        e.append(id);
        e.append("\"");
        return Err(e);
    }
    Ok(rest)
}

/// Is there a built-in theme with id `id`?
fn built_in_id_taken(themes: &Vec<Theme>, id: &String) -> (r: bool)
    ensures
        r == has_built_in_id(themes@, id@),
{
    let mut i: usize = 0;
    while i < themes.len()
        invariant
            i <= themes.len(),
            forall|j: int| 0 <= j < i ==> !((#[trigger] themes@[j]).id@ == id@ && themes@[j].source == ThemeSource::BuiltIn),
        decreases themes.len() - i,
    {
        if themes[i].id == *id && themes[i].source == ThemeSource::BuiltIn {
            return true;
        }
        i = i + 1;
    }
    false
}

/// Creates a theme from hand-picked colors (or an imported theme file),
/// stored like any user-installed one but with no `git_url`. The name must
/// have something besides whitespace, and its id must not be that of a
/// pre-installed theme among `listed` (those can't be shadowed or
/// overwritten); a user theme with the same id is replaced. Returns the new
/// theme and the new list of user themes.
pub fn save_user_theme(
    user: Vec<Theme>,
    listed: &Vec<Theme>,
    name: String,
    variant: ThemeVariant,
    palette: Palette,
) -> (r: Result<(Theme, Vec<Theme>), String>)
    ensures
        trim(name@).len() == 0 ==> r is Err && r->Err_0@ == empty_name_error(),
        trim(name@).len() > 0 && has_built_in_id(listed@, slug(name@)) ==> r is Err && r->Err_0@ == pre_installed_error(name@),
        trim(name@).len() > 0 && !has_built_in_id(listed@, slug(name@)) ==> r is Ok,
        r matches Ok(saved) ==> {
            let t = saved.0;
            &&& t.id@ == slug(name@)
            &&& t.name == name
            &&& t.variant == variant
            &&& t.source == ThemeSource::UserInstalled
            &&& t.git_url is None
            &&& t.palette == palette
            &&& saved.1@ == without_id(user@, slug(name@)).push(t)
        },
{
    let n = chars_of(name.as_str());
    let t = trimmed(&n);
    if t.len() == 0 {
        return Err(String::from_str("theme name can't be empty"));
    }
    let id = slugify(name.as_str());
    if built_in_id_taken(listed, &id) {
        let mut e = String::from_str("\"");
        e.append(name.as_str());
        e.append("\" is a pre-installed theme, so it can't be overwritten; save it under a different name");
        return Err(e);
    }
    let mut themes = themes_without(&user, &id);
    let theme = Theme { id, name, variant, source: ThemeSource::UserInstalled, git_url: None, palette };
    let copy = theme.duplicate();
    themes.push(theme);
    Ok((copy, themes))
}

/// The `sheets-theme.json` shape a theme repo is documented to have, as
/// described in the README's "Theme repo format" section.
pub struct ThemeManifest {
    pub name: String,
    pub variant: ThemeVariant,
    pub palette: Palette,
}

/// What exporting theme `id` writes: its name, variant and palette. Only
/// user-created or user-installed themes are exportable; built-in ones
/// (including those from Ghostty) have nothing of the user's to hand off.
pub fn export_theme_manifest(themes: &Vec<Theme>, id: &str) -> (r: Result<ThemeManifest, String>)
    ensures
        index_of_id(themes@, id@) == -1 ==> r is Err && r->Err_0@ == no_theme_error(id@),
        index_of_id(themes@, id@) >= 0 ==> {
            let t = themes@[index_of_id(themes@, id@)];
            &&& t.source != ThemeSource::UserInstalled ==> r is Err && r->Err_0@ == not_exportable_error(t.name@)
            &&& t.source == ThemeSource::UserInstalled ==> r is Ok && r->Ok_0.name == t.name
                && r->Ok_0.variant == t.variant && r->Ok_0.palette == t.palette
        },
{
    let theme = match get_theme(themes, id) {
        Ok(t) => t,
        Err(e) => return Err(e),
    };
    if theme.source != ThemeSource::UserInstalled {
        let mut e = String::from_str("\"");
        e.append(theme.name.as_str());
        e.append("\" isn't a user-created theme, so there's nothing to export");
        return Err(e);
    }
    Ok(ThemeManifest { name: theme.name, variant: theme.variant, palette: theme.palette })
}

} // verus!
