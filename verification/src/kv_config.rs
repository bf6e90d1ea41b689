//! Flat `key = value` (Ghostty) and `key value` (Kitty) config files.
//!
//! Everything Sheets sets lives in one "managed" block at the end of the
//! file, after a marker line, and is regenerated on every apply; the lines
//! the user wrote above that block are kept as they are.
use vstd::prelude::*;

use crate::text::{
    is_ws, lemma_first_index_at, lemma_trim_end_append, lemma_trim_of_trim_end, lemma_trim_start_ws_first,
    trim_end, trim_start,
    chars_of, find_char, find_ws, is_char, join, join_chars, lemma_first_index,
    lemma_lines_join, lines, has_char, slice_of, split_lines, split_once, string_of, strip_cr, trim,
    trimmed, vviews, ws_pred, same_chars};

verus! {

/// The line that separates the user's own lines from the managed block.
pub const MANAGED_MARKER: &'static str = "# --- Managed by Sheets: everything below this line is regenerated on each apply ---";

/// The two flat config syntaxes used by Ghostty (`key = value`) and Kitty
/// (`key value`).
#[derive(Debug, Clone, Copy, PartialEq, Eq, Structural)]
pub enum KvSyntax {
    Equals,
    Space,
}

// ---------------------------------------------------------------------------
// Specifications
// ---------------------------------------------------------------------------

/// The character that separates a key from its value.
pub open spec fn separator(syntax: KvSyntax) -> spec_fn(char) -> bool {
    match syntax {
        KvSyntax::Equals => is_char('='),
        KvSyntax::Space => ws_pred(),
    }
}

/// The key and value on a line; blank lines and `#` comments have none.
pub open spec fn parse_line(syntax: KvSyntax, line: Seq<char>) -> Option<(Seq<char>, Seq<char>)> {
    let t = trim(line);
    if t.len() == 0 || t[0] == '#' {
        None
    } else {
        match split_once(t, separator(syntax)) {
            Some(kv) => Some((trim(kv.0), trim(kv.1))),
            None => None,
        }
    }
}

/// The line that sets `key` to `value`.
pub open spec fn format_line(syntax: KvSyntax, key: Seq<char>, value: Seq<char>) -> Seq<char> {
    match syntax {
        KvSyntax::Equals => key + seq![' ', '=', ' '] + value,
        KvSyntax::Space => key + seq![' '] + value,
    }
}

/// Does `line` set `key`?
pub open spec fn line_has_key(syntax: KvSyntax, line: Seq<char>, key: Seq<char>) -> bool {
    match parse_line(syntax, line) {
        Some(kv) => kv.0 == key,
        None => false,
    }
}

/// The character sequences held by a vector of strings.
pub open spec fn sviews(v: Seq<String>) -> Seq<Seq<char>> {
    v.map_values(|s: String| s@)
}

/// `ls` without the lines that set `key`.
pub open spec fn without_key(syntax: KvSyntax, ls: Seq<Seq<char>>, key: Seq<char>) -> Seq<Seq<char>>
    decreases ls.len(),
{
    if ls.len() == 0 {
        ls
    } else {
        let r = without_key(syntax, ls.drop_last(), key);
        if line_has_key(syntax, ls.last(), key) {
            r
        } else {
            r.push(ls.last())
        }
    }
}

/// The value of the last line of `ls` that sets `key`.
pub open spec fn last_value(syntax: KvSyntax, ls: Seq<Seq<char>>, key: Seq<char>) -> Option<Seq<char>>
    decreases ls.len(),
{
    if ls.len() == 0 {
        None
    } else if line_has_key(syntax, ls.last(), key) {
        Some(parse_line(syntax, ls.last()).unwrap().1)
    } else {
        last_value(syntax, ls.drop_last(), key)
    }
}

/// The values of every line of `ls` that sets `key`, in order.
pub open spec fn all_values(syntax: KvSyntax, ls: Seq<Seq<char>>, key: Seq<char>) -> Seq<Seq<char>>
    decreases ls.len(),
{
    if ls.len() == 0 {
        Seq::empty()
    } else {
        let r = all_values(syntax, ls.drop_last(), key);
        if line_has_key(syntax, ls.last(), key) {
            r.push(parse_line(syntax, ls.last()).unwrap().1)
        } else {
            r
        }
    }
}

/// The value of `key`: the one Sheets last applied, else the user's own.
pub open spec fn lookup(syntax: KvSyntax, prefix: Seq<Seq<char>>, managed: Seq<Seq<char>>, key: Seq<char>) -> Option<Seq<char>> {
    match last_value(syntax, managed, key) {
        Some(v) => Some(v),
        None => last_value(syntax, prefix, key),
    }
}

/// Every value of `key` in the managed block, or if it sets none, every
/// value of `key` in the user's lines.
pub open spec fn lookup_all(syntax: KvSyntax, prefix: Seq<Seq<char>>, managed: Seq<Seq<char>>, key: Seq<char>) -> Seq<Seq<char>> {
    if all_values(syntax, managed, key).len() > 0 {
        all_values(syntax, managed, key)
    } else {
        all_values(syntax, prefix, key)
    }
}

/// The marker line's characters.
pub open spec fn marker() -> Seq<char> {
    MANAGED_MARKER@
}

/// The index of the first line of `ls` equal to `m`, or -1.
pub open spec fn line_index(ls: Seq<Seq<char>>, m: Seq<char>) -> int
    decreases ls.len(),
{
    if ls.len() == 0 {
        -1
    } else if ls[0] == m {
        0
    } else {
        let r = line_index(ls.drop_first(), m);
        if r < 0 {
            -1
        } else {
            r + 1
        }
    }
}

/// Is the line empty or whitespace only?
pub open spec fn is_blank(l: Seq<char>) -> bool {
    trim(l).len() == 0
}

/// `ls` without its trailing blank lines.
pub open spec fn drop_blank_tail(ls: Seq<Seq<char>>) -> Seq<Seq<char>>
    decreases ls.len(),
{
    if ls.len() > 0 && is_blank(ls.last()) {
        drop_blank_tail(ls.drop_last())
    } else {
        ls
    }
}

/// The user's lines of a file with lines `ls`: everything before the
/// marker, without the blank lines just above it.
pub open spec fn loaded_prefix(ls: Seq<Seq<char>>) -> Seq<Seq<char>> {
    let p = line_index(ls, marker());
    if p < 0 {
        ls
    } else {
        drop_blank_tail(ls.take(p))
    }
}

/// The managed lines of a file with lines `ls`: everything after the marker.
pub open spec fn loaded_managed(ls: Seq<Seq<char>>) -> Seq<Seq<char>> {
    let p = line_index(ls, marker());
    if p < 0 {
        Seq::empty()
    } else {
        ls.skip(p + 1)
    }
}

/// The lines of the saved file: the user's lines, then (if there is
/// anything managed) a blank line, the marker, and the managed lines.
pub open spec fn output_lines(prefix: Seq<Seq<char>>, managed: Seq<Seq<char>>) -> Seq<Seq<char>> {
    if managed.len() == 0 {
        prefix
    } else {
        prefix + seq![Seq::<char>::empty(), marker()] + managed
    }
}

/// The saved file's text: the output lines, each ended by a newline (an
/// empty file still gets one newline).
pub open spec fn rendered(prefix: Seq<Seq<char>>, managed: Seq<Seq<char>>) -> Seq<char> {
    join(output_lines(prefix, managed), seq!['\n']).push('\n')
}

/// A line that survives being written out and read back as one line.
pub open spec fn storable(l: Seq<char>) -> bool {
    !has_char(l, '\n') && strip_cr(l) == l
}

impl KvConfig {
    /// The user's own lines.
    pub open spec fn prefix(&self) -> Seq<Seq<char>> {
        sviews(self.prefix_lines@)
    }

    /// The managed lines.
    pub open spec fn managed(&self) -> Seq<Seq<char>> {
        sviews(self.managed_lines@)
    }
}

// ---------------------------------------------------------------------------
// Lemmas
// ---------------------------------------------------------------------------

/// What `line_index` returns.
pub proof fn lemma_line_index(ls: Seq<Seq<char>>, m: Seq<char>)
    ensures
        -1 <= line_index(ls, m) < ls.len(),
        line_index(ls, m) >= 0 ==> ls[line_index(ls, m)] == m,
        forall|j: int| 0 <= j < ls.len() && (line_index(ls, m) < 0 || j < line_index(ls, m)) ==> #[trigger] ls[j] != m,
    decreases ls.len(),
{
    if ls.len() > 0 && ls[0] != m {
        lemma_line_index(ls.drop_first(), m);
        assert forall|j: int| 0 <= j < ls.len() && (line_index(ls, m) < 0 || j < line_index(ls, m)) implies #[trigger] ls[j] != m by {
            if j > 0 {
                assert(ls[j] == ls.drop_first()[j - 1]);
            }
        }
    }
}

/// `line_index` is the first position holding `m`.
pub proof fn lemma_line_index_at(ls: Seq<Seq<char>>, m: Seq<char>, i: int)
    requires
        0 <= i < ls.len(),
        ls[i] == m,
        forall|j: int| 0 <= j < i ==> #[trigger] ls[j] != m,
    ensures
        line_index(ls, m) == i,
{
    lemma_line_index(ls, m);
    let f = line_index(ls, m);
    if f < 0 {
        assert(ls[i] != m);
    } else if f < i {
        assert(ls[f] != m);
    } else if i < f {
        assert(ls[i] != m);
    }
}

/// `line_index` is -1 when no line is `m`.
pub proof fn lemma_line_index_none(ls: Seq<Seq<char>>, m: Seq<char>)
    requires
        forall|j: int| 0 <= j < ls.len() ==> #[trigger] ls[j] != m,
    ensures
        line_index(ls, m) == -1,
{
    lemma_line_index(ls, m);
    let f = line_index(ls, m);
    if f >= 0 {
        assert(ls[f] != m);
    }
}


/// The marker line is an ordinary, non-blank, single line.
pub proof fn lemma_marker_shape()
    ensures
        storable(marker()),
        !is_blank(marker()),
        marker().len() > 0,
        marker()[0] == '#',
{
    reveal_strlit("# --- Managed by Sheets: everything below this line is regenerated on each apply ---");
    assert(marker()[0] == '#');
    assert(!crate::text::is_ws(marker()[0]));
    assert(!crate::text::is_ws(marker().last()));
    crate::text::lemma_trim_id(marker());
    assert(!has_char(marker(), '\n')) by {
        if has_char(marker(), '\n') {
            let i = choose|i: int| 0 <= i < marker().len() && marker()[i] == '\n';
            assert(marker()[i] != '\n');
        }
    }
}

/// `drop_blank_tail` keeps a list whose last line is not blank.
proof fn lemma_drop_blank_tail_keeps(ls: Seq<Seq<char>>)
    requires
        ls.len() == 0 || !is_blank(ls.last()),
    ensures
        drop_blank_tail(ls) == ls,
{
}

/// Are all the lines storable?
pub open spec fn all_storable(ls: Seq<Seq<char>>) -> bool {
    forall|i: int| 0 <= i < ls.len() ==> storable(#[trigger] ls[i])
}

/// User lines that survive saving: each storable, and none the marker line.
pub open spec fn plain_user_lines(ls: Seq<Seq<char>>) -> bool {
    forall|i: int| 0 <= i < ls.len() ==> storable(#[trigger] ls[i]) && ls[i] != marker()
}

/// Every line `drop_blank_tail` keeps has what every line of `ls` has.
proof fn lemma_drop_blank_tail_keeps_lines(ls: Seq<Seq<char>>, pred: spec_fn(Seq<char>) -> bool)
    requires
        forall|i: int| 0 <= i < ls.len() ==> pred(#[trigger] ls[i]),
    ensures
        forall|i: int| 0 <= i < drop_blank_tail(ls).len() ==> pred(#[trigger] drop_blank_tail(ls)[i]),
    decreases ls.len(),
{
    if ls.len() > 0 && is_blank(ls.last()) {
        assert forall|i: int| 0 <= i < ls.drop_last().len() implies pred(#[trigger] ls.drop_last()[i]) by {
            assert(ls.drop_last()[i] == ls[i]);
        }
        lemma_drop_blank_tail_keeps_lines(ls.drop_last(), pred);
        assert(drop_blank_tail(ls) == drop_blank_tail(ls.drop_last()));
    } else {
        assert(drop_blank_tail(ls) == ls);
    }
}

/// Every line `without_key` keeps has what every line of `ls` has.
pub proof fn lemma_without_key_keeps_lines(syntax: KvSyntax, ls: Seq<Seq<char>>, key: Seq<char>, pred: spec_fn(Seq<char>) -> bool)
    requires
        forall|i: int| 0 <= i < ls.len() ==> pred(#[trigger] ls[i]),
    ensures
        forall|i: int| 0 <= i < without_key(syntax, ls, key).len() ==> pred(#[trigger] without_key(syntax, ls, key)[i]),
    decreases ls.len(),
{
    if ls.len() > 0 {
        assert forall|i: int| 0 <= i < ls.drop_last().len() implies pred(#[trigger] ls.drop_last()[i]) by {
            assert(ls.drop_last()[i] == ls[i]);
        }
        lemma_without_key_keeps_lines(syntax, ls.drop_last(), key, pred);
        assert(pred(ls[ls.len() - 1]));
        let r = without_key(syntax, ls.drop_last(), key);
        let w = without_key(syntax, ls, key);
        assert forall|i: int| 0 <= i < w.len() implies pred(#[trigger] w[i]) by {
            if i < r.len() {
                assert(w[i] == r[i]);
            } else {
                assert(w[i] == ls.last());
            }
        }
    }
}

/// Blank lines at the end set no key: dropping them changes no value.
proof fn lemma_drop_blank_tail_values(syntax: KvSyntax, ls: Seq<Seq<char>>, key: Seq<char>)
    ensures
        last_value(syntax, drop_blank_tail(ls), key) == last_value(syntax, ls, key),
        all_values(syntax, drop_blank_tail(ls), key) == all_values(syntax, ls, key),
    decreases ls.len(),
{
    if ls.len() > 0 && is_blank(ls.last()) {
        lemma_drop_blank_tail_values(syntax, ls.drop_last(), key);
        assert(parse_line(syntax, ls.last()) is None);
    }
}

/// The lines loaded from a text whose lines are all storable: the user's
/// lines are plain, the managed lines storable.
pub proof fn lemma_loaded_lines(text: Seq<char>)
    requires
        all_storable(lines(text)),
    ensures
        plain_user_lines(loaded_prefix(lines(text))),
        all_storable(loaded_managed(lines(text))),
{
    let ls = lines(text);
    let m = marker();
    lemma_line_index(ls, m);
    let p = line_index(ls, m);
    if p >= 0 {
        let pre = ls.take(p);
        let pred = |l: Seq<char>| storable(l) && l != marker();
        assert forall|i: int| 0 <= i < pre.len() implies pred(#[trigger] pre[i]) by {
            assert(pre[i] == ls[i]);
        }
        lemma_drop_blank_tail_keeps_lines(pre, pred);
        let after = ls.skip(p + 1);
        assert forall|i: int| 0 <= i < after.len() implies storable(#[trigger] after[i]) by {
            assert(after[i] == ls[i + p + 1]);
        }
    }
}

/// Saving a non-empty managed block after plain user lines and loading the
/// text again gives back the user's lines without blank lines at their
/// end, and the same managed lines.
pub proof fn lemma_save_load_managed(prefix: Seq<Seq<char>>, managed: Seq<Seq<char>>)
    requires
        plain_user_lines(prefix),
        all_storable(managed),
        managed.len() > 0,
    ensures
        loaded_prefix(lines(rendered(prefix, managed))) == drop_blank_tail(prefix),
        loaded_managed(lines(rendered(prefix, managed))) == managed,
{
    lemma_marker_shape();
    let out = output_lines(prefix, managed);
    assert(storable(Seq::<char>::empty())) by {
        assert(!has_char(Seq::<char>::empty(), '\n'));
    }
    assert forall|i: int| 0 <= i < out.len() implies storable(#[trigger] out[i]) by {
        if i < prefix.len() {
            assert(out[i] == prefix[i]);
        } else if i == prefix.len() {
            assert(out[i] == Seq::<char>::empty());
        } else if i == prefix.len() + 1 {
            assert(out[i] == marker());
        } else {
            assert(out[i] == managed[i - prefix.len() - 2]);
        }
    }
    lemma_lines_join(out);
    let ls = lines(rendered(prefix, managed));
    assert(ls == out);
    let p: int = prefix.len() as int + 1;
    assert(out[p] == marker());
    assert forall|j: int| 0 <= j < p implies #[trigger] out[j] != marker() by {
        if j < prefix.len() {
            assert(out[j] == prefix[j]);
        } else {
            assert(out[j] == Seq::<char>::empty());
        }
    }
    lemma_line_index_at(out, marker(), p);
    assert(out.skip(p + 1) =~= managed);
    assert(out.take(p) =~= prefix.push(Seq::<char>::empty()));
    assert(is_blank(Seq::<char>::empty()));
    assert(out.take(p).drop_last() =~= prefix);
}

/// Saving and loading again gives back the same user lines and managed
/// lines, for lines that are stored one per line (no newline inside, no
/// trailing carriage return), where the user's lines hold no marker line and
/// do not end in a blank line that the managed block would follow, and
/// where there is something to save.
pub proof fn lemma_save_load_roundtrip(prefix: Seq<Seq<char>>, managed: Seq<Seq<char>>)
    requires
        forall|i: int| 0 <= i < prefix.len() ==> storable(#[trigger] prefix[i]),
        forall|i: int| 0 <= i < managed.len() ==> storable(#[trigger] managed[i]),
        forall|i: int| 0 <= i < prefix.len() ==> #[trigger] prefix[i] != marker(),
        managed.len() > 0 ==> prefix.len() == 0 || !is_blank(prefix.last()),
        prefix.len() > 0 || managed.len() > 0,
    ensures
        loaded_prefix(lines(rendered(prefix, managed))) == prefix,
        loaded_managed(lines(rendered(prefix, managed))) == managed,
{
    if managed.len() == 0 {
        assert(output_lines(prefix, managed) == prefix);
        lemma_lines_join(prefix);
        lemma_line_index_none(prefix, marker());
    } else {
        lemma_save_load_managed(prefix, managed);
        lemma_drop_blank_tail_keeps(prefix);
    }
}

/// A text on one line with no whitespace at its ends is storable.
pub proof fn lemma_trimmed_storable(c: Seq<char>)
    requires
        trim(c) == c,
        !has_char(c, '\n'),
    ensures
        storable(c),
{
    crate::text::lemma_trim_shape(c);
}

/// The line for a key and a value, neither holding a newline, is storable
/// when the value is.
pub proof fn lemma_format_line_storable(syntax: KvSyntax, key: Seq<char>, value: Seq<char>)
    requires
        !has_char(key, '\n'),
        storable(value),
    ensures
        storable(format_line(syntax, key, value)),
{
    let sep: Seq<char> = match syntax {
        KvSyntax::Equals => seq![' ', '=', ' '],
        KvSyntax::Space => seq![' '],
    };
    let l = format_line(syntax, key, value);
    assert(l == key + sep + value);
    assert(!has_char(l, '\n')) by {
        if has_char(l, '\n') {
            let i = choose|i: int| 0 <= i < l.len() && l[i] == '\n';
            if i < key.len() {
                assert(key[i] == l[i]);
            } else if i < key.len() + sep.len() {
                assert(sep[i - key.len()] == l[i]);
            } else {
                assert(value[i - key.len() - sep.len()] == l[i]);
            }
        }
    }
    if value.len() > 0 {
        assert(l.last() == value.last());
    } else {
        assert(l.last() == ' ');
    }
}

/// Saving a non-empty managed block after plain user lines and loading the
/// text again reads every key as before.
pub proof fn lemma_save_load_lookups(syntax: KvSyntax, prefix: Seq<Seq<char>>, managed: Seq<Seq<char>>, key: Seq<char>)
    requires
        plain_user_lines(prefix),
        all_storable(managed),
        managed.len() > 0,
    ensures
        ({
            let ls = lines(rendered(prefix, managed));
            &&& lookup(syntax, loaded_prefix(ls), loaded_managed(ls), key) == lookup(syntax, prefix, managed, key)
            &&& lookup_all(syntax, loaded_prefix(ls), loaded_managed(ls), key) == lookup_all(syntax, prefix, managed, key)
        }),
{
    lemma_save_load_managed(prefix, managed);
    lemma_drop_blank_tail_values(syntax, prefix, key);
}

/// A key that a written line reads back as: non-empty, no whitespace at
/// either end, not starting a comment, and without the separator (for the
/// space syntax, without any whitespace).
pub open spec fn valid_key(syntax: KvSyntax, key: Seq<char>) -> bool {
    &&& key.len() > 0
    &&& key[0] != '#'
    &&& !is_ws(key[0])
    &&& !is_ws(key.last())
    &&& match syntax {
        KvSyntax::Equals => !has_char(key, '='),
        KvSyntax::Space => forall|i: int| 0 <= i < key.len() ==> !is_ws(#[trigger] key[i]),
    }
}

/// A value that a written line reads back: any value with `=`, one with
/// something besides whitespace with the space syntax.
pub open spec fn valid_value(syntax: KvSyntax, value: Seq<char>) -> bool {
    match syntax {
        KvSyntax::Equals => true,
        KvSyntax::Space => trim(value).len() > 0,
    }
}

/// A line written for a valid key reads back as that key and the trimmed
/// value.
pub proof fn lemma_parse_format(syntax: KvSyntax, key: Seq<char>, value: Seq<char>)
    requires
        valid_key(syntax, key),
        valid_value(syntax, value),
    ensures
        parse_line(syntax, format_line(syntax, key, value)) == Some((key, trim(value))),
{
    let line = format_line(syntax, key, value);
    let n = key.len() as int;
    // The key alone trims to itself.
    assert(trim_end(key) == key);
    assert(trim_start(key) == key);
    match syntax {
        KvSyntax::Equals => {
            let a = key + seq![' ', '='];
            let b = seq![' '] + value;
            assert(line =~= a + b);
            assert(a.last() == '=');
            assert(trim_end(a) == a);
            lemma_trim_end_append(a, b);
            let t = a + trim_end(b);
            assert(trim_end(line) == t) by {
                if trim_end(b).len() == 0 {
                    assert(a + trim_end(b) =~= a);
                }
            }
            assert(line[0] == key[0]);
            assert(trim_start(line) == line);
            assert(trim(line) == t);
            assert(t[0] == key[0]);
            assert(t[n + 1] == '=');
            assert forall|j: int| 0 <= j < n + 1 implies !is_char('=')(#[trigger] t[j]) by {
                if j < n {
                    assert(t[j] == key[j]);
                    if key[j] == '=' {
                        assert(has_char(key, '='));
                    }
                } else {
                    assert(t[j] == ' ');
                }
            }
            lemma_first_index_at(t, is_char('='), n + 1);
            let k = t.take(n + 1);
            assert(k =~= key.push(' '));
            assert(k.drop_last() =~= key);
            assert(trim_end(k) == key);
            assert(k[0] == key[0]);
            assert(trim_start(k) == k);
            assert(trim(k) == key);
            assert(t.skip(n + 2) =~= trim_end(b));
            lemma_trim_of_trim_end(b);
            assert(b =~= seq![' '] + value);
            lemma_trim_start_ws_first(' ', value);
            assert(trim(b) == trim(value));
        },
        KvSyntax::Space => {
            let b = seq![' '] + value;
            assert(line =~= key + b);
            lemma_trim_of_trim_end(value);
            lemma_trim_end_append(seq![' '], value);
            assert(trim_end(b) == seq![' '] + trim_end(value));
            lemma_trim_end_append(key, b);
            let t = key + trim_end(b);
            assert(line[0] == key[0]);
            assert(trim_start(line) == line);
            assert(trim(line) == t);
            assert(t[0] == key[0]);
            assert(t[n] == ' ');
            assert forall|j: int| 0 <= j < n implies !ws_pred()(#[trigger] t[j]) by {
                assert(t[j] == key[j]);
            }
            lemma_first_index_at(t, ws_pred(), n);
            assert(t.take(n) =~= key);
            assert(t.skip(n + 1) =~= trim_end(value));
        },
    }
}

/// Dropping the lines for one key keeps the values of every other key.
pub proof fn lemma_without_other_key(syntax: KvSyntax, ls: Seq<Seq<char>>, key: Seq<char>, other: Seq<char>)
    requires
        key != other,
    ensures
        last_value(syntax, without_key(syntax, ls, key), other) == last_value(syntax, ls, other),
        all_values(syntax, without_key(syntax, ls, key), other) == all_values(syntax, ls, other),
    decreases ls.len(),
{
    if ls.len() > 0 {
        lemma_without_other_key(syntax, ls.drop_last(), key, other);
        let r = without_key(syntax, ls.drop_last(), key);
        if !line_has_key(syntax, ls.last(), key) {
            assert(r.push(ls.last()).drop_last() =~= r);
        }
    }
}

/// After dropping the lines for a key, no value of it is left.
pub proof fn lemma_without_key_none(syntax: KvSyntax, ls: Seq<Seq<char>>, key: Seq<char>)
    ensures
        last_value(syntax, without_key(syntax, ls, key), key) is None,
        all_values(syntax, without_key(syntax, ls, key), key).len() == 0,
    decreases ls.len(),
{
    if ls.len() > 0 {
        lemma_without_key_none(syntax, ls.drop_last(), key);
        let r = without_key(syntax, ls.drop_last(), key);
        if !line_has_key(syntax, ls.last(), key) {
            assert(r.push(ls.last()).drop_last() =~= r);
        }
    }
}

/// Setting a key and then looking it up gives the value that was set
/// (trimmed); looking up any other key gives what it gave before; and the
/// key is then set by exactly one managed line.
pub proof fn lemma_set_then_get(
    syntax: KvSyntax,
    prefix: Seq<Seq<char>>,
    managed: Seq<Seq<char>>,
    key: Seq<char>,
    value: Seq<char>,
    other: Seq<char>,
)
    requires
        valid_key(syntax, key),
        valid_value(syntax, value),
    ensures
        ({
            let after = without_key(syntax, managed, key).push(format_line(syntax, key, value));
            &&& lookup(syntax, prefix, after, key) == Some(trim(value))
            &&& lookup_all(syntax, prefix, after, key) == seq![trim(value)]
            &&& (other != key ==> lookup(syntax, prefix, after, other) == lookup(syntax, prefix, managed, other))
            &&& (other != key ==> lookup_all(syntax, prefix, after, other) == lookup_all(syntax, prefix, managed, other))
        }),
{
    let w = without_key(syntax, managed, key);
    let line = format_line(syntax, key, value);
    let after = w.push(line);
    lemma_parse_format(syntax, key, value);
    assert(after.drop_last() =~= w);
    lemma_without_key_none(syntax, managed, key);
    assert(all_values(syntax, after, key) =~= seq![trim(value)]);
    if other != key {
        lemma_without_other_key(syntax, managed, key, other);
    }
}


/// Lines for other keys do not change what a key looks up.
proof fn lemma_last_value_push_other(syntax: KvSyntax, ls: Seq<Seq<char>>, line: Seq<char>, k: Seq<char>)
    requires
        !line_has_key(syntax, line, k),
    ensures
        last_value(syntax, ls.push(line), k) == last_value(syntax, ls, k),
        all_values(syntax, ls.push(line), k) == all_values(syntax, ls, k),
{
    assert(ls.push(line).drop_last() =~= ls);
}

/// Setting `key`: it then looks up the value set; every other key looks up
/// what it did before.
pub proof fn lemma_set_frame(syntax: KvSyntax, prefix: Seq<Seq<char>>, managed: Seq<Seq<char>>, key: Seq<char>, value: Seq<char>)
    requires
        valid_key(syntax, key),
        valid_value(syntax, value),
    ensures
        ({
            let after = without_key(syntax, managed, key).push(format_line(syntax, key, value));
            &&& lookup(syntax, prefix, after, key) == Some(trim(value))
            &&& lookup_all(syntax, prefix, after, key) == seq![trim(value)]
            &&& forall|k: Seq<char>| k != key ==> #[trigger] lookup(syntax, prefix, after, k) == lookup(syntax, prefix, managed, k)
            &&& forall|k: Seq<char>| k != key ==> #[trigger] lookup_all(syntax, prefix, after, k) == lookup_all(syntax, prefix, managed, k)
        }),
{
    let after = without_key(syntax, managed, key).push(format_line(syntax, key, value));
    lemma_set_then_get(syntax, prefix, managed, key, value, key);
    assert forall|k: Seq<char>| k != key implies #[trigger] lookup(syntax, prefix, after, k) == lookup(syntax, prefix, managed, k) by {
        lemma_set_then_get(syntax, prefix, managed, key, value, k);
    }
    assert forall|k: Seq<char>| k != key implies #[trigger] lookup_all(syntax, prefix, after, k) == lookup_all(syntax, prefix, managed, k) by {
        lemma_set_then_get(syntax, prefix, managed, key, value, k);
    }
}

/// Pushing a line for `key`: its value joins the managed values of `key`;
/// every other key looks up what it did before.
pub proof fn lemma_push_frame(syntax: KvSyntax, prefix: Seq<Seq<char>>, managed: Seq<Seq<char>>, key: Seq<char>, value: Seq<char>)
    requires
        valid_key(syntax, key),
        valid_value(syntax, value),
    ensures
        ({
            let after = managed.push(format_line(syntax, key, value));
            &&& all_values(syntax, after, key) == all_values(syntax, managed, key).push(trim(value))
            &&& forall|k: Seq<char>| k != key ==> #[trigger] lookup(syntax, prefix, after, k) == lookup(syntax, prefix, managed, k)
            &&& forall|k: Seq<char>| k != key ==> #[trigger] lookup_all(syntax, prefix, after, k) == lookup_all(syntax, prefix, managed, k)
        }),
{
    let line = format_line(syntax, key, value);
    let after = managed.push(line);
    lemma_parse_format(syntax, key, value);
    assert(after.drop_last() =~= managed);
    assert forall|k: Seq<char>| k != key implies #[trigger] lookup(syntax, prefix, after, k) == lookup(syntax, prefix, managed, k) by {
        lemma_last_value_push_other(syntax, managed, line, k);
    }
    assert forall|k: Seq<char>| k != key implies #[trigger] lookup_all(syntax, prefix, after, k) == lookup_all(syntax, prefix, managed, k) by {
        lemma_last_value_push_other(syntax, managed, line, k);
    }
}

/// Unsetting `key`: no managed line sets it any more; every other key looks
/// up what it did before.
pub proof fn lemma_unset_frame(syntax: KvSyntax, prefix: Seq<Seq<char>>, managed: Seq<Seq<char>>, key: Seq<char>)
    ensures
        ({
            let after = without_key(syntax, managed, key);
            &&& all_values(syntax, after, key).len() == 0
            &&& last_value(syntax, after, key) is None
            &&& forall|k: Seq<char>| k != key ==> #[trigger] lookup(syntax, prefix, after, k) == lookup(syntax, prefix, managed, k)
            &&& forall|k: Seq<char>| k != key ==> #[trigger] lookup_all(syntax, prefix, after, k) == lookup_all(syntax, prefix, managed, k)
        }),
{
    lemma_without_key_none(syntax, managed, key);
    assert forall|k: Seq<char>| k != key implies #[trigger] lookup(syntax, prefix, without_key(syntax, managed, key), k) == lookup(syntax, prefix, managed, k) by {
        lemma_without_other_key(syntax, managed, key, k);
    }
    assert forall|k: Seq<char>| k != key implies #[trigger] lookup_all(syntax, prefix, without_key(syntax, managed, key), k) == lookup_all(syntax, prefix, managed, k) by {
        lemma_without_other_key(syntax, managed, key, k);
    }
}

/// Clearing `key` everywhere: it then looks up nothing; every other key
/// looks up what it did before.
pub proof fn lemma_clear_frame(syntax: KvSyntax, prefix: Seq<Seq<char>>, managed: Seq<Seq<char>>, key: Seq<char>)
    ensures
        ({
            let p2 = without_key(syntax, prefix, key);
            let m2 = without_key(syntax, managed, key);
            &&& lookup(syntax, p2, m2, key) is None
            &&& lookup_all(syntax, p2, m2, key).len() == 0
            &&& forall|k: Seq<char>| k != key ==> #[trigger] lookup(syntax, p2, m2, k) == lookup(syntax, prefix, managed, k)
            &&& forall|k: Seq<char>| k != key ==> #[trigger] lookup_all(syntax, p2, m2, k) == lookup_all(syntax, prefix, managed, k)
        }),
{
    lemma_without_key_none(syntax, managed, key);
    lemma_without_key_none(syntax, prefix, key);
    let p2 = without_key(syntax, prefix, key);
    let m2 = without_key(syntax, managed, key);
    assert forall|k: Seq<char>| k != key implies #[trigger] lookup(syntax, p2, m2, k) == lookup(syntax, prefix, managed, k) by {
        lemma_without_other_key(syntax, managed, key, k);
        lemma_without_other_key(syntax, prefix, key, k);
    }
    assert forall|k: Seq<char>| k != key implies #[trigger] lookup_all(syntax, p2, m2, k) == lookup_all(syntax, prefix, managed, k) by {
        lemma_without_other_key(syntax, managed, key, k);
        lemma_without_other_key(syntax, prefix, key, k);
    }
}

// ---------------------------------------------------------------------------
// Dropping the lines of several keys
// ---------------------------------------------------------------------------

/// Does `line` set one of `keys`?
pub open spec fn sets_one_of(syntax: KvSyntax, line: Seq<char>, keys: Set<Seq<char>>) -> bool {
    match parse_line(syntax, line) {
        Some(kv) => keys.contains(kv.0),
        None => false,
    }
}

/// `ls` without the lines that set any of `keys`.
pub open spec fn strip_keys(syntax: KvSyntax, ls: Seq<Seq<char>>, keys: Set<Seq<char>>) -> Seq<Seq<char>>
    decreases ls.len(),
{
    if ls.len() == 0 {
        ls
    } else {
        let r = strip_keys(syntax, ls.drop_last(), keys);
        if sets_one_of(syntax, ls.last(), keys) {
            r
        } else {
            r.push(ls.last())
        }
    }
}

/// Dropping no keys keeps every line.
pub proof fn lemma_strip_none(syntax: KvSyntax, ls: Seq<Seq<char>>)
    ensures
        strip_keys(syntax, ls, Set::empty()) == ls,
    decreases ls.len(),
{
    if ls.len() > 0 {
        lemma_strip_none(syntax, ls.drop_last());
        assert(ls.drop_last().push(ls.last()) =~= ls);
    }
}

/// Dropping one more key after some others is dropping them all.
pub proof fn lemma_strip_then_without(syntax: KvSyntax, ls: Seq<Seq<char>>, keys: Set<Seq<char>>, key: Seq<char>)
    ensures
        without_key(syntax, strip_keys(syntax, ls, keys), key) == strip_keys(syntax, ls, keys.insert(key)),
    decreases ls.len(),
{
    if ls.len() > 0 {
        lemma_strip_then_without(syntax, ls.drop_last(), keys, key);
        let r = strip_keys(syntax, ls.drop_last(), keys);
        if !sets_one_of(syntax, ls.last(), keys) {
            assert(r.push(ls.last()).drop_last() =~= r);
        }
    }
}

/// Dropping keys from two runs of lines is dropping them from each.
pub proof fn lemma_strip_concat(syntax: KvSyntax, a: Seq<Seq<char>>, b: Seq<Seq<char>>, keys: Set<Seq<char>>)
    ensures
        strip_keys(syntax, a + b, keys) == strip_keys(syntax, a, keys) + strip_keys(syntax, b, keys),
    decreases b.len(),
{
    if b.len() == 0 {
        assert(a + b =~= a);
        assert(strip_keys(syntax, a, keys) + strip_keys(syntax, b, keys) =~= strip_keys(syntax, a, keys));
    } else {
        lemma_strip_concat(syntax, a, b.drop_last(), keys);
        assert((a + b).drop_last() =~= a + b.drop_last());
        assert((a + b).last() == b.last());
        let ra = strip_keys(syntax, a, keys);
        let rb = strip_keys(syntax, b.drop_last(), keys);
        assert((ra + rb).push(b.last()) =~= ra + rb.push(b.last()));
    }
}

/// Dropping the same keys twice is dropping them once.
pub proof fn lemma_strip_twice(syntax: KvSyntax, ls: Seq<Seq<char>>, keys: Set<Seq<char>>)
    ensures
        strip_keys(syntax, strip_keys(syntax, ls, keys), keys) == strip_keys(syntax, ls, keys),
    decreases ls.len(),
{
    if ls.len() > 0 {
        lemma_strip_twice(syntax, ls.drop_last(), keys);
        let r = strip_keys(syntax, ls.drop_last(), keys);
        if !sets_one_of(syntax, ls.last(), keys) {
            assert(r.push(ls.last()).drop_last() =~= r);
        }
    }
}

/// Lines that each set one of the keys are all dropped.
pub proof fn lemma_strip_all(syntax: KvSyntax, ls: Seq<Seq<char>>, keys: Set<Seq<char>>)
    requires
        forall|i: int| 0 <= i < ls.len() ==> sets_one_of(syntax, #[trigger] ls[i], keys),
    ensures
        strip_keys(syntax, ls, keys) == Seq::<Seq<char>>::empty(),
    decreases ls.len(),
{
    if ls.len() > 0 {
        assert(sets_one_of(syntax, ls[ls.len() - 1], keys));
        lemma_strip_all(syntax, ls.drop_last(), keys);
    }
}

/// Lines none of which sets `key` are all kept when dropping it.
pub proof fn lemma_without_key_absent(syntax: KvSyntax, ls: Seq<Seq<char>>, key: Seq<char>)
    requires
        forall|i: int| 0 <= i < ls.len() ==> !line_has_key(syntax, #[trigger] ls[i], key),
    ensures
        without_key(syntax, ls, key) == ls,
    decreases ls.len(),
{
    if ls.len() > 0 {
        assert(!line_has_key(syntax, ls[ls.len() - 1], key));
        lemma_without_key_absent(syntax, ls.drop_last(), key);
        assert(ls.drop_last().push(ls.last()) =~= ls);
    }
}

/// Dropping a key from two runs of lines is dropping it from each.
pub proof fn lemma_without_key_concat(syntax: KvSyntax, a: Seq<Seq<char>>, b: Seq<Seq<char>>, key: Seq<char>)
    ensures
        without_key(syntax, a + b, key) == without_key(syntax, a, key) + without_key(syntax, b, key),
    decreases b.len(),
{
    if b.len() == 0 {
        assert(a + b =~= a);
        assert(without_key(syntax, a, key) + without_key(syntax, b, key) =~= without_key(syntax, a, key));
    } else {
        lemma_without_key_concat(syntax, a, b.drop_last(), key);
        assert((a + b).drop_last() =~= a + b.drop_last());
        assert((a + b).last() == b.last());
        let ra = without_key(syntax, a, key);
        let rb = without_key(syntax, b.drop_last(), key);
        assert((ra + rb).push(b.last()) =~= ra + rb.push(b.last()));
    }
}

/// Setting a key on lines made of the user's lines without some keys and
/// then lines that set those keys: the key joins the dropped ones, and its
/// line joins the lines after them.
pub proof fn lemma_set_after_strip(
    syntax: KvSyntax,
    m: Seq<Seq<char>>,
    keys: Set<Seq<char>>,
    a: Seq<Seq<char>>,
    key: Seq<char>,
    value: Seq<char>,
)
    requires
        valid_key(syntax, key),
        valid_value(syntax, value),
        !keys.contains(key),
        forall|i: int| 0 <= i < a.len() ==> sets_one_of(syntax, #[trigger] a[i], keys),
    ensures
        without_key(syntax, strip_keys(syntax, m, keys) + a, key).push(format_line(syntax, key, value))
            == strip_keys(syntax, m, keys.insert(key)) + a.push(format_line(syntax, key, value)),
        forall|i: int| 0 <= i < a.len() + 1 ==> sets_one_of(syntax, #[trigger] a.push(format_line(syntax, key, value))[i], keys.insert(key)),
{
    let line = format_line(syntax, key, value);
    lemma_parse_format(syntax, key, value);
    assert forall|i: int| 0 <= i < a.len() implies !line_has_key(syntax, #[trigger] a[i], key) by {
        assert(sets_one_of(syntax, a[i], keys));
    }
    lemma_without_key_absent(syntax, a, key);
    lemma_without_key_concat(syntax, strip_keys(syntax, m, keys), a, key);
    lemma_strip_then_without(syntax, m, keys, key);
    assert((strip_keys(syntax, m, keys.insert(key)) + a).push(line) =~= strip_keys(syntax, m, keys.insert(key)) + a.push(line));
    assert forall|i: int| 0 <= i < a.len() + 1 implies sets_one_of(syntax, #[trigger] a.push(line)[i], keys.insert(key)) by {
        if i < a.len() {
            assert(a.push(line)[i] == a[i]);
            assert(sets_one_of(syntax, a[i], keys));
        }
    }
}

/// Setting one of the dropped keys on lines made of the user's lines
/// without those keys, then lines none of which sets it: its line joins
/// the lines after them.
pub proof fn lemma_set_dropped_key(
    syntax: KvSyntax,
    m: Seq<Seq<char>>,
    keys: Set<Seq<char>>,
    a: Seq<Seq<char>>,
    key: Seq<char>,
    line: Seq<char>,
)
    requires
        keys.contains(key),
        forall|i: int| 0 <= i < a.len() ==> !line_has_key(syntax, #[trigger] a[i], key),
    ensures
        without_key(syntax, strip_keys(syntax, m, keys) + a, key) == strip_keys(syntax, m, keys) + a,
        without_key(syntax, strip_keys(syntax, m, keys) + a, key).push(line) == strip_keys(syntax, m, keys) + a.push(line),
{
    lemma_without_key_absent(syntax, a, key);
    lemma_without_key_concat(syntax, strip_keys(syntax, m, keys), a, key);
    lemma_strip_then_without(syntax, m, keys, key);
    assert(keys.insert(key) =~= keys);
    assert((strip_keys(syntax, m, keys) + a).push(line) =~= strip_keys(syntax, m, keys) + a.push(line));
}

/// The line written for a valid key sets that key, and no other.
pub proof fn lemma_format_sets(syntax: KvSyntax, key: Seq<char>, value: Seq<char>, keys: Set<Seq<char>>, other: Seq<char>)
    requires
        valid_key(syntax, key),
        valid_value(syntax, value),
    ensures
        sets_one_of(syntax, format_line(syntax, key, value), keys) == keys.contains(key),
        line_has_key(syntax, format_line(syntax, key, value), other) == (other == key),
{
    lemma_parse_format(syntax, key, value);
}

// ---------------------------------------------------------------------------
// Executable code
// ---------------------------------------------------------------------------

impl KvSyntax {
    /// The key and value on `line`, both trimmed.
    pub fn parse_chars(self, line: &[char]) -> (r: Option<(Vec<char>, Vec<char>)>)
        ensures
            match r {
                Some(kv) => parse_line(self, line@) == Some((kv.0@, kv.1@)),
                None => parse_line(self, line@) is None,
            },
    {
        let t = trimmed(line);
        if t.len() == 0 || t[0] == '#' {
            return None;
        }
        let found = match self {
            KvSyntax::Equals => find_char(&t, '='),
            KvSyntax::Space => find_ws(&t),
        };
        proof {
            lemma_first_index(t@, separator(self));
        }
        match found {
            None => None,
            Some(i) => {
                let k = slice_of(&t, 0, i);
                let v = slice_of(&t, i + 1, t.len());
                assert(k@ == t@.take(i as int));
                assert(v@ == t@.skip(i + 1));
                Some((trimmed(&k), trimmed(&v)))
            },
        }
    }

    /// The key and value on `line`; `None` for blank lines, comments, and
    /// lines without a separator.
    pub fn parse(self, line: &str) -> (r: Option<(String, String)>)
        ensures
            match r {
                Some(kv) => parse_line(self, line@) == Some((kv.0@, kv.1@)),
                None => parse_line(self, line@) is None,
            },
    {
        let cs = chars_of(line);
        match self.parse_chars(&cs) {
            Some(kv) => Some((string_of(&kv.0), string_of(&kv.1))),
            None => None,
        }
    }

    /// The line that sets `key` to `value`.
    pub fn format(self, key: &str, value: &str) -> (r: String)
        ensures
            r@ == format_line(self, key@, value@),
    {
        let mut out = chars_of(key);
        match self {
            KvSyntax::Equals => {
                out.push(' ');
                out.push('=');
                out.push(' ');
            },
            KvSyntax::Space => {
                out.push(' ');
            },
        }
        let v = chars_of(value);
        let ghost before = out@;
        crate::text::extend(&mut out, &v);
        assert(out@ =~= format_line(self, key@, value@));
        string_of(&out)
    }
}

/// Does `line` set `key`?
fn line_sets(syntax: KvSyntax, line: &String, key: &[char]) -> (r: bool)
    ensures
        r == line_has_key(syntax, line@, key@),
{
    let cs = chars_of(line.as_str());
    match syntax.parse_chars(&cs) {
        Some(kv) => same_chars(&kv.0, key),
        None => false,
    }
}

/// Copies of `lines` without those that set `key`.
fn lines_without(syntax: KvSyntax, lines: &Vec<String>, key: &[char]) -> (r: Vec<String>)
    ensures
        sviews(r@) == without_key(syntax, sviews(lines@), key@),
{
    let mut r: Vec<String> = Vec::new();
    let mut i: usize = 0;
    while i < lines.len()
        invariant
            i <= lines.len(),
            sviews(r@) == without_key(syntax, sviews(lines@).take(i as int), key@),
        decreases lines.len() - i,
    {
        let ghost t = sviews(lines@).take(i + 1);
        assert(t.drop_last() =~= sviews(lines@).take(i as int));
        assert(t.last() == lines@[i as int]@);
        if !line_sets(syntax, &lines[i], key) {
            let ghost before = sviews(r@);
            r.push(lines[i].clone());
            assert(sviews(r@) =~= before.push(lines@[i as int]@));
        }
        i = i + 1;
    }
    assert(sviews(lines@).take(lines.len() as int) =~= sviews(lines@));
    r
}

/// The value of the last line of `lines` that sets `key`.
fn last_value_in(syntax: KvSyntax, lines: &Vec<String>, key: &[char]) -> (r: Option<String>)
    ensures
        match r {
            Some(v) => last_value(syntax, sviews(lines@), key@) == Some(v@),
            None => last_value(syntax, sviews(lines@), key@) is None,
        },
{
    let mut i: usize = lines.len();
    assert(sviews(lines@).take(lines.len() as int) =~= sviews(lines@));
    while i > 0
        invariant
            i <= lines.len(),
            last_value(syntax, sviews(lines@), key@) == last_value(syntax, sviews(lines@).take(i as int), key@),
        decreases i,
    {
        let ghost t = sviews(lines@).take(i as int);
        assert(t.drop_last() =~= sviews(lines@).take(i - 1));
        assert(t.last() == lines@[i - 1]@);
        let cs = chars_of(lines[i - 1].as_str());
        match syntax.parse_chars(&cs) {
            Some(kv) => {
                if same_chars(&kv.0, key) {
                    return Some(string_of(&kv.1));
                }
            },
            None => {},
        }
        i = i - 1;
    }
    None
}

/// The values of every line of `lines` that sets `key`, in order.
fn all_values_in(syntax: KvSyntax, lines: &Vec<String>, key: &[char]) -> (r: Vec<String>)
    ensures
        sviews(r@) == all_values(syntax, sviews(lines@), key@),
{
    let mut r: Vec<String> = Vec::new();
    let mut i: usize = 0;
    while i < lines.len()
        invariant
            i <= lines.len(),
            sviews(r@) == all_values(syntax, sviews(lines@).take(i as int), key@),
        decreases lines.len() - i,
    {
        let ghost t = sviews(lines@).take(i + 1);
        assert(t.drop_last() =~= sviews(lines@).take(i as int));
        assert(t.last() == lines@[i as int]@);
        let cs = chars_of(lines[i].as_str());
        match syntax.parse_chars(&cs) {
            Some(kv) => {
                if same_chars(&kv.0, key) {
                    let ghost before = sviews(r@);
                    let v = string_of(&kv.1);
                    r.push(v);
                    assert(sviews(r@) =~= before.push(kv.1@));
                }
            },
            None => {},
        }
        i = i + 1;
    }
    assert(sviews(lines@).take(lines.len() as int) =~= sviews(lines@));
    r
}

/// Edits a flat `key = value` / `key value` config file (Ghostty, Kitty)
/// without disturbing anything the user wrote by hand: everything Sheets
/// sets lives in one "managed" block appended at the end of the file, which
/// is fully regenerated on every apply. The user's own lines above that
/// block, including any pre-existing settings Sheets doesn't manage, are
/// left untouched.
pub struct KvConfig {
    pub prefix_lines: Vec<String>,
    pub managed_lines: Vec<String>,
    pub syntax: KvSyntax,
}

impl KvConfig {
    /// Removes every managed line for `key` (there may be more than one,
    /// e.g. Ghostty's repeated `palette` key).
    pub fn unset(&mut self, key: &str)
        ensures
            final(self).syntax == old(self).syntax,
            final(self).prefix() == old(self).prefix(),
            final(self).managed() == without_key(old(self).syntax, old(self).managed(), key@),
    {
        let k = chars_of(key);
        let kept = lines_without(self.syntax, &self.managed_lines, &k);
        self.managed_lines = kept;
    }

    /// Replaces every managed occurrence of `key` with a single new value.
    pub fn set(&mut self, key: &str, value: &str)
        ensures
            final(self).syntax == old(self).syntax,
            final(self).prefix() == old(self).prefix(),
            final(self).managed() == without_key(old(self).syntax, old(self).managed(), key@).push(
                format_line(old(self).syntax, key@, value@),
            ),
    {
        self.unset(key);
        let line = self.syntax.format(key, value);
        let ghost before = self.managed();
        self.managed_lines.push(line);
        assert(self.managed() =~= before.push(format_line(self.syntax, key@, value@)));
    }

    /// Appends another managed line for `key` without removing prior ones.
    /// Use with `unset` for keys that repeat, like Ghostty's `palette`.
    pub fn push(&mut self, key: &str, value: &str)
        ensures
            final(self).syntax == old(self).syntax,
            final(self).prefix() == old(self).prefix(),
            final(self).managed() == old(self).managed().push(format_line(old(self).syntax, key@, value@)),
    {
        let line = self.syntax.format(key, value);
        let ghost before = self.managed();
        self.managed_lines.push(line);
        assert(self.managed() =~= before.push(format_line(self.syntax, key@, value@)));
    }

    /// Removes every line for `key`, the user's own as well as managed ones,
    /// for settings that would otherwise override what Sheets applies.
    pub fn clear_key(&mut self, key: &str)
        ensures
            final(self).syntax == old(self).syntax,
            final(self).prefix() == without_key(old(self).syntax, old(self).prefix(), key@),
            final(self).managed() == without_key(old(self).syntax, old(self).managed(), key@),
    {
        let k = chars_of(key);
        let kept = lines_without(self.syntax, &self.prefix_lines, &k);
        self.prefix_lines = kept;
        let kept_managed = lines_without(self.syntax, &self.managed_lines, &k);
        self.managed_lines = kept_managed;
    }

    /// Looks up `key`, preferring the value Sheets last applied and falling
    /// back to whatever the user had configured before that.
    pub fn get(&self, key: &str) -> (r: Option<String>)
        ensures
            match r {
                Some(v) => lookup(self.syntax, self.prefix(), self.managed(), key@) == Some(v@),
                None => lookup(self.syntax, self.prefix(), self.managed(), key@) is None,
            },
    {
        let k = chars_of(key);
        match last_value_in(self.syntax, &self.managed_lines, &k) {
            Some(v) => Some(v),
            None => last_value_in(self.syntax, &self.prefix_lines, &k),
        }
    }

    /// Every value of `key`, for keys that repeat (like Ghostty's
    /// `palette`): the managed ones if Sheets set any, else the user's own.
    pub fn get_all(&self, key: &str) -> (r: Vec<String>)
        ensures
            sviews(r@) == lookup_all(self.syntax, self.prefix(), self.managed(), key@),
    {
        let k = chars_of(key);
        let managed = all_values_in(self.syntax, &self.managed_lines, &k);
        if managed.len() > 0 {
            managed
        } else {
            all_values_in(self.syntax, &self.prefix_lines, &k)
        }
    }
}

/// Strings holding the pieces `ls[from..to]`.
fn strings_of(ls: &Vec<Vec<char>>, from: usize, to: usize) -> (r: Vec<String>)
    requires
        from <= to <= ls.len(),
    ensures
        sviews(r@) == vviews(ls@).subrange(from as int, to as int),
{
    let mut r: Vec<String> = Vec::new();
    let mut i = from;
    while i < to
        invariant
            from <= i <= to <= ls.len(),
            sviews(r@) == vviews(ls@).subrange(from as int, i as int),
        decreases to - i,
    {
        let ghost before = sviews(r@);
        let s = string_of(&ls[i]);
        r.push(s);
        assert(sviews(r@) =~= before.push(ls@[i as int]@));
        assert(vviews(ls@).subrange(from as int, i + 1) =~= vviews(ls@).subrange(from as int, i as int).push(ls@[i as int]@));
        i = i + 1;
    }
    r
}

/// Character vectors holding the strings `ls`.
fn char_lines(ls: &Vec<String>) -> (r: Vec<Vec<char>>)
    ensures
        vviews(r@) == sviews(ls@),
{
    let mut r: Vec<Vec<char>> = Vec::new();
    let mut i: usize = 0;
    while i < ls.len()
        invariant
            i <= ls.len(),
            vviews(r@) == sviews(ls@).take(i as int),
        decreases ls.len() - i,
    {
        let ghost before = vviews(r@);
        let c = chars_of(ls[i].as_str());
        r.push(c);
        assert(vviews(r@) =~= before.push(ls@[i as int]@));
        assert(sviews(ls@).take(i + 1) =~= sviews(ls@).take(i as int).push(ls@[i as int]@));
        i = i + 1;
    }
    assert(sviews(ls@).take(ls.len() as int) =~= sviews(ls@));
    r
}

impl KvConfig {
    /// Reads a config from the text of its file: the user's lines are
    /// those before the marker (without the blank lines right above it),
    /// the managed lines those after it; with no marker, every line is the
    /// user's.
    pub fn load(contents: &str, syntax: KvSyntax) -> (r: KvConfig)
        ensures
            r.syntax == syntax,
            r.prefix() == loaded_prefix(lines(contents@)),
            r.managed() == loaded_managed(lines(contents@)),
    {
        let cs = chars_of(contents);
        let ls = split_lines(&cs);
        let m = chars_of(MANAGED_MARKER);
        let ghost lv = vviews(ls@);
        let mut pos: usize = 0;
        let mut found = false;
        while pos < ls.len()
            invariant
                pos <= ls.len(),
                lv == vviews(ls@),
                m@ == marker(),
                found ==> pos < ls.len() && lv[pos as int] == marker(),
                forall|j: int| 0 <= j < pos ==> #[trigger] lv[j] != marker(),
            ensures
                found ==> pos < ls.len() && lv[pos as int] == marker(),
                forall|j: int| 0 <= j < pos ==> #[trigger] lv[j] != marker(),
                !found ==> pos == ls.len(),
            decreases ls.len() - pos,
        {
            if same_chars(&ls[pos], &m) {
                found = true;
                break;
            }
            pos = pos + 1;
        }
        if !found {
            proof {
                lemma_line_index_none(lv, marker());
            }
            let prefix_lines = strings_of(&ls, 0, ls.len());
            assert(lv.subrange(0, ls.len() as int) =~= lv);
            return KvConfig { prefix_lines, managed_lines: Vec::new(), syntax };
        }
        proof {
            lemma_line_index_at(lv, marker(), pos as int);
        }
        let mut end = pos;
        assert(lv.take(pos as int).take(pos as int) =~= lv.take(pos as int));
        while end > 0 && crate::text::trimmed(&ls[end - 1]).len() == 0
            invariant
                end <= pos < ls.len(),
                lv == vviews(ls@),
                drop_blank_tail(lv.take(pos as int)) == drop_blank_tail(lv.take(end as int)),
            decreases end,
        {
            assert(lv.take(end as int).drop_last() =~= lv.take(end - 1));
            assert(lv.take(end as int).last() == ls@[end - 1]@);
            end = end - 1;
        }
        assert(lv.take(end as int).len() == 0 || !is_blank(lv.take(end as int).last()));
        let prefix_lines = strings_of(&ls, 0, end);
        let managed_lines = strings_of(&ls, pos + 1, ls.len());
        assert(lv.subrange(0, end as int) =~= lv.take(end as int));
        assert(lv.subrange(pos + 1, ls.len() as int) =~= lv.skip(pos + 1));
        KvConfig { prefix_lines, managed_lines, syntax }
    }

    /// The text of the file for this config: the user's lines, then (if
    /// anything is managed) a blank line, the marker, and the managed
    /// lines, each line ended by a newline.
    pub fn save(&self) -> (r: String)
        ensures
            r@ == rendered(self.prefix(), self.managed()),
    {
        let mut out = char_lines(&self.prefix_lines);
        if self.managed_lines.len() > 0 {
            let ghost before = vviews(out@);
            out.push(Vec::new());
            out.push(chars_of(MANAGED_MARKER));
            let managed = char_lines(&self.managed_lines);
            let mut i: usize = 0;
            assert(vviews(out@) =~= before + seq![Seq::<char>::empty(), marker()]);
            while i < managed.len()
                invariant
                    i <= managed.len(),
                    vviews(out@) == before + seq![Seq::<char>::empty(), marker()] + vviews(managed@).take(i as int),
                decreases managed.len() - i,
            {
                let ghost b2 = vviews(out@);
                let l = crate::text::slice_of(&managed[i], 0, managed[i].len());
                assert(l@ =~= managed@[i as int]@);
                out.push(l);
                assert(vviews(out@) =~= b2.push(managed@[i as int]@));
                assert(vviews(managed@).take(i + 1) =~= vviews(managed@).take(i as int).push(managed@[i as int]@));
                i = i + 1;
            }
            assert(vviews(managed@).take(managed.len() as int) =~= vviews(managed@));
        }
        let nl: [char; 1] = ['\n'];
        let mut text = join_chars(&out, &nl);
        assert(nl@ =~= seq!['\n']);
        text.push('\n');
        string_of(&text)
    }
}

} // verus!
