//! Alacritty's config: a TOML document, edited in place with `toml_edit` so
//! that the user's formatting and comments survive. Colors live under
//! `[colors.primary]`, `[colors.cursor]`, `[colors.selection]`,
//! `[colors.normal]` and `[colors.bright]`, written as `"#RRGGBB"`.
use vstd::prelude::*;

use toml_edit::{DocumentMut, Item, Table};

use crate::text::{chars_of, slice_of, string_of, strip_leading};
use crate::theme::{empty_ansi, Palette, PaletteView, Theme};
use crate::theme_store::opt_view;

verus! {

// ---------------------------------------------------------------------------
// The TOML document (`toml_edit`)
// ---------------------------------------------------------------------------

/// A parsed TOML document that keeps its formatting.
#[verifier::external_type_specification]
#[verifier::external_body]
pub struct ExDocumentMut(DocumentMut);

/// A TOML table.
#[verifier::external_type_specification]
#[verifier::external_body]
pub struct ExTable(Table);

/// A TOML item: a value, a table, or an array of tables.
#[verifier::external_type_specification]
#[verifier::external_body]
pub struct ExItem(Item);

/// The root table of a document.
pub uninterp spec fn root_of(doc: DocumentMut) -> Table;

/// What `Table::get` gives for `key`: the item there, if there is one.
pub uninterp spec fn entry_of(t: Table, key: Seq<char>) -> Option<Item>;

/// What `Item::as_table` gives: the item's table, if it is a table.
pub uninterp spec fn table_of(i: Item) -> Option<Table>;

/// What `Item::get` gives for `key` on an item that is not a table (an
/// inline table's entry, or nothing).
pub uninterp spec fn item_entry(i: Item, key: Seq<char>) -> Option<Item>;

/// What `Item::as_str` gives: the item's text, if it is a string.
pub uninterp spec fn str_of(i: Item) -> Option<Seq<char>>;

/// What parsing `text` as TOML gives, seen through `[a.b] c`: whether
/// `[a]` and `[a.b]` can hold keys (`toml_table_open`) and the string at
/// `[a.b] c` (`toml_string_at`) in the parsed document; or, for a text that
/// isn't valid TOML, the error's message.
pub uninterp spec fn parsed_toml(text: Seq<char>, a: Seq<char>, b: Seq<char>, c: Seq<char>) -> Result<(bool, Option<Seq<char>>), Seq<char>>;

/// What `doc.as_item().is_table()` gives: whether the document's root item
/// is a table, as every parsed document's is.
pub uninterp spec fn root_is_table(doc: DocumentMut) -> bool;

/// The text `toml_edit` writes for a document.
pub uninterp spec fn toml_text(doc: DocumentMut) -> Seq<char>;

/// What `Table::is_implicit` gives: whether the table is marked implicit,
/// so that its header is not written while it holds no key of its own.
pub uninterp spec fn implicit_of(t: Table) -> bool;

/// `str::parse::<DocumentMut>`: parses TOML text, keeping its formatting.
/// Claims that the outcome is a function of the text (`parsed_toml`): a
/// parsed document's table pairs that can hold keys and strings at
/// three-key paths, or the error's message; and that a parsed document's
/// root is a table. Everything else the document holds is not stated.
#[verifier::external_body]
fn parse_document(text: &str) -> (r: Result<DocumentMut, String>)
    ensures
        match r {
            Ok(d) => root_is_table(d) && forall|a: Seq<char>, b: Seq<char>, c: Seq<char>| #[trigger] parsed_toml(text@, a, b, c)
                == Ok::<(bool, Option<Seq<char>>), Seq<char>>((toml_table_open(d, a, b), toml_string_at(d, seq![a, b, c]))),
            Err(e) => forall|a: Seq<char>, b: Seq<char>, c: Seq<char>| #[trigger] parsed_toml(text@, a, b, c)
                == Err::<(bool, Option<Seq<char>>), Seq<char>>(e@),
        },
{
    text.parse::<DocumentMut>().map_err(|e| e.to_string())
}

/// `DocumentMut`'s `Display` (`to_string`): the document's text. It goes
/// through the root table, so the root must be one.
#[verifier::external_body]
fn render_document(doc: &DocumentMut) -> (r: String)
    requires
        root_is_table(*doc),
    ensures
        r@ == toml_text(*doc),
{
    doc.to_string()
}

/// `DocumentMut::as_table`: the root table (it panics on any other root).
#[verifier::external_body]
fn root_table(doc: &DocumentMut) -> (r: &Table)
    requires
        root_is_table(*doc),
    ensures
        *r == root_of(*doc),
{
    doc.as_table()
}

/// `DocumentMut::as_table_mut`: the root table, to edit (it panics on any
/// other root); the document's root is then what the table becomes, still
/// a table.
#[verifier::external_body]
fn root_table_mut(doc: &mut DocumentMut) -> (r: &mut Table)
    requires
        root_is_table(*old(doc)),
    ensures
        *r == root_of(*old(doc)),
        root_of(*final(doc)) == *final(r),
        root_is_table(*final(doc)),
{
    doc.as_table_mut()
}

/// `Table::get`: the item at `key`, if any.
#[verifier::external_body]
fn table_get<'a>(t: &'a Table, key: &str) -> (r: Option<&'a Item>)
    ensures
        r is Some <==> entry_of(*t, key@) is Some,
        r is Some ==> *r->Some_0 == entry_of(*t, key@)->Some_0,
{
    t.get(key)
}

/// `Table::get_mut`: the item at `key`, if any, to edit. The table then
/// holds what the item becomes while it stays a table (`get` hides only
/// empty items), and nothing else of it changes.
#[verifier::external_body]
fn table_get_mut<'a>(t: &'a mut Table, key: &str) -> (r: Option<&'a mut Item>)
    ensures
        r is Some <==> entry_of(*old(t), key@) is Some,
        r is Some ==> *r->Some_0 == entry_of(*old(t), key@)->Some_0,
        r is Some && table_of(*final(r->Some_0)) is Some ==> entry_of(*final(t), key@) == Some(*final(r->Some_0)),
        r is Some && *final(r->Some_0) == *r->Some_0 ==> *final(t) == *old(t),
        r is Some ==> forall|k: Seq<char>| k != key@ ==> entry_of(*final(t), k) == entry_of(*old(t), k),
        r is None ==> *final(t) == *old(t),
        implicit_of(*final(t)) == implicit_of(*old(t)),
{
    t.get_mut(key)
}

/// `Table::insert`: puts `item` at `key`; a table item is then what `get`
/// gives there, no other key changes, and the table stays as implicit as
/// it was.
#[verifier::external_body]
fn table_insert(t: &mut Table, key: &str, item: Item)
    ensures
        table_of(item) is Some ==> entry_of(*final(t), key@) == Some(item),
        forall|k: Seq<char>| k != key@ ==> entry_of(*final(t), k) == entry_of(*old(t), k),
        implicit_of(*final(t)) == implicit_of(*old(t)),
{
    t.insert(key, item);
}

/// `IndexMut` on a table, assigned: `t[key] = item`. A string item is then
/// what `get` gives there, no other key changes, and the table stays as
/// implicit as it was.
#[verifier::external_body]
fn table_set(t: &mut Table, key: &str, item: Item)
    ensures
        str_of(item) is Some ==> entry_of(*final(t), key@) == Some(item),
        forall|k: Seq<char>| k != key@ ==> entry_of(*final(t), k) == entry_of(*old(t), k),
        implicit_of(*final(t)) == implicit_of(*old(t)),
{
    t[key] = item;
}

/// `Table::set_implicit`: marks the table implicit or not; no entry
/// changes.
#[verifier::external_body]
fn table_set_implicit(t: &mut Table, implicit: bool)
    ensures
        forall|k: Seq<char>| entry_of(*final(t), k) == entry_of(*old(t), k),
        implicit_of(*final(t)) == implicit,
{
    t.set_implicit(implicit);
}

/// `toml_edit::table`: an item holding a new, empty table, not marked
/// implicit.
#[verifier::external_body]
fn empty_table_item() -> (r: Item)
    ensures
        table_of(r) is Some,
        forall|k: Seq<char>| entry_of(table_of(r)->Some_0, k) is None,
        !implicit_of(table_of(r)->Some_0),
{
    toml_edit::table()
}

/// `toml_edit::value` of a text: an item holding that string.
#[verifier::external_body]
fn string_item(v: &str) -> (r: Item)
    ensures
        str_of(r) == Some(v@),
        table_of(r) is None,
{
    toml_edit::value(v)
}

/// `Item::as_table_mut`: the item's table, if it is one, to edit; the item
/// then holds what the table becomes, and is unchanged if it isn't one.
#[verifier::external_body]
fn item_as_table_mut(i: &mut Item) -> (r: Option<&mut Table>)
    ensures
        r is Some <==> table_of(*old(i)) is Some,
        r is Some ==> *r->Some_0 == table_of(*old(i))->Some_0,
        r is Some ==> table_of(*final(i)) == Some(*final(r->Some_0)),
        r is Some && *final(r->Some_0) == *r->Some_0 ==> *final(i) == *old(i),
        r is None ==> *final(i) == *old(i),
{
    i.as_table_mut()
}

/// `Item::get` with a key: for a table item, what its table's `get`
/// gives; otherwise what `item_entry` names.
#[verifier::external_body]
fn item_get<'a>(i: &'a Item, key: &str) -> (r: Option<&'a Item>)
    ensures
        table_of(*i) is Some ==> (r is Some <==> entry_of(table_of(*i)->Some_0, key@) is Some),
        table_of(*i) is Some && r is Some ==> *r->Some_0 == entry_of(table_of(*i)->Some_0, key@)->Some_0,
        table_of(*i) is None ==> (r is Some <==> item_entry(*i, key@) is Some),
        table_of(*i) is None && r is Some ==> *r->Some_0 == item_entry(*i, key@)->Some_0,
{
    i.get(key)
}

/// `Item::as_str`: the item's text, if it is a string.
#[verifier::external_body]
fn item_as_str(i: &Item) -> (r: Option<&str>)
    ensures
        r is Some <==> str_of(*i) is Some,
        r is Some ==> r->Some_0@ == str_of(*i)->Some_0,
{
    i.as_str()
}

/// `Item::is_table`: whether the item is a table.
#[verifier::external_body]
fn item_is_table(i: &Item) -> (r: bool)
    ensures
        r == table_of(*i) is Some,
{
    i.is_table()
}

/// The item under `key` of an item, as `Item::get` finds it.
pub open spec fn child(i: Item, key: Seq<char>) -> Option<Item> {
    if table_of(i) is Some {
        entry_of(table_of(i)->Some_0, key)
    } else {
        item_entry(i, key)
    }
}

/// The string a document holds at a three-key path, if the item there is
/// a string.
pub open spec fn toml_string_at(doc: DocumentMut, path: Seq<Seq<char>>) -> Option<Seq<char>> {
    match entry_of(root_of(doc), path[0]) {
        None => None,
        Some(x) => match child(x, path[1]) {
            None => None,
            Some(y) => match child(y, path[2]) {
                None => None,
                Some(z) => str_of(z),
            },
        },
    }
}

/// Whether the items at `[table]` and `[table.sub]` are each absent or a
/// (non-inline) table, so that a key can be set inside `[table.sub]`.
pub open spec fn toml_table_open(doc: DocumentMut, table: Seq<char>, sub: Seq<char>) -> bool {
    match entry_of(root_of(doc), table) {
        None => true,
        Some(x) => match table_of(x) {
            None => false,
            Some(t) => match entry_of(t, sub) {
                None => true,
                Some(y) => table_of(y) is Some,
            },
        },
    }
}

/// The table at `[a]`, if the item there is a (non-inline) table.
pub open spec fn table1(doc: DocumentMut, a: Seq<char>) -> Option<Table> {
    match entry_of(root_of(doc), a) {
        None => None,
        Some(x) => table_of(x),
    }
}

/// The item at `y` in the table `[a]`, if there is one.
pub open spec fn entry2(doc: DocumentMut, a: Seq<char>, y: Seq<char>) -> Option<Item> {
    match table1(doc, a) {
        None => None,
        Some(t) => entry_of(t, y),
    }
}

/// The table at `[a.b]`, if the item there is a (non-inline) table.
pub open spec fn table2(doc: DocumentMut, a: Seq<char>, b: Seq<char>) -> Option<Table> {
    match entry2(doc, a, b) {
        None => None,
        Some(x) => table_of(x),
    }
}

/// The item at `z` in the table `[a.b]`, if there is one.
pub open spec fn entry3(doc: DocumentMut, a: Seq<char>, b: Seq<char>, z: Seq<char>) -> Option<Item> {
    match table2(doc, a, b) {
        None => None,
        Some(t) => entry_of(t, z),
    }
}

/// A table that an edit needed is there afterwards; one that was already
/// there is as implicit as it was, and one that was made is implicit
/// exactly when `implicit`.
pub open spec fn kept_or_made(before: Option<Table>, after: Option<Table>, implicit: bool) -> bool {
    &&& after is Some
    &&& match before {
        None => implicit_of(after->Some_0) == implicit,
        Some(t) => implicit_of(after->Some_0) == implicit_of(t),
    }
}

/// Makes sure `t` holds a table at `key`: an existing table is left as it
/// is; when nothing is there a new, empty table is put there (marked
/// implicit if `implicit`); anything else there is refused, and nothing
/// changes.
fn ensure_table(t: &mut Table, key: &str, implicit: bool) -> (ok: bool)
    ensures
        ok == (entry_of(*old(t), key@) is None || table_of(entry_of(*old(t), key@)->Some_0) is Some),
        ok ==> entry_of(*final(t), key@) is Some && table_of(entry_of(*final(t), key@)->Some_0) is Some,
        ok && entry_of(*old(t), key@) is None ==> forall|k: Seq<char>|
            entry_of(table_of(entry_of(*final(t), key@)->Some_0)->Some_0, k) is None,
        ok && entry_of(*old(t), key@) is None ==> implicit_of(table_of(entry_of(*final(t), key@)->Some_0)->Some_0) == implicit,
        entry_of(*old(t), key@) is Some ==> *final(t) == *old(t),
        forall|k: Seq<char>| k != key@ ==> entry_of(*final(t), k) == entry_of(*old(t), k),
        implicit_of(*final(t)) == implicit_of(*old(t)),
{
    match table_get(t, key) {
        Some(item) => {
            return item_is_table(item);
        },
        None => {},
    }
    table_insert(t, key, empty_table_item());
    if implicit {
        match table_get_mut(t, key) {
            Some(item) => match item_as_table_mut(item) {
                Some(inner) => table_set_implicit(inner, true),
                None => {},
            },
            None => {},
        }
    }
    true
}

/// The table at `key` of `t`, to edit; `t` then holds what it becomes.
fn table_in<'a>(t: &'a mut Table, key: &str) -> (r: &'a mut Table)
    requires
        entry_of(*old(t), key@) is Some,
        table_of(entry_of(*old(t), key@)->Some_0) is Some,
    ensures
        *r == table_of(entry_of(*old(t), key@)->Some_0)->Some_0,
        entry_of(*final(t), key@) is Some,
        table_of(entry_of(*final(t), key@)->Some_0) == Some(*final(r)),
        forall|k: Seq<char>| k != key@ ==> entry_of(*final(t), k) == entry_of(*old(t), k),
        *final(r) == *r ==> *final(t) == *old(t),
        implicit_of(*final(t)) == implicit_of(*old(t)),
{
    let item = table_get_mut(t, key).unwrap();
    item_as_table_mut(item).unwrap()
}

/// Sets `[a.b] key = "value"`, creating the tables when absent (a new `[a]`
/// marked implicit, so no empty header is written for it; a new `[a.b]`
/// not). Returns whether `[a]` and `[a.b]` could hold it; then the string
/// at `[a.b] key` is `value`, every other entry of the root, of `[a]` and
/// of `[a.b]` is what it was, every other three-key path holds what it
/// did, and every table pair that could hold keys still can; otherwise
/// nothing changes.
fn document_set_string(doc: &mut DocumentMut, a: &str, b: &str, key: &str, value: &str) -> (r: bool)
    requires
        root_is_table(*old(doc)),
    ensures
        root_is_table(*final(doc)),
        r == toml_table_open(*old(doc), a@, b@),
        !r ==> root_of(*final(doc)) == root_of(*old(doc)),
        r ==> toml_string_at(*final(doc), seq![a@, b@, key@]) == Some(value@),
        r ==> forall|k: Seq<char>| k != a@ ==> #[trigger] entry_of(root_of(*final(doc)), k) == entry_of(root_of(*old(doc)), k),
        r ==> forall|y: Seq<char>| y != b@ ==> #[trigger] entry2(*final(doc), a@, y) == entry2(*old(doc), a@, y),
        r ==> forall|z: Seq<char>| z != key@ ==> #[trigger] entry3(*final(doc), a@, b@, z) == entry3(*old(doc), a@, b@, z),
        r ==> kept_or_made(table1(*old(doc), a@), table1(*final(doc), a@), true),
        r ==> kept_or_made(table2(*old(doc), a@, b@), table2(*final(doc), a@, b@), false),
        r ==> forall|p: Seq<Seq<char>>| p.len() == 3 && p != seq![a@, b@, key@] ==> #[trigger] toml_string_at(*final(doc), p) == toml_string_at(*old(doc), p),
        r ==> forall|x: Seq<char>, y: Seq<char>| #[trigger] toml_table_open(*old(doc), x, y) <==> toml_table_open(*final(doc), x, y),
{
    let ghost d0 = *doc;
    let root = root_table_mut(doc);
    let ghost rt0 = *root;
    if !ensure_table(root, a, true) {
        return false;
    }
    let ghost rt1 = *root;
    let outer = table_in(root, a);
    let ghost ot0 = *outer;
    if !ensure_table(outer, b, false) {
        return false;
    }
    let ghost ot1 = *outer;
    let inner = table_in(outer, b);
    let ghost it0 = *inner;
    table_set(inner, key, string_item(value));
    proof {
        let rt2 = *final(root);
        let ot2 = *final(outer);
        let it1 = *final(inner);
        assert(root_of(*final(doc)) == rt2);
        assert(table1(*final(doc), a@) == Some(ot2));
        assert(table2(*final(doc), a@, b@) == Some(it1));
        assert forall|y: Seq<char>| #[trigger] entry2(d0, a@, y) == entry_of(ot0, y) by {
            if entry_of(rt0, a@) is Some {
                assert(rt1 == rt0);
            }
        }
        assert(table2(d0, a@, b@) == if entry_of(ot0, b@) is Some { Some(it0) } else { None });
        assert forall|y: Seq<char>| y != b@ implies #[trigger] entry2(*final(doc), a@, y) == entry2(d0, a@, y) by {
            assert(entry_of(ot2, y) == entry_of(ot1, y));
            assert(entry_of(ot1, y) == entry_of(ot0, y));
        }
        assert forall|z: Seq<char>| z != key@ implies #[trigger] entry3(*final(doc), a@, b@, z) == entry3(d0, a@, b@, z) by {
            assert(entry_of(it1, z) == entry_of(it0, z));
        }
        assert(kept_or_made(table1(d0, a@), table1(*final(doc), a@), true));
        assert(kept_or_made(table2(d0, a@, b@), table2(*final(doc), a@, b@), false));
        assert forall|p: Seq<Seq<char>>| p.len() == 3 && p != seq![a@, b@, key@] implies #[trigger] toml_string_at(*final(doc), p) == toml_string_at(d0, p) by {
            if p[0] != a@ {
                assert(entry_of(rt2, p[0]) == entry_of(rt0, p[0]));
            } else if entry_of(rt0, a@) is None {
                assert(entry_of(ot0, p[1]) is None);
                if p[1] != b@ {
                    assert(entry_of(ot2, p[1]) == entry_of(ot1, p[1]));
                } else {
                    assert(p[2] != key@) by {
                        if p[2] == key@ {
                            assert(p =~= seq![a@, b@, key@]);
                        }
                    }
                    assert(entry_of(it1, p[2]) == entry_of(it0, p[2]));
                }
            } else {
                assert(rt1 == rt0);
                if p[1] != b@ {
                    assert(entry_of(ot2, p[1]) == entry_of(ot0, p[1]));
                } else if entry_of(ot0, b@) is None {
                    assert(p[2] != key@) by {
                        if p[2] == key@ {
                            assert(p =~= seq![a@, b@, key@]);
                        }
                    }
                    assert(entry_of(it1, p[2]) == entry_of(it0, p[2]));
                } else {
                    assert(ot1 == ot0);
                    assert(p[2] != key@) by {
                        if p[2] == key@ {
                            assert(p =~= seq![a@, b@, key@]);
                        }
                    }
                    assert(entry_of(it1, p[2]) == entry_of(it0, p[2]));
                }
            }
        }
    }
    true
}

/// The string at `[a.b] c`, if there is one.
fn document_string(doc: &DocumentMut, a: &str, b: &str, c: &str) -> (r: Option<String>)
    requires
        root_is_table(*doc),
    ensures
        opt_view(r) == toml_string_at(*doc, seq![a@, b@, c@]),
{
    let root = root_table(doc);
    let x = match table_get(root, a) {
        Some(x) => x,
        None => return None,
    };
    let y = match item_get(x, b) {
        Some(y) => y,
        None => return None,
    };
    let z = match item_get(y, c) {
        Some(z) => z,
        None => return None,
    };
    match item_as_str(z) {
        Some(s) => Some(String::from_str(s)),
        None => None,
    }
}

// ---------------------------------------------------------------------------
// Specifications
// ---------------------------------------------------------------------------

/// Alacritty's name for ANSI color `i` (and `i + 8` in `[colors.bright]`).
pub open spec fn ansi_name(i: nat) -> Seq<char> {
    if i == 0 {
        "black"@
    } else if i == 1 {
        "red"@
    } else if i == 2 {
        "green"@
    } else if i == 3 {
        "yellow"@
    } else if i == 4 {
        "blue"@
    } else if i == 5 {
        "magenta"@
    } else if i == 6 {
        "cyan"@
    } else {
        "white"@
    }
}

/// The string at `[colors.table] key`, as written.
pub open spec fn colors_entry(doc: DocumentMut, table: Seq<char>, key: Seq<char>) -> Option<Seq<char>> {
    toml_string_at(doc, seq!["colors"@, table, key])
}

/// The color at `[colors.table] key`, without leading `#`.
pub open spec fn color_at(doc: DocumentMut, table: Seq<char>, key: Seq<char>) -> Option<Seq<char>> {
    match colors_entry(doc, table, key) {
        Some(v) => Some(strip_leading(v, '#')),
        None => None,
    }
}

/// Are the 16 ANSI colors all set?
pub open spec fn all_ansi_set(doc: DocumentMut) -> bool {
    &&& forall|i: nat| i < 8 ==> (#[trigger] color_at(doc, "normal"@, ansi_name(i))) is Some
    &&& forall|i: nat| i < 8 ==> (#[trigger] color_at(doc, "bright"@, ansi_name(i))) is Some
}

/// The ANSI color in slot `i` (0-7 normal, 8-15 bright).
pub open spec fn ansi_at(doc: DocumentMut, i: nat) -> Seq<char> {
    if i < 8 {
        color_at(doc, "normal"@, ansi_name(i)).unwrap()
    } else {
        color_at(doc, "bright"@, ansi_name((i - 8) as nat)).unwrap()
    }
}

/// What reading the palette of a document gives: the colors if the
/// background, foreground and all 16 ANSI colors are set, else nothing.
pub open spec fn read_palette(doc: DocumentMut) -> Option<PaletteView> {
    let bg = color_at(doc, "primary"@, "background"@);
    let fg = color_at(doc, "primary"@, "foreground"@);
    if bg is None || fg is None || !all_ansi_set(doc) {
        None
    } else {
        Some(PaletteView {
            background: bg.unwrap(),
            foreground: fg.unwrap(),
            cursor: color_at(doc, "cursor"@, "cursor"@),
            selection_background: color_at(doc, "selection"@, "background"@),
            selection_foreground: color_at(doc, "selection"@, "text"@),
            ansi: Seq::new(16, |i: int| ansi_at(doc, i as nat)),
        })
    }
}

/// A color as written to the document: with a leading `#`.
pub open spec fn hash_color(c: Seq<char>) -> Seq<char> {
    seq!['#'] + c
}

/// One edit of the `[colors]` tables: table, key, value.
pub type Edit = (Seq<char>, Seq<char>, Seq<char>);

/// An optional edit.
pub open spec fn opt_edit(table: Seq<char>, key: Seq<char>, c: Option<String>) -> Seq<Edit> {
    match c {
        Some(v) => seq![(table, key, hash_color(v@))],
        None => Seq::empty(),
    }
}

/// The edits applying a theme makes, in order.
pub open spec fn theme_edits(t: Theme) -> Seq<Edit> {
    let p = t.palette;
    seq![("primary"@, "background"@, hash_color(p.background@)), ("primary"@, "foreground"@, hash_color(p.foreground@))]
        + opt_edit("cursor"@, "cursor"@, p.cursor)
        + opt_edit("selection"@, "background"@, p.selection_background)
        + opt_edit("selection"@, "text"@, p.selection_foreground)
        + Seq::new(8, |i: int| ("normal"@, ansi_name(i as nat), hash_color(p.ansi@[i]@)))
        + Seq::new(8, |i: int| ("bright"@, ansi_name(i as nat), hash_color(p.ansi@[i as int + 8]@)))
}

/// The value of the last edit of `[colors.table] key`, if any.
pub open spec fn last_edit(es: Seq<Edit>, table: Seq<char>, key: Seq<char>) -> Option<Seq<char>>
    decreases es.len(),
{
    if es.len() == 0 {
        None
    } else if es.last().0 == table && es.last().1 == key {
        Some(es.last().2)
    } else {
        last_edit(es.drop_last(), table, key)
    }
}

/// `after` is `before` with a theme applied: each color the theme sets
/// holds the value written last for it, and every other string at a
/// three-key path holds what it did.
pub open spec fn theme_applied(before: DocumentMut, after: DocumentMut, t: Theme) -> bool {
    &&& forall|table: Seq<char>, key: Seq<char>| #[trigger] colors_entry(after, table, key)
        == match last_edit(theme_edits(t), table, key) {
            Some(v) => Some(v),
            None => colors_entry(before, table, key),
        }
    &&& forall|p: Seq<Seq<char>>| p.len() == 3 && p[0] != "colors"@ ==> #[trigger] toml_string_at(after, p) == toml_string_at(before, p)
}

/// Does any of the edits go into `[colors.table]`?
pub open spec fn edits_table(es: Seq<Edit>, table: Seq<char>) -> bool
    decreases es.len(),
{
    if es.len() == 0 {
        false
    } else {
        es.last().0 == table || edits_table(es.drop_last(), table)
    }
}

/// The `[colors.*]` tables that applying a theme writes into.
pub open spec fn theme_writes_table(t: Theme, table: Seq<char>) -> bool {
    ||| table == "primary"@
    ||| table == "normal"@
    ||| table == "bright"@
    ||| (t.palette.cursor is Some && table == "cursor"@)
    ||| ((t.palette.selection_background is Some || t.palette.selection_foreground is Some) && table == "selection"@)
}

/// Applying a theme left the rest of the document alone: every entry of
/// the root other than `colors`, every entry of `[colors]` the theme does
/// not write into, and every entry of a `[colors.*]` table that the theme
/// does not set is what it was. `[colors]` is there, as implicit as it
/// was, or implicit if it was made (so no empty `[colors]` header is
/// written); each table the theme writes into is there, as implicit as it
/// was, or not implicit if it was made.
pub open spec fn theme_kept_rest(before: DocumentMut, after: DocumentMut, t: Theme) -> bool {
    &&& forall|k: Seq<char>| k != "colors"@ ==> #[trigger] entry_of(root_of(after), k) == entry_of(root_of(before), k)
    &&& forall|y: Seq<char>| !theme_writes_table(t, y) ==> #[trigger] entry2(after, "colors"@, y) == entry2(before, "colors"@, y)
    &&& forall|y: Seq<char>, z: Seq<char>| last_edit(theme_edits(t), y, z) is None ==> #[trigger] entry3(after, "colors"@, y, z) == entry3(before, "colors"@, y, z)
    &&& kept_or_made(table1(before, "colors"@), table1(after, "colors"@), true)
    &&& forall|y: Seq<char>| theme_writes_table(t, y) ==> #[trigger] kept_or_made(table2(before, "colors"@, y), table2(after, "colors"@, y), false)
}

/// The error when `[colors.table]` can't hold colors.
pub open spec fn table_error(table: Seq<char>) -> Seq<char> {
    "the Alacritty config has something other than a table at [colors."@ + table + "]"@
}

/// The table pairs that applying a theme writes into.
pub open spec fn theme_tables_open(doc: DocumentMut, t: Theme) -> bool {
    &&& toml_table_open(doc, "colors"@, "primary"@)
    &&& toml_table_open(doc, "colors"@, "normal"@)
    &&& toml_table_open(doc, "colors"@, "bright"@)
    &&& (t.palette.cursor is Some ==> toml_table_open(doc, "colors"@, "cursor"@))
    &&& (t.palette.selection_background is Some || t.palette.selection_foreground is Some ==> toml_table_open(doc, "colors"@, "selection"@))
}

/// A color that reads back as written: no leading `#`.
pub open spec fn plain_color(c: Seq<char>) -> bool {
    c.len() == 0 || c[0] != '#'
}

/// Is every color of the palette plain?
pub open spec fn plain_colors(p: Palette) -> bool {
    &&& plain_color(p.background@)
    &&& plain_color(p.foreground@)
    &&& (p.cursor matches Some(c) ==> plain_color(c@))
    &&& (p.selection_background matches Some(c) ==> plain_color(c@))
    &&& (p.selection_foreground matches Some(c) ==> plain_color(c@))
    &&& forall|i: int| 0 <= i < 16 ==> plain_color((#[trigger] p.ansi@[i])@)
}

// ---------------------------------------------------------------------------
// Lemmas
// ---------------------------------------------------------------------------

/// The last edit in a concatenation is in the second part if it has one.
proof fn lemma_last_edit_append(a: Seq<Edit>, b: Seq<Edit>, table: Seq<char>, key: Seq<char>)
    ensures
        last_edit(a + b, table, key) == match last_edit(b, table, key) {
            Some(v) => Some(v),
            None => last_edit(a, table, key),
        },
    decreases b.len(),
{
    if b.len() == 0 {
        assert(a + b =~= a);
    } else {
        lemma_last_edit_append(a, b.drop_last(), table, key);
        assert((a + b).drop_last() =~= a + b.drop_last());
        assert((a + b).last() == b.last());
    }
}

/// The last edit of a key in a one-edit sequence.
proof fn lemma_single_edit(e: Edit, table: Seq<char>, key: Seq<char>)
    ensures
        last_edit(seq![e], table, key) == if e.0 == table && e.1 == key {
            Some(e.2)
        } else {
            None
        },
{
    assert(seq![e].drop_last() =~= Seq::<Edit>::empty());
    assert(seq![e].last() == e);
    assert(last_edit(Seq::<Edit>::empty(), table, key) is None);
}

/// An edit goes into a table of a concatenation when it does in a part.
proof fn lemma_edits_table_append(a: Seq<Edit>, b: Seq<Edit>, table: Seq<char>)
    ensures
        edits_table(a + b, table) == (edits_table(a, table) || edits_table(b, table)),
    decreases b.len(),
{
    if b.len() == 0 {
        assert(a + b =~= a);
    } else {
        lemma_edits_table_append(a, b.drop_last(), table);
        assert((a + b).drop_last() =~= a + b.drop_last());
        assert((a + b).last() == b.last());
    }
}

/// A block of ANSI edits goes into its own table only.
proof fn lemma_ansi_block_table(tb: Seq<char>, f: spec_fn(int) -> Seq<char>, n: int, table: Seq<char>)
    requires
        0 <= n <= 8,
    ensures
        edits_table(Seq::new(n as nat, |k: int| (tb, ansi_name(k as nat), f(k))), table) == (n > 0 && table == tb),
    decreases n,
{
    let b = Seq::new(n as nat, |k: int| (tb, ansi_name(k as nat), f(k)));
    if n > 0 {
        lemma_ansi_block_table(tb, f, n - 1, table);
        assert(b.drop_last() =~= Seq::new((n - 1) as nat, |k: int| (tb, ansi_name(k as nat), f(k))));
    }
}

/// An optional edit goes into its table when it is there.
proof fn lemma_opt_edit_table(tb: Seq<char>, key: Seq<char>, c: Option<String>, table: Seq<char>)
    ensures
        edits_table(opt_edit(tb, key, c), table) == (c is Some && table == tb),
{
    assert(!edits_table(Seq::<Edit>::empty(), table));
    if let Some(v) = c {
        let e = (tb, key, hash_color(v@));
        assert(seq![e].drop_last() =~= Seq::<Edit>::empty());
        assert(seq![e].last() == e);
        assert(edits_table(seq![e], table) == (tb == table));
    }
}

/// The tables a theme's edits go into are the ones it writes into.
proof fn lemma_theme_tables(t: Theme, table: Seq<char>)
    ensures
        edits_table(theme_edits(t), table) == theme_writes_table(t, table),
{
    let p = t.palette;
    let first = ("primary"@, "background"@, hash_color(p.background@));
    let head = seq![first, ("primary"@, "foreground"@, hash_color(p.foreground@))];
    let c = opt_edit("cursor"@, "cursor"@, p.cursor);
    let sb = opt_edit("selection"@, "background"@, p.selection_background);
    let sf = opt_edit("selection"@, "text"@, p.selection_foreground);
    let fnorm = |i: int| hash_color(p.ansi@[i]@);
    let fbright = |i: int| hash_color(p.ansi@[i as int + 8]@);
    let nb = Seq::new(8, |i: int| ("normal"@, ansi_name(i as nat), fnorm(i)));
    let bb = Seq::new(8, |i: int| ("bright"@, ansi_name(i as nat), fbright(i)));
    assert(nb =~= Seq::new(8, |i: int| ("normal"@, ansi_name(i as nat), hash_color(p.ansi@[i]@))));
    assert(bb =~= Seq::new(8, |i: int| ("bright"@, ansi_name(i as nat), hash_color(p.ansi@[i as int + 8]@))));
    assert(head + c + sb + sf + nb + bb == theme_edits(t));
    lemma_edits_table_append(head + c + sb + sf + nb, bb, table);
    lemma_edits_table_append(head + c + sb + sf, nb, table);
    lemma_edits_table_append(head + c + sb, sf, table);
    lemma_edits_table_append(head + c, sb, table);
    lemma_edits_table_append(head, c, table);
    lemma_ansi_block_table("bright"@, fbright, 8, table);
    lemma_ansi_block_table("normal"@, fnorm, 8, table);
    lemma_opt_edit_table("cursor"@, "cursor"@, p.cursor, table);
    lemma_opt_edit_table("selection"@, "background"@, p.selection_background, table);
    lemma_opt_edit_table("selection"@, "text"@, p.selection_foreground, table);
    assert(head.drop_last() =~= seq![first]);
    assert(seq![first].drop_last() =~= Seq::<Edit>::empty());
    assert(!edits_table(Seq::<Edit>::empty(), table));
    assert(edits_table(seq![first], table) == (table == "primary"@));
    assert(head.last().0 == "primary"@);
    assert(edits_table(head, table) == (table == "primary"@));
}

/// The literal names used for the tables and keys are all different.
proof fn lemma_names_distinct()
    ensures
        "primary"@ != "cursor"@,
        "primary"@ != "selection"@,
        "primary"@ != "normal"@,
        "primary"@ != "bright"@,
        "cursor"@ != "selection"@,
        "cursor"@ != "normal"@,
        "cursor"@ != "bright"@,
        "selection"@ != "normal"@,
        "selection"@ != "bright"@,
        "normal"@ != "bright"@,
        "background"@ != "foreground"@,
        "background"@ != "text"@,
        forall|i: nat, j: nat| i < 8 && j < 8 && i != j ==> #[trigger] ansi_name(i) != #[trigger] ansi_name(j),
{
    reveal_strlit("primary");
    reveal_strlit("cursor");
    reveal_strlit("selection");
    reveal_strlit("normal");
    reveal_strlit("bright");
    reveal_strlit("background");
    reveal_strlit("foreground");
    reveal_strlit("text");
    reveal_strlit("black");
    reveal_strlit("red");
    reveal_strlit("green");
    reveal_strlit("yellow");
    reveal_strlit("blue");
    reveal_strlit("magenta");
    reveal_strlit("cyan");
    reveal_strlit("white");
    assert("primary"@.len() == 7);
    assert("cursor"@.len() == 6);
    assert("selection"@.len() == 9);
    assert("normal"@.len() == 6);
    assert("bright"@.len() == 6);
    assert("cursor"@[0] != "normal"@[0]);
    assert("cursor"@[0] != "bright"@[0]);
    assert("normal"@[0] != "bright"@[0]);
    assert("background"@[0] != "foreground"@[0]);
    assert("background"@.len() == 10);
    assert("text"@.len() == 4);
    assert("black"@.len() == 5);
    assert("red"@.len() == 3);
    assert("green"@.len() == 5);
    assert("yellow"@.len() == 6);
    assert("blue"@.len() == 4);
    assert("magenta"@.len() == 7);
    assert("cyan"@.len() == 4);
    assert("white"@.len() == 5);
    assert("black"@[0] != "green"@[0]);
    assert("black"@[0] != "white"@[0]);
    assert("green"@[0] != "white"@[0]);
    assert("blue"@[0] != "cyan"@[0]);
}

/// In a block of eight ANSI edits for one table, the last edit of name `i`
/// is the `i`-th.
proof fn lemma_ansi_block(table: Seq<char>, f: spec_fn(int) -> Seq<char>, n: int, i: nat)
    requires
        0 <= n <= 8,
        i < 8,
    ensures
        last_edit(Seq::new(n as nat, |k: int| (table, ansi_name(k as nat), f(k))), table, ansi_name(i)) == if i < n {
            Some(f(i as int))
        } else {
            None
        },
    decreases n,
{
    let b = Seq::new(n as nat, |k: int| (table, ansi_name(k as nat), f(k)));
    if n > 0 {
        lemma_names_distinct();
        lemma_ansi_block(table, f, n - 1, i);
        assert(b.drop_last() =~= Seq::new((n - 1) as nat, |k: int| (table, ansi_name(k as nat), f(k))));
    }
}

/// In a block of ANSI edits for one table, no edit is for another table.
proof fn lemma_ansi_block_other(table: Seq<char>, f: spec_fn(int) -> Seq<char>, n: int, other: Seq<char>, key: Seq<char>)
    requires
        0 <= n <= 8,
        other != table,
    ensures
        last_edit(Seq::new(n as nat, |k: int| (table, ansi_name(k as nat), f(k))), other, key) is None,
    decreases n,
{
    let b = Seq::new(n as nat, |k: int| (table, ansi_name(k as nat), f(k)));
    if n > 0 {
        lemma_ansi_block_other(table, f, n - 1, other, key);
        assert(b.drop_last() =~= Seq::new((n - 1) as nat, |k: int| (table, ansi_name(k as nat), f(k))));
    }
}

/// The last edit of each color a theme sets holds that color.
proof fn lemma_theme_edits(t: Theme)
    ensures
        ({
            let es = theme_edits(t);
            let p = t.palette;
            &&& last_edit(es, "primary"@, "background"@) == Some(hash_color(p.background@))
            &&& last_edit(es, "primary"@, "foreground"@) == Some(hash_color(p.foreground@))
            &&& (p.cursor matches Some(c) ==> last_edit(es, "cursor"@, "cursor"@) == Some(hash_color(c@)))
            &&& (p.selection_background matches Some(c) ==> last_edit(es, "selection"@, "background"@) == Some(hash_color(c@)))
            &&& (p.selection_foreground matches Some(c) ==> last_edit(es, "selection"@, "text"@) == Some(hash_color(c@)))
            &&& forall|i: nat| i < 8 ==> #[trigger] last_edit(es, "normal"@, ansi_name(i)) == Some(hash_color(p.ansi@[i as int]@))
            &&& forall|i: nat| i < 8 ==> #[trigger] last_edit(es, "bright"@, ansi_name(i)) == Some(hash_color(p.ansi@[i as int + 8]@))
        }),
{
    let p = t.palette;
    lemma_names_distinct();
    let head = seq![("primary"@, "background"@, hash_color(p.background@)), ("primary"@, "foreground"@, hash_color(p.foreground@))];
    let c = opt_edit("cursor"@, "cursor"@, p.cursor);
    let sb = opt_edit("selection"@, "background"@, p.selection_background);
    let sf = opt_edit("selection"@, "text"@, p.selection_foreground);
    let fnorm = |i: int| hash_color(p.ansi@[i]@);
    let fbright = |i: int| hash_color(p.ansi@[i as int + 8]@);
    let nb = Seq::new(8, |i: int| ("normal"@, ansi_name(i as nat), fnorm(i)));
    let bb = Seq::new(8, |i: int| ("bright"@, ansi_name(i as nat), fbright(i)));
    assert(nb =~= Seq::new(8, |i: int| ("normal"@, ansi_name(i as nat), hash_color(p.ansi@[i]@))));
    assert(bb =~= Seq::new(8, |i: int| ("bright"@, ansi_name(i as nat), hash_color(p.ansi@[i as int + 8]@))));
    let es = head + c + sb + sf + nb + bb;
    assert(es == theme_edits(t));
    let a4 = head + c + sb + sf;
    // Every edit before the ANSI blocks, looked up through them.
    assert forall|table: Seq<char>, key: Seq<char>| table != "normal"@ && table != "bright"@ implies #[trigger] last_edit(es, table, key) == last_edit(a4, table, key) by {
        lemma_last_edit_append(a4 + nb, bb, table, key);
        lemma_ansi_block_other("bright"@, fbright, 8, table, key);
        lemma_last_edit_append(a4, nb, table, key);
        lemma_ansi_block_other("normal"@, fnorm, 8, table, key);
    }
    lemma_last_edit_append(head + c + sb, sf, "primary"@, "background"@);
    lemma_last_edit_append(head + c, sb, "primary"@, "background"@);
    lemma_last_edit_append(head, c, "primary"@, "background"@);
    lemma_last_edit_append(head + c + sb, sf, "primary"@, "foreground"@);
    lemma_last_edit_append(head + c, sb, "primary"@, "foreground"@);
    lemma_last_edit_append(head, c, "primary"@, "foreground"@);
    let first = seq![("primary"@, "background"@, hash_color(p.background@))];
    assert(head.drop_last() =~= first);
    assert(first.last() == ("primary"@, "background"@, hash_color(p.background@)));
    assert(last_edit(first, "primary"@, "background"@) == Some(hash_color(p.background@)));
    assert(head.last() == ("primary"@, "foreground"@, hash_color(p.foreground@)));
    assert(last_edit(head, "primary"@, "background"@) == Some(hash_color(p.background@)));
    lemma_last_edit_append(head + c + sb, sf, "cursor"@, "cursor"@);
    lemma_last_edit_append(head + c, sb, "cursor"@, "cursor"@);
    lemma_last_edit_append(head, c, "cursor"@, "cursor"@);
    lemma_last_edit_append(head + c + sb, sf, "selection"@, "background"@);
    lemma_last_edit_append(head + c, sb, "selection"@, "background"@);
    if let Some(x) = p.cursor {
        lemma_single_edit(("cursor"@, "cursor"@, hash_color(x@)), "primary"@, "background"@);
        lemma_single_edit(("cursor"@, "cursor"@, hash_color(x@)), "primary"@, "foreground"@);
        lemma_single_edit(("cursor"@, "cursor"@, hash_color(x@)), "cursor"@, "cursor"@);
    }
    if let Some(x) = p.selection_background {
        lemma_single_edit(("selection"@, "background"@, hash_color(x@)), "primary"@, "background"@);
        lemma_single_edit(("selection"@, "background"@, hash_color(x@)), "primary"@, "foreground"@);
        lemma_single_edit(("selection"@, "background"@, hash_color(x@)), "selection"@, "background"@);
        lemma_single_edit(("selection"@, "background"@, hash_color(x@)), "cursor"@, "cursor"@);
    }
    if let Some(x) = p.selection_foreground {
        lemma_single_edit(("selection"@, "text"@, hash_color(x@)), "primary"@, "background"@);
        lemma_single_edit(("selection"@, "text"@, hash_color(x@)), "primary"@, "foreground"@);
        lemma_single_edit(("selection"@, "text"@, hash_color(x@)), "cursor"@, "cursor"@);
        lemma_single_edit(("selection"@, "text"@, hash_color(x@)), "selection"@, "background"@);
        lemma_single_edit(("selection"@, "text"@, hash_color(x@)), "selection"@, "text"@);
        lemma_last_edit_append(head + c + sb, sf, "selection"@, "text"@);
    }
    assert forall|i: nat| i < 8 implies #[trigger] last_edit(es, "normal"@, ansi_name(i)) == Some(hash_color(p.ansi@[i as int]@)) by {
        lemma_last_edit_append(a4 + nb, bb, "normal"@, ansi_name(i));
        lemma_ansi_block_other("bright"@, fbright, 8, "normal"@, ansi_name(i));
        lemma_last_edit_append(a4, nb, "normal"@, ansi_name(i));
        lemma_ansi_block("normal"@, fnorm, 8, i);
    }
    assert forall|i: nat| i < 8 implies #[trigger] last_edit(es, "bright"@, ansi_name(i)) == Some(hash_color(p.ansi@[i as int + 8]@)) by {
        lemma_last_edit_append(a4 + nb, bb, "bright"@, ansi_name(i));
        lemma_ansi_block("bright"@, fbright, 8, i);
    }
}

/// A plain color written with `#` reads back as itself.
proof fn lemma_plain(c: Seq<char>)
    requires
        plain_color(c),
    ensures
        strip_leading(hash_color(c), '#') == c,
{
    let h = hash_color(c);
    assert(h.drop_first() =~= c);
    assert(strip_leading(c, '#') == c);
}

// ---------------------------------------------------------------------------
// Executable code
// ---------------------------------------------------------------------------

/// The color at `[colors.table] key`, without leading `#`.
fn color_in(doc: &DocumentMut, table: &str, key: &str) -> (r: Option<String>)
    requires
        root_is_table(*doc),
    ensures
        opt_view(r) == color_at(*doc, table@, key@),
{
    match document_string(doc, "colors", table, key) {
        None => None,
        Some(v) => {
            let cs = chars_of(v.as_str());
            let mut i: usize = 0;
            assert(cs@.skip(0) =~= cs@);
            while i < cs.len() && cs[i] == '#'
                invariant
                    i <= cs.len(),
                    strip_leading(cs@, '#') == strip_leading(cs@.skip(i as int), '#'),
                decreases cs.len() - i,
            {
                assert(cs@.skip(i as int).drop_first() =~= cs@.skip(i + 1));
                i = i + 1;
            }
            let rest = slice_of(&cs, i, cs.len());
            assert(rest@ =~= cs@.skip(i as int));
            Some(string_of(&rest))
        },
    }
}

/// Alacritty's name for ANSI color `i`.
fn ansi_name_str(i: usize) -> (r: &'static str)
    requires
        i < 8,
    ensures
        r@ == ansi_name(i as nat),
{
    if i == 0 {
        "black"
    } else if i == 1 {
        "red"
    } else if i == 2 {
        "green"
    } else if i == 3 {
        "yellow"
    } else if i == 4 {
        "blue"
    } else if i == 5 {
        "magenta"
    } else if i == 6 {
        "cyan"
    } else {
        "white"
    }
}

/// A color with a leading `#`.
fn hashed(c: &String) -> (r: String)
    ensures
        r@ == hash_color(c@),
{
    let mut v: Vec<char> = Vec::new();
    v.push('#');
    let cs = chars_of(c.as_str());
    crate::text::extend(&mut v, &cs);
    assert(v@ =~= hash_color(c@));
    string_of(&v)
}

/// One edit of the `[colors]` tables.
struct ColorEdit {
    table: &'static str,
    key: &'static str,
    value: String,
}

/// The edits that apply a theme, in order.
fn edits_for(t: &Theme) -> (r: Vec<ColorEdit>)
    ensures
        r@.map_values(|e: ColorEdit| (e.table@, e.key@, e.value@)) == theme_edits(*t),
{
    let p = &t.palette;
    let mut r: Vec<ColorEdit> = Vec::new();
    r.push(ColorEdit { table: "primary", key: "background", value: hashed(&p.background) });
    r.push(ColorEdit { table: "primary", key: "foreground", value: hashed(&p.foreground) });
    match &p.cursor {
        Some(c) => r.push(ColorEdit { table: "cursor", key: "cursor", value: hashed(c) }),
        None => {},
    }
    match &p.selection_background {
        Some(c) => r.push(ColorEdit { table: "selection", key: "background", value: hashed(c) }),
        None => {},
    }
    match &p.selection_foreground {
        Some(c) => r.push(ColorEdit { table: "selection", key: "text", value: hashed(c) }),
        None => {},
    }
    let ghost head = r@.map_values(|e: ColorEdit| (e.table@, e.key@, e.value@));
    assert(head =~= seq![("primary"@, "background"@, hash_color(p.background@)), ("primary"@, "foreground"@, hash_color(p.foreground@))]
        + opt_edit("cursor"@, "cursor"@, p.cursor)
        + opt_edit("selection"@, "background"@, p.selection_background)
        + opt_edit("selection"@, "text"@, p.selection_foreground));
    let mut i: usize = 0;
    while i < 8
        invariant
            i <= 8,
            p == &t.palette,
            r@.map_values(|e: ColorEdit| (e.table@, e.key@, e.value@)) == head
                + Seq::new(i as nat, |k: int| ("normal"@, ansi_name(k as nat), hash_color(p.ansi@[k]@))),
        decreases 8 - i,
    {
        let ghost before = r@;
        let e = ColorEdit { table: "normal", key: ansi_name_str(i), value: hashed(&p.ansi[i]) };
        assert((e.table@, e.key@, e.value@) == ("normal"@, ansi_name(i as nat), hash_color(p.ansi@[i as int]@)));
        r.push(e);
        assert(r@.map_values(|e: ColorEdit| (e.table@, e.key@, e.value@)) =~= before.map_values(|e: ColorEdit| (e.table@, e.key@, e.value@)).push((e.table@, e.key@, e.value@)));
        assert(r@.map_values(|e: ColorEdit| (e.table@, e.key@, e.value@)) =~= head
            + Seq::new((i + 1) as nat, |k: int| ("normal"@, ansi_name(k as nat), hash_color(p.ansi@[k]@))));
        i = i + 1;
    }
    let ghost mid = r@.map_values(|e: ColorEdit| (e.table@, e.key@, e.value@));
    let mut i: usize = 0;
    while i < 8
        invariant
            i <= 8,
            p == &t.palette,
            r@.map_values(|e: ColorEdit| (e.table@, e.key@, e.value@)) == mid
                + Seq::new(i as nat, |k: int| ("bright"@, ansi_name(k as nat), hash_color(p.ansi@[k + 8]@))),
        decreases 8 - i,
    {
        let ghost before = r@;
        let e = ColorEdit { table: "bright", key: ansi_name_str(i), value: hashed(&p.ansi[i + 8]) };
        assert((e.table@, e.key@, e.value@) == ("bright"@, ansi_name(i as nat), hash_color(p.ansi@[i + 8]@)));
        r.push(e);
        assert(r@.map_values(|e: ColorEdit| (e.table@, e.key@, e.value@)) =~= before.map_values(|e: ColorEdit| (e.table@, e.key@, e.value@)).push((e.table@, e.key@, e.value@)));
        assert(r@.map_values(|e: ColorEdit| (e.table@, e.key@, e.value@)) =~= mid
            + Seq::new((i + 1) as nat, |k: int| ("bright"@, ansi_name(k as nat), hash_color(p.ansi@[k + 8]@))));
        i = i + 1;
    }
    r
}

/// Reads an Alacritty config from the text of its file (empty when there
/// is no file): the document parsed from `contents`, as `parsed_toml` sees
/// it, with a table at its root; an error, with `toml_edit`'s message, when
/// it isn't valid TOML.
pub fn load_doc(contents: &str) -> (r: Result<DocumentMut, String>)
    ensures
        match r {
            Ok(d) => root_is_table(d) && forall|a: Seq<char>, b: Seq<char>, c: Seq<char>| #[trigger] parsed_toml(contents@, a, b, c)
                == Ok::<(bool, Option<Seq<char>>), Seq<char>>((toml_table_open(d, a, b), toml_string_at(d, seq![a, b, c]))),
            Err(e) => forall|a: Seq<char>, b: Seq<char>, c: Seq<char>| #[trigger] parsed_toml(contents@, a, b, c)
                == Err::<(bool, Option<Seq<char>>), Seq<char>>(e@),
        },
{
    parse_document(contents)
}

/// The text to write for an Alacritty config.
pub fn save_doc(doc: &DocumentMut) -> (r: String)
    requires
        root_is_table(*doc),
    ensures
        r@ == toml_text(*doc),
{
    render_document(doc)
}

/// Alacritty's config adapter.
pub struct AlacrittyAdapter;

impl AlacrittyAdapter {
    /// The font family the config sets (`[font.normal] family`).
    pub fn read_font_family(&self, doc: &DocumentMut) -> (r: Option<String>)
        requires
            root_is_table(*doc),
        ensures
            opt_view(r) == toml_string_at(*doc, seq!["font"@, "normal"@, "family"@]),
    {
        document_string(doc, "font", "normal", "family")
    }

    /// The colors currently configured, if background, foreground and all
    /// 16 ANSI colors are set (each without its leading `#`).
    pub fn read_current_palette(&self, doc: &DocumentMut) -> (r: Result<Option<Palette>, String>)
        requires
            root_is_table(*doc),
        ensures
            r is Ok,
            match r {
                Ok(Some(p)) => read_palette(*doc) == Some(p@),
                _ => read_palette(*doc) is None,
            },
    {
        let background = match color_in(doc, "primary", "background") {
            Some(b) => b,
            None => return Ok(None),
        };
        let foreground = match color_in(doc, "primary", "foreground") {
            Some(f) => f,
            None => return Ok(None),
        };
        let mut ansi = empty_ansi();
        let mut i: usize = 0;
        while i < 8
            invariant
                i <= 8,
                root_is_table(*doc),
                forall|j: nat| j < i ==> (#[trigger] color_at(*doc, "normal"@, ansi_name(j))) is Some,
                forall|j: int| 0 <= j < i ==> Some((#[trigger] ansi@[j])@) == color_at(*doc, "normal"@, ansi_name(j as nat)),
            decreases 8 - i,
        {
            match color_in(doc, "normal", ansi_name_str(i)) {
                Some(c) => {
                    ansi[i] = c;
                },
                None => {
                    assert(!all_ansi_set(*doc));
                    return Ok(None);
                },
            }
            i = i + 1;
        }
        let mut i: usize = 0;
        while i < 8
            invariant
                i <= 8,
                root_is_table(*doc),
                forall|j: nat| j < 8 ==> (#[trigger] color_at(*doc, "normal"@, ansi_name(j))) is Some,
                forall|j: int| 0 <= j < 8 ==> Some((#[trigger] ansi@[j])@) == color_at(*doc, "normal"@, ansi_name(j as nat)),
                forall|j: nat| j < i ==> (#[trigger] color_at(*doc, "bright"@, ansi_name(j))) is Some,
                forall|j: int| 8 <= j < 8 + i ==> Some((#[trigger] ansi@[j])@) == color_at(*doc, "bright"@, ansi_name((j - 8) as nat)),
            decreases 8 - i,
        {
            match color_in(doc, "bright", ansi_name_str(i)) {
                Some(c) => {
                    ansi[i + 8] = c;
                },
                None => {
                    assert(!all_ansi_set(*doc));
                    return Ok(None);
                },
            }
            i = i + 1;
        }
        let p = Palette {
            background,
            foreground,
            cursor: color_in(doc, "cursor", "cursor"),
            selection_background: color_in(doc, "selection", "background"),
            selection_foreground: color_in(doc, "selection", "text"),
            ansi,
        };
        proof {
            let v = read_palette(*doc)->Some_0;
            assert forall|j: int| 0 <= j < 16 implies #[trigger] p@.ansi[j] == v.ansi[j] by {
                if j < 8 {
                    assert(Some(ansi@[j]@) == color_at(*doc, "normal"@, ansi_name(j as nat)));
                } else {
                    assert(Some(ansi@[j]@) == color_at(*doc, "bright"@, ansi_name((j - 8) as nat)));
                }
            }
            assert(p@.ansi =~= v.ansi);
        }
        Ok(Some(p))
    }

    /// Applies a theme's colors (each written with a leading `#`) to the
    /// `[colors.*]` tables, creating them as needed. An error, with the
    /// document left partly edited, when one of those tables is held by
    /// something other than a table. On success each color the theme sets
    /// holds what was written for it, every other string at a three-key
    /// path holds what it did, and every entry the theme does not write
    /// (in the root, in `[colors]`, in the `[colors.*]` tables) is what it
    /// was; a `[colors]` made here is implicit and a `[colors.*]` table
    /// made here is not (`theme_kept_rest`).
    pub fn apply_theme(&self, doc: &mut DocumentMut, theme: &Theme) -> (r: Result<(), String>)
        requires
            root_is_table(*old(doc)),
        ensures
            root_is_table(*final(doc)),
            r is Ok <==> theme_tables_open(*old(doc), *theme),
            r matches Err(e) ==> exists|t: Seq<char>| #[trigger] table_error(t) == e@ && !toml_table_open(*old(doc), "colors"@, t),
            r is Ok ==> theme_applied(*old(doc), *final(doc), *theme),
            r is Ok ==> theme_kept_rest(*old(doc), *final(doc), *theme),
            r is Ok && plain_colors(theme.palette) ==> (read_palette(*final(doc)) matches Some(v) && {
                &&& v.background == theme.palette@.background
                &&& v.foreground == theme.palette@.foreground
                &&& v.ansi == theme.palette@.ansi
                &&& (theme.palette.cursor is Some ==> v.cursor == theme.palette@.cursor)
                &&& (theme.palette.selection_background is Some ==> v.selection_background == theme.palette@.selection_background)
                &&& (theme.palette.selection_foreground is Some ==> v.selection_foreground == theme.palette@.selection_foreground)
            }),
    {
        let edits = edits_for(theme);
        let ghost es = edits@.map_values(|e: ColorEdit| (e.table@, e.key@, e.value@));
        let ghost d0 = *doc;
        proof {
            reveal_strlit("colors");
            lemma_names_distinct();
        }
        let mut i: usize = 0;
        assert(es.take(0) =~= Seq::<Edit>::empty());
        while i < edits.len()
            invariant
                i <= edits.len(),
                root_is_table(*doc),
                es == edits@.map_values(|e: ColorEdit| (e.table@, e.key@, e.value@)),
                es == theme_edits(*theme),
                d0 == *old(doc),
                forall|table: Seq<char>, key: Seq<char>| #[trigger] colors_entry(*doc, table, key)
                    == match last_edit(es.take(i as int), table, key) {
                        Some(v) => Some(v),
                        None => colors_entry(d0, table, key),
                    },
                forall|p: Seq<Seq<char>>| p.len() == 3 && p[0] != "colors"@ ==> #[trigger] toml_string_at(*doc, p) == toml_string_at(d0, p),
                forall|x: Seq<char>, y: Seq<char>| #[trigger] toml_table_open(d0, x, y) <==> toml_table_open(*doc, x, y),
                forall|j: int| 0 <= j < i ==> toml_table_open(d0, "colors"@, (#[trigger] es[j]).0),
                forall|k: Seq<char>| k != "colors"@ ==> #[trigger] entry_of(root_of(*doc), k) == entry_of(root_of(d0), k),
                forall|y: Seq<char>| !edits_table(es.take(i as int), y) ==> #[trigger] entry2(*doc, "colors"@, y) == entry2(d0, "colors"@, y),
                forall|y: Seq<char>, z: Seq<char>| last_edit(es.take(i as int), y, z) is None ==> #[trigger] entry3(*doc, "colors"@, y, z) == entry3(d0, "colors"@, y, z),
                i == 0 ==> *doc == d0,
                i > 0 ==> kept_or_made(table1(d0, "colors"@), table1(*doc, "colors"@), true),
                forall|y: Seq<char>| edits_table(es.take(i as int), y) ==> kept_or_made(table2(d0, "colors"@, y), #[trigger] table2(*doc, "colors"@, y), false),
            decreases edits.len() - i,
        {
            let e = &edits[i];
            let ghost before = *doc;
            if !document_set_string(doc, "colors", e.table, e.key, e.value.as_str()) {
                proof {
                    assert(es[i as int] == (e.table@, e.key@, e.value@));
                    lemma_failing_table(*theme, d0, *doc, e.table@, es, i as int);
                }
                let mut msg = String::from_str("the Alacritty config has something other than a table at [colors.");
                msg.append(e.table);
                msg.append("]");
                assert(table_error(e.table@) == msg@);
                return Err(msg);
            }
            proof {
                assert(es[i as int] == (e.table@, e.key@, e.value@));
                assert(toml_table_open(d0, "colors"@, es[i as int].0));
                assert(es.take(i + 1).drop_last() =~= es.take(i as int));
                assert(es.take(i + 1).last() == es[i as int]);
                assert forall|table: Seq<char>, key: Seq<char>| #[trigger] colors_entry(*doc, table, key)
                    == match last_edit(es.take(i + 1), table, key) {
                        Some(v) => Some(v),
                        None => colors_entry(d0, table, key),
                    } by {
                    if table == e.table@ && key == e.key@ {
                    } else {
                        assert(seq!["colors"@, table, key] != seq!["colors"@, e.table@, e.key@]) by {
                            if table != e.table@ {
                                assert(seq!["colors"@, table, key][1] != seq!["colors"@, e.table@, e.key@][1]);
                            } else {
                                assert(seq!["colors"@, table, key][2] != seq!["colors"@, e.table@, e.key@][2]);
                            }
                        }
                        assert(colors_entry(*doc, table, key) == colors_entry(before, table, key));
                    }
                }
                assert forall|p: Seq<Seq<char>>| p.len() == 3 && p[0] != "colors"@ implies #[trigger] toml_string_at(*doc, p) == toml_string_at(d0, p) by {
                    assert(p != seq!["colors"@, e.table@, e.key@]) by {
                        assert(seq!["colors"@, e.table@, e.key@][0] == "colors"@);
                    }
                    assert(toml_string_at(*doc, p) == toml_string_at(before, p));
                }
                let es1 = es.take(i + 1);
                assert forall|y: Seq<char>| #[trigger] edits_table(es1, y) == (y == e.table@ || edits_table(es.take(i as int), y)) by {
                    assert(es1.drop_last() =~= es.take(i as int));
                }
                assert forall|y: Seq<char>| !edits_table(es1, y) implies #[trigger] entry2(*doc, "colors"@, y) == entry2(d0, "colors"@, y) by {
                    assert(entry2(*doc, "colors"@, y) == entry2(before, "colors"@, y));
                }
                assert forall|y: Seq<char>, z: Seq<char>| last_edit(es1, y, z) is None implies #[trigger] entry3(*doc, "colors"@, y, z) == entry3(d0, "colors"@, y, z) by {
                    assert(last_edit(es1, y, z) == if y == e.table@ && z == e.key@ { Some(e.value@) } else { last_edit(es.take(i as int), y, z) });
                    if y != e.table@ {
                        assert(entry2(*doc, "colors"@, y) == entry2(before, "colors"@, y));
                    } else {
                        assert(entry3(*doc, "colors"@, y, z) == entry3(before, "colors"@, y, z));
                    }
                }
                assert forall|y: Seq<char>| edits_table(es1, y) implies kept_or_made(table2(d0, "colors"@, y), #[trigger] table2(*doc, "colors"@, y), false) by {
                    if y != e.table@ {
                        assert(entry2(*doc, "colors"@, y) == entry2(before, "colors"@, y));
                        assert(kept_or_made(table2(d0, "colors"@, y), table2(before, "colors"@, y), false));
                    } else {
                        assert(kept_or_made(table2(before, "colors"@, y), table2(*doc, "colors"@, y), false));
                        if !edits_table(es.take(i as int), y) {
                            assert(entry2(before, "colors"@, y) == entry2(d0, "colors"@, y));
                        } else {
                            assert(kept_or_made(table2(d0, "colors"@, y), table2(before, "colors"@, y), false));
                        }
                    }
                }
            }
            i = i + 1;
        }
        proof {
            assert(es.take(es.len() as int) =~= es);
            lemma_edit_tables_open(*theme, d0, es);
            assert forall|y: Seq<char>| #[trigger] theme_writes_table(*theme, y) == edits_table(es, y) by {
                lemma_theme_tables(*theme, y);
            }
            assert(theme_kept_rest(d0, *doc, *theme));
            if plain_colors(theme.palette) {
                let p = theme.palette;
                lemma_theme_edits(*theme);
                lemma_plain(p.background@);
                lemma_plain(p.foreground@);
                if let Some(c) = p.cursor {
                    lemma_plain(c@);
                }
                if let Some(c) = p.selection_background {
                    lemma_plain(c@);
                }
                if let Some(c) = p.selection_foreground {
                    lemma_plain(c@);
                }
                assert forall|j: nat| j < 8 implies (#[trigger] color_at(*doc, "normal"@, ansi_name(j))) == Some(p.ansi@[j as int]@) by {
                    lemma_plain(p.ansi@[j as int]@);
                    assert(colors_entry(*doc, "normal"@, ansi_name(j)) == Some(hash_color(p.ansi@[j as int]@)));
                }
                assert forall|j: nat| j < 8 implies (#[trigger] color_at(*doc, "bright"@, ansi_name(j))) == Some(p.ansi@[j as int + 8]@) by {
                    lemma_plain(p.ansi@[j as int + 8]@);
                    assert(colors_entry(*doc, "bright"@, ansi_name(j)) == Some(hash_color(p.ansi@[j as int + 8]@)));
                }
                assert(color_at(*doc, "primary"@, "background"@) == Some(p.background@)) by {
                    assert(colors_entry(*doc, "primary"@, "background"@) == Some(hash_color(p.background@)));
                }
                assert(color_at(*doc, "primary"@, "foreground"@) == Some(p.foreground@)) by {
                    assert(colors_entry(*doc, "primary"@, "foreground"@) == Some(hash_color(p.foreground@)));
                }
                if let Some(c) = p.cursor {
                    assert(colors_entry(*doc, "cursor"@, "cursor"@) == Some(hash_color(c@)));
                }
                if let Some(c) = p.selection_background {
                    assert(colors_entry(*doc, "selection"@, "background"@) == Some(hash_color(c@)));
                }
                if let Some(c) = p.selection_foreground {
                    assert(colors_entry(*doc, "selection"@, "text"@) == Some(hash_color(c@)));
                }
                let v = read_palette(*doc)->Some_0;
                assert forall|j: int| 0 <= j < 16 implies #[trigger] v.ansi[j] == theme.palette@.ansi[j] by {
                    if j < 8 {
                        assert(color_at(*doc, "normal"@, ansi_name(j as nat)) == Some(p.ansi@[j]@));
                    } else {
                        assert(color_at(*doc, "bright"@, ansi_name((j - 8) as nat)) == Some(p.ansi@[j]@));
                    }
                }
                assert(v.ansi =~= theme.palette@.ansi);
            }
        }
        Ok(())
    }

    /// Sets the font family (`[font.normal] family`), creating the tables
    /// as needed (a new `[font]` implicit, a new `[font.normal]` not); an
    /// error when `[font]` or `[font.normal]` is held by something other
    /// than a table. On success every other entry of the root, of `[font]`
    /// and of `[font.normal]` is what it was.
    pub fn apply_font_family(&self, doc: &mut DocumentMut, family: &str) -> (r: Result<(), String>)
        requires
            root_is_table(*old(doc)),
        ensures
            root_is_table(*final(doc)),
            r is Ok <==> toml_table_open(*old(doc), "font"@, "normal"@),
            r is Ok ==> toml_string_at(*final(doc), seq!["font"@, "normal"@, "family"@]) == Some(family@),
            r is Ok ==> forall|p: Seq<Seq<char>>| p.len() == 3 && p != seq!["font"@, "normal"@, "family"@] ==> #[trigger] toml_string_at(*final(doc), p)
                == toml_string_at(*old(doc), p),
            r is Ok ==> forall|k: Seq<char>| k != "font"@ ==> #[trigger] entry_of(root_of(*final(doc)), k) == entry_of(root_of(*old(doc)), k),
            r is Ok ==> forall|y: Seq<char>| y != "normal"@ ==> #[trigger] entry2(*final(doc), "font"@, y) == entry2(*old(doc), "font"@, y),
            r is Ok ==> forall|z: Seq<char>| z != "family"@ ==> #[trigger] entry3(*final(doc), "font"@, "normal"@, z) == entry3(*old(doc), "font"@, "normal"@, z),
            r is Ok ==> kept_or_made(table1(*old(doc), "font"@), table1(*final(doc), "font"@), true),
            r is Ok ==> kept_or_made(table2(*old(doc), "font"@, "normal"@), table2(*final(doc), "font"@, "normal"@), false),
            r is Err ==> root_of(*final(doc)) == root_of(*old(doc)),
            r matches Err(e) ==> e@ == "the Alacritty config has something other than a table at [font.normal]"@,
    {
        if document_set_string(doc, "font", "normal", "family", family) {
            Ok(())
        } else {
            Err(String::from_str("the Alacritty config has something other than a table at [font.normal]"))
        }
    }
}

/// Applying the same theme again changes nothing: every string at a
/// three-key path holds what it held after the first apply.
pub proof fn lemma_apply_twice(d0: DocumentMut, d1: DocumentMut, d2: DocumentMut, t: Theme)
    requires
        theme_applied(d0, d1, t),
        theme_applied(d1, d2, t),
    ensures
        forall|p: Seq<Seq<char>>| p.len() == 3 ==> #[trigger] toml_string_at(d2, p) == toml_string_at(d1, p),
{
    assert forall|p: Seq<Seq<char>>| p.len() == 3 implies #[trigger] toml_string_at(d2, p) == toml_string_at(d1, p) by {
        if p[0] == "colors"@ {
            assert(p =~= seq!["colors"@, p[1], p[2]]);
            assert(colors_entry(d2, p[1], p[2]) == colors_entry(d1, p[1], p[2]));
        }
    }
}

/// Can each `[colors.*]` table a theme writes into hold keys in the
/// document parsed from `text`?
pub open spec fn text_tables_open(text: Seq<char>, t: Theme) -> bool {
    forall|y: Seq<char>| theme_writes_table(t, y) ==> (#[trigger] parsed_toml(text, "colors"@, y, Seq::empty()))->Ok_0.0
}

/// A config loaded from `text` (so `d0` is what `load_doc` gave), then
/// given a theme (`d1`): applying succeeds exactly when the color tables
/// the theme writes into can hold keys in `text`; then the string at
/// `[colors.table] key` is the one the theme wrote last there when it sets
/// that color, else the one `text` held, and every string outside
/// `[colors]` is the one `text` held.
pub proof fn lemma_load_then_apply(text: Seq<char>, d0: DocumentMut, d1: DocumentMut, t: Theme)
    requires
        forall|a: Seq<char>, b: Seq<char>, c: Seq<char>| #[trigger] parsed_toml(text, a, b, c)
            == Ok::<(bool, Option<Seq<char>>), Seq<char>>((toml_table_open(d0, a, b), toml_string_at(d0, seq![a, b, c]))),
    ensures
        theme_tables_open(d0, t) <==> text_tables_open(text, t),
        theme_applied(d0, d1, t) ==> forall|table: Seq<char>, key: Seq<char>| #[trigger] colors_entry(d1, table, key)
            == match last_edit(theme_edits(t), table, key) {
                Some(v) => Some(v),
                None => parsed_toml(text, "colors"@, table, key)->Ok_0.1,
            },
        theme_applied(d0, d1, t) ==> forall|p: Seq<Seq<char>>| p.len() == 3 && p[0] != "colors"@
            ==> #[trigger] toml_string_at(d1, p) == parsed_toml(text, p[0], p[1], p[2])->Ok_0.1,
{
    let e = Seq::<char>::empty();
    assert(parsed_toml(text, "colors"@, "primary"@, e)->Ok_0.0 == toml_table_open(d0, "colors"@, "primary"@));
    assert(parsed_toml(text, "colors"@, "normal"@, e)->Ok_0.0 == toml_table_open(d0, "colors"@, "normal"@));
    assert(parsed_toml(text, "colors"@, "bright"@, e)->Ok_0.0 == toml_table_open(d0, "colors"@, "bright"@));
    assert(parsed_toml(text, "colors"@, "cursor"@, e)->Ok_0.0 == toml_table_open(d0, "colors"@, "cursor"@));
    assert(parsed_toml(text, "colors"@, "selection"@, e)->Ok_0.0 == toml_table_open(d0, "colors"@, "selection"@));
    assert(theme_tables_open(d0, t) <==> text_tables_open(text, t));
    if theme_applied(d0, d1, t) {
        assert forall|table: Seq<char>, key: Seq<char>| #[trigger] colors_entry(d1, table, key)
            == match last_edit(theme_edits(t), table, key) {
                Some(v) => Some(v),
                None => parsed_toml(text, "colors"@, table, key)->Ok_0.1,
            } by {
            assert(parsed_toml(text, "colors"@, table, key)->Ok_0.1 == colors_entry(d0, table, key));
        }
        assert forall|p: Seq<Seq<char>>| p.len() == 3 && p[0] != "colors"@
            implies #[trigger] toml_string_at(d1, p) == parsed_toml(text, p[0], p[1], p[2])->Ok_0.1 by {
            assert(p =~= seq![p[0], p[1], p[2]]);
            assert(parsed_toml(text, p[0], p[1], p[2])->Ok_0.1 == toml_string_at(d0, seq![p[0], p[1], p[2]]));
        }
    }
}

/// Applying a theme writes each ANSI color under Alacritty's name for its
/// slot: slots 0 to 7 as `black`, `red`, `green`, `yellow`, `blue`,
/// `magenta`, `cyan`, `white` in `[colors.normal]`, slots 8 to 15 under the
/// same names in `[colors.bright]`, each with a leading `#`.
pub proof fn lemma_applied_ansi_names(before: DocumentMut, after: DocumentMut, t: Theme)
    requires
        theme_applied(before, after, t),
    ensures
        colors_entry(after, "normal"@, "black"@) == Some(seq!['#'] + t.palette.ansi@[0]@),
        colors_entry(after, "normal"@, "red"@) == Some(seq!['#'] + t.palette.ansi@[1]@),
        colors_entry(after, "normal"@, "green"@) == Some(seq!['#'] + t.palette.ansi@[2]@),
        colors_entry(after, "normal"@, "yellow"@) == Some(seq!['#'] + t.palette.ansi@[3]@),
        colors_entry(after, "normal"@, "blue"@) == Some(seq!['#'] + t.palette.ansi@[4]@),
        colors_entry(after, "normal"@, "magenta"@) == Some(seq!['#'] + t.palette.ansi@[5]@),
        colors_entry(after, "normal"@, "cyan"@) == Some(seq!['#'] + t.palette.ansi@[6]@),
        colors_entry(after, "normal"@, "white"@) == Some(seq!['#'] + t.palette.ansi@[7]@),
        colors_entry(after, "bright"@, "black"@) == Some(seq!['#'] + t.palette.ansi@[8]@),
        colors_entry(after, "bright"@, "red"@) == Some(seq!['#'] + t.palette.ansi@[9]@),
        colors_entry(after, "bright"@, "green"@) == Some(seq!['#'] + t.palette.ansi@[10]@),
        colors_entry(after, "bright"@, "yellow"@) == Some(seq!['#'] + t.palette.ansi@[11]@),
        colors_entry(after, "bright"@, "blue"@) == Some(seq!['#'] + t.palette.ansi@[12]@),
        colors_entry(after, "bright"@, "magenta"@) == Some(seq!['#'] + t.palette.ansi@[13]@),
        colors_entry(after, "bright"@, "cyan"@) == Some(seq!['#'] + t.palette.ansi@[14]@),
        colors_entry(after, "bright"@, "white"@) == Some(seq!['#'] + t.palette.ansi@[15]@),
{
    lemma_theme_edits(t);
    reveal_strlit("black");
    reveal_strlit("red");
    reveal_strlit("green");
    reveal_strlit("yellow");
    reveal_strlit("blue");
    reveal_strlit("magenta");
    reveal_strlit("cyan");
    reveal_strlit("white");
    assert forall|i: nat| i < 8 implies colors_entry(after, "normal"@, #[trigger] ansi_name(i)) == Some(hash_color(t.palette.ansi@[i as int]@))
        && colors_entry(after, "bright"@, ansi_name(i)) == Some(hash_color(t.palette.ansi@[i as int + 8]@)) by {
        assert(last_edit(theme_edits(t), "normal"@, ansi_name(i)) == Some(hash_color(t.palette.ansi@[i as int]@)));
        assert(last_edit(theme_edits(t), "bright"@, ansi_name(i)) == Some(hash_color(t.palette.ansi@[i as int + 8]@)));
    }
    assert(ansi_name(0) == "black"@);
    assert(ansi_name(1) == "red"@);
    assert(ansi_name(2) == "green"@);
    assert(ansi_name(3) == "yellow"@);
    assert(ansi_name(4) == "blue"@);
    assert(ansi_name(5) == "magenta"@);
    assert(ansi_name(6) == "cyan"@);
    assert(ansi_name(7) == "white"@);
}

/// When the table of every edit is open, so are all the tables applying
/// the theme writes into.
proof fn lemma_edit_tables_open(t: Theme, d0: DocumentMut, es: Seq<Edit>)
    requires
        es == theme_edits(t),
        forall|j: int| 0 <= j < es.len() ==> toml_table_open(d0, "colors"@, (#[trigger] es[j]).0),
    ensures
        theme_tables_open(d0, t),
{
    let p = t.palette;
    let head = seq![("primary"@, "background"@, hash_color(p.background@)), ("primary"@, "foreground"@, hash_color(p.foreground@))];
    let c = opt_edit("cursor"@, "cursor"@, p.cursor);
    let sb = opt_edit("selection"@, "background"@, p.selection_background);
    let sf = opt_edit("selection"@, "text"@, p.selection_foreground);
    let nb = Seq::new(8, |k: int| ("normal"@, ansi_name(k as nat), hash_color(p.ansi@[k]@)));
    let bb = Seq::new(8, |k: int| ("bright"@, ansi_name(k as nat), hash_color(p.ansi@[k as int + 8]@)));
    assert(es == head + c + sb + sf + nb + bb);
    let n0 = head.len() as int;
    let n1 = n0 + c.len();
    let n2 = n1 + sb.len();
    let n3 = n2 + sf.len();
    let n4 = n3 + 8;
    assert(es[0] == head[0]);
    assert(es[n3] == nb[0]);
    assert(es[n4] == bb[0]);
    if p.cursor is Some {
        assert(es[n0] == c[0]);
    }
    if p.selection_background is Some {
        assert(es[n1] == sb[0]);
    }
    if p.selection_foreground is Some {
        assert(es[n2] == sf[0]);
    }
}

/// When writing into a table fails partway, one of the tables applying the
/// theme writes into was not open to begin with.
proof fn lemma_failing_table(t: Theme, d0: DocumentMut, d: DocumentMut, table: Seq<char>, es: Seq<Edit>, i: int)
    requires
        es == theme_edits(t),
        0 <= i < es.len(),
        es[i].0 == table,
        !toml_table_open(d, "colors"@, table),
        forall|x: Seq<char>, y: Seq<char>| #[trigger] toml_table_open(d0, x, y) <==> toml_table_open(d, x, y),
    ensures
        !theme_tables_open(d0, t),
{
    let p = t.palette;
    let head = seq![("primary"@, "background"@, hash_color(p.background@)), ("primary"@, "foreground"@, hash_color(p.foreground@))];
    let c = opt_edit("cursor"@, "cursor"@, p.cursor);
    let sb = opt_edit("selection"@, "background"@, p.selection_background);
    let sf = opt_edit("selection"@, "text"@, p.selection_foreground);
    let nb = Seq::new(8, |k: int| ("normal"@, ansi_name(k as nat), hash_color(p.ansi@[k]@)));
    let bb = Seq::new(8, |k: int| ("bright"@, ansi_name(k as nat), hash_color(p.ansi@[k + 8]@)));
    assert(es == head + c + sb + sf + nb + bb);
    let n0 = head.len() as int;
    let n1 = n0 + c.len();
    let n2 = n1 + sb.len();
    let n3 = n2 + sf.len();
    let n4 = n3 + 8;
    if i < n0 {
        assert(es[i] == head[i]);
    } else if i < n1 {
        assert(es[i] == c[i - n0]);
    } else if i < n2 {
        assert(es[i] == sb[i - n1]);
    } else if i < n3 {
        assert(es[i] == sf[i - n2]);
    } else if i < n4 {
        assert(es[i] == nb[i - n3]);
    } else {
        assert(es[i] == bb[i - n4]);
    }
}

} // verus!
