//! The theme data model: variants, sources, palettes, and themes.
use vstd::prelude::*;

use crate::text::has_char;

verus! {

/// Whether a theme is meant for a dark background, a light one, or either.
#[derive(Debug, Clone, Copy, PartialEq, Eq, Structural)]
pub enum ThemeVariant {
    Dark,
    Light,
    Both,
}

/// Time-of-day bucket for picking a theme. `Day` accepts Light or Both,
/// `Night` accepts Dark or Both.
#[derive(Debug, Clone, Copy, PartialEq, Eq, Structural)]
pub enum Period {
    Day,
    Night,
}

/// Which variants a period accepts.
pub open spec fn period_accepts(period: Period, variant: ThemeVariant) -> bool {
    match period {
        Period::Day => variant == ThemeVariant::Light || variant == ThemeVariant::Both,
        Period::Night => variant == ThemeVariant::Dark || variant == ThemeVariant::Both,
    }
}

impl Period {
    /// Is a theme of `variant` suitable for this period?
    pub fn accepts(self, variant: ThemeVariant) -> (r: bool)
        ensures
            r == period_accepts(self, variant),
    {
        match (self, variant) {
            (Period::Day, ThemeVariant::Light) | (Period::Day, ThemeVariant::Both) => true,
            (Period::Night, ThemeVariant::Dark) | (Period::Night, ThemeVariant::Both) => true,
            _ => false,
        }
    }
}

/// Where a theme came from: shipped with Sheets (or Ghostty), or installed
/// or created by the user.
#[derive(Debug, Clone, Copy, PartialEq, Eq, Structural)]
pub enum ThemeSource {
    BuiltIn,
    UserInstalled,
}

/// ANSI colors 0-15 as hex strings without a leading `#`: black, red, green,
/// yellow, blue, magenta, cyan, white, then the bright variants of each.
#[derive(Debug, Clone)]
pub struct Palette {
    pub background: String,
    pub foreground: String,
    pub cursor: Option<String>,
    pub selection_background: Option<String>,
    pub selection_foreground: Option<String>,
    pub ansi: [String; 16],
}

/// The colors of a palette, as text.
pub struct PaletteView {
    pub background: Seq<char>,
    pub foreground: Seq<char>,
    pub cursor: Option<Seq<char>>,
    pub selection_background: Option<Seq<char>>,
    pub selection_foreground: Option<Seq<char>>,
    pub ansi: Seq<Seq<char>>,
}

/// The text of an optional string.
pub open spec fn opt_chars(o: Option<String>) -> Option<Seq<char>> {
    match o {
        Some(s) => Some(s@),
        None => None,
    }
}

/// Does every color of the palette fit on one line (no newline in it)?
pub open spec fn single_line_colors(p: Palette) -> bool {
    &&& !has_char(p.background@, '\n')
    &&& !has_char(p.foreground@, '\n')
    &&& (p.cursor matches Some(c) ==> !has_char(c@, '\n'))
    &&& (p.selection_background matches Some(c) ==> !has_char(c@, '\n'))
    &&& (p.selection_foreground matches Some(c) ==> !has_char(c@, '\n'))
    &&& forall|i: int| 0 <= i < 16 ==> !has_char((#[trigger] p.ansi@[i])@, '\n')
}

impl View for Palette {
    type V = PaletteView;

    open spec fn view(&self) -> PaletteView {
        PaletteView {
            background: self.background@,
            foreground: self.foreground@,
            cursor: opt_chars(self.cursor),
            selection_background: opt_chars(self.selection_background),
            selection_foreground: opt_chars(self.selection_foreground),
            ansi: self.ansi@.map_values(|s: String| s@),
        }
    }
}

/// A named palette together with its variant and origin.
#[derive(Debug, Clone)]
pub struct Theme {
    pub id: String,
    pub name: String,
    pub variant: ThemeVariant,
    pub source: ThemeSource,
    /// Present when `source` is `UserInstalled`.
    pub git_url: Option<String>,
    pub palette: Palette,
}

/// A copy of an optional string.
pub fn dup_opt(s: &Option<String>) -> (r: Option<String>)
    ensures
        r == *s,
{
    match s {
        Some(v) => Some(v.clone()),
        None => None,
    }
}

/// Sixteen empty strings, to be filled in.
pub fn empty_ansi() -> (a: [String; 16])
    ensures
        forall|i: int| 0 <= i < 16 ==> (#[trigger] a@[i])@ == Seq::<char>::empty(),
{
    [
        String::new(),
        String::new(),
        String::new(),
        String::new(),
        String::new(),
        String::new(),
        String::new(),
        String::new(),
        String::new(),
        String::new(),
        String::new(),
        String::new(),
        String::new(),
        String::new(),
        String::new(),
        String::new(),
    ]
}

impl Palette {
    /// A copy of this palette.
    pub fn duplicate(&self) -> (r: Palette)
        ensures
            r == *self,
    {
        let a = &self.ansi;
        let ansi = [
            a[0].clone(),
            a[1].clone(),
            a[2].clone(),
            a[3].clone(),
            a[4].clone(),
            a[5].clone(),
            a[6].clone(),
            a[7].clone(),
            a[8].clone(),
            a[9].clone(),
            a[10].clone(),
            a[11].clone(),
            a[12].clone(),
            a[13].clone(),
            a[14].clone(),
            a[15].clone(),
        ];
        assert(ansi =~= self.ansi);
        Palette {
            background: self.background.clone(),
            foreground: self.foreground.clone(),
            cursor: dup_opt(&self.cursor),
            selection_background: dup_opt(&self.selection_background),
            selection_foreground: dup_opt(&self.selection_foreground),
            ansi,
        }
    }
}

impl Theme {
    /// A copy of this theme.
    pub fn duplicate(&self) -> (r: Theme)
        ensures
            r == *self,
    {
        Theme {
            id: self.id.clone(),
            name: self.name.clone(),
            variant: self.variant,
            source: self.source,
            git_url: dup_opt(&self.git_url),
            palette: self.palette.duplicate(),
        }
    }
}

} // verus!
