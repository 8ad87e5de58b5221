//! Themes: the colors of the text, the cursor, the selection and each kind
//! of highlighted syntax.
use vstd::prelude::*;
use vstd::array::array_fill_for_copy_types;
use vstd::utf8::is_ascii_chars;
use crate::style::{Capture, Color, ParseColorError, capture_named, channel};

verus! {

/// The color `#rrggbb` text stands for, if it parses.
pub open spec fn color_of(t: Seq<char>) -> Option<Color> {
    if is_ascii_chars(t) && t.len() == 7 && t[0] == '#' {
        Some(Color::spec_new(channel(t.subrange(1, 3)), channel(t.subrange(3, 5)), channel(t.subrange(5, 7))))
    } else {
        None
    }
}

/// How a kind of text is shown.
#[derive(Copy, Clone, Debug, PartialEq, Eq, Structural, Hash)]
pub struct ThemeAttributes {
    pub fg: Option<Color>,
    pub bg: Option<Color>,
    pub bold: Option<bool>,
}

/// How a kind of text is shown, as a theme file writes it.
#[derive(Debug, Clone)]
pub struct ThemeFileAttributes {
    pub fg: Option<String>,
    pub bg: Option<String>,
    pub bold: Option<bool>,
}

/// A theme as a theme file writes it: colors as `#rrggbb` text, and the
/// highlights by capture name.
#[derive(Debug, Clone)]
pub struct ThemeFile {
    pub fg: String,
    pub bg: String,
    pub cursor: String,
    pub selection: ThemeFileAttributes,
    pub highlights: Vec<(String, ThemeFileAttributes)>,
}

/// The color an optional color text stands for: none when absent or when it
/// does not parse.
pub open spec fn opt_color(t: Option<String>) -> Option<Color> {
    match t {
        Some(s) => color_of(s@),
        None => None,
    }
}

/// The attributes a theme file's attributes stand for.
pub open spec fn attrs_of(tfa: ThemeFileAttributes) -> ThemeAttributes {
    ThemeAttributes { fg: opt_color(tfa.fg), bg: opt_color(tfa.bg), bold: tfa.bold }
}

/// The highlights after the first `k` named entries of `hs`: each entry
/// whose name is a capture sets that capture's attributes.
pub open spec fn highlights_after(hs: Seq<(String, ThemeFileAttributes)>, k: int) -> Seq<Option<ThemeAttributes>>
    decreases k,
{
    if k <= 0 {
        Seq::new(20, |i: int| None)
    } else {
        let prev = highlights_after(hs, k - 1);
        match capture_named(hs[k - 1].0@) {
            Some(c) => prev.update(c.spec_index(), Some(attrs_of(hs[k - 1].1))),
            None => prev,
        }
    }
}

/// The text color the default theme gives each capture.
pub open spec fn default_highlight(c: Capture) -> Color {
    match c {
        Capture::Attribute => Color::spec_new(0xfe, 0x80, 0x19),
        Capture::Comment => Color::spec_new(0x7c, 0x6f, 0x64),
        Capture::Constant => Color::spec_new(0xd3, 0x86, 0x9b),
        Capture::ConstantBuiltin => Color::spec_new(0xfe, 0x80, 0x19),
        Capture::Constructor => Color::spec_new(0xd3, 0x86, 0x9b),
        Capture::Escape => Color::spec_new(0x8e, 0xc0, 0x7c),
        Capture::Function => Color::spec_new(0xfa, 0xbd, 0x2f),
        Capture::FunctionMacro => Color::spec_new(0xfe, 0x80, 0x19),
        Capture::FunctionMethod => Color::spec_new(0xfa, 0xbd, 0x2f),
        Capture::Keyword => Color::spec_new(0xfb, 0x49, 0x33),
        Capture::Label => Color::spec_new(0x83, 0xa5, 0x98),
        Capture::Operator => Color::spec_new(0xfd, 0xf4, 0xc1),
        Capture::Property => Color::spec_new(0x83, 0xa5, 0x98),
        Capture::PunctuationBracket => Color::spec_new(0xfd, 0xf4, 0xc1),
        Capture::PunctuationDelimiter => Color::spec_new(0xfd, 0xf4, 0xc1),
        Capture::String => Color::spec_new(0xb8, 0xbb, 0x26),
        Capture::Type => Color::spec_new(0xd3, 0x86, 0x9b),
        Capture::TypeBuiltin => Color::spec_new(0xfe, 0x80, 0x19),
        Capture::VariableBuiltin => Color::spec_new(0xfe, 0x80, 0x19),
        Capture::VariableParameter => Color::spec_new(0x83, 0xa5, 0x98),
    }
}

/// Attributes that set only the text color.
fn fg_only(r: u8, g: u8, b: u8) -> (a: Option<ThemeAttributes>)
    ensures
        a == Some(ThemeAttributes { fg: Some(Color::spec_new(r, g, b)), bg: None, bold: None }),
{
    Some(ThemeAttributes { fg: Some(Color::new(r, g, b)), bg: None, bold: None })
}

/// Colors of a theme.
#[derive(Debug, Clone)]
pub struct Theme {
    pub fg: Color,
    pub bg: Color,
    pub selection: ThemeAttributes,
    pub cursor: Color,
    highlights: [Option<ThemeAttributes>; 20],
}

/// Parses a color held by an optional string.
fn parse_opt_color(t: &Option<String>) -> (c: Option<Color>)
    ensures
        c == opt_color(*t),
{
    match t {
        Some(s) => match Color::from_str(s.as_str()) {
            Ok(c) => Some(c),
            Err(_) => None,
        },
        None => None,
    }
}

impl ThemeAttributes {
    /// The attributes that a theme file's attributes stand for; a color
    /// that does not parse is left out.
    pub fn from_file_attrs(tfa: ThemeFileAttributes) -> (a: ThemeAttributes)
        ensures
            a == attrs_of(tfa),
    {
        Self::from_file_attrs_ref(&tfa)
    }

    fn from_file_attrs_ref(tfa: &ThemeFileAttributes) -> (a: ThemeAttributes)
        ensures
            a == attrs_of(*tfa),
    {
        let fg = parse_opt_color(&tfa.fg);
        let bg = parse_opt_color(&tfa.bg);
        ThemeAttributes { fg, bg, bold: tfa.bold }
    }
}

impl Theme {
    /// The color of plain text.
    pub closed spec fn text_color(self) -> Color {
        self.fg
    }

    /// The color of the background.
    pub closed spec fn background(self) -> Color {
        self.bg
    }

    /// The color of the cursor.
    pub closed spec fn cursor_color(self) -> Color {
        self.cursor
    }

    /// How selected text is shown.
    pub closed spec fn selection_attrs(self) -> ThemeAttributes {
        self.selection
    }

    /// The attributes of a capture, if the theme highlights it.
    pub closed spec fn highlight(&self, c: Capture) -> Option<ThemeAttributes> {
        self.highlights@[c.spec_index()]
    }

    /// The default theme: light text on a dark background, and a color for
    /// each capture.
    pub fn new() -> (t: Theme)
        ensures
            t.text_color() == Color::spec_new(0xfd, 0xf4, 0xc1),
            t.background() == Color::spec_new(0x28, 0x28, 0x28),
            t.cursor_color() == Color::spec_new(0xfd, 0xf4, 0xc1),
            t.selection_attrs() == (ThemeAttributes {
                fg: None,
                bg: Some(Color::spec_new(0x4e, 0x4e, 0x4e)),
                bold: None,
            }),
            forall|c: Capture| #[trigger] t.highlight(c) == Some(ThemeAttributes {
                fg: Some(default_highlight(c)),
                bg: None,
                bold: None,
            }),
    {
        let highlights: [Option<ThemeAttributes>; 20] = [
            fg_only(0xfe, 0x80, 0x19),
            fg_only(0x7c, 0x6f, 0x64),
            fg_only(0xd3, 0x86, 0x9b),
            fg_only(0xfe, 0x80, 0x19),
            fg_only(0xd3, 0x86, 0x9b),
            fg_only(0x8e, 0xc0, 0x7c),
            fg_only(0xfa, 0xbd, 0x2f),
            fg_only(0xfe, 0x80, 0x19),
            fg_only(0xfa, 0xbd, 0x2f),
            fg_only(0xfb, 0x49, 0x33),
            fg_only(0x83, 0xa5, 0x98),
            fg_only(0xfd, 0xf4, 0xc1),
            fg_only(0x83, 0xa5, 0x98),
            fg_only(0xfd, 0xf4, 0xc1),
            fg_only(0xfd, 0xf4, 0xc1),
            fg_only(0xb8, 0xbb, 0x26),
            fg_only(0xd3, 0x86, 0x9b),
            fg_only(0xfe, 0x80, 0x19),
            fg_only(0xfe, 0x80, 0x19),
            fg_only(0x83, 0xa5, 0x98),
        ];
        let selection = ThemeAttributes { fg: None, bg: Some(Color::new(0x4e, 0x4e, 0x4e)), bold: None };
        let t = Theme {
            fg: Color::new(0xfd, 0xf4, 0xc1),
            bg: Color::new(0x28, 0x28, 0x28),
            selection,
            cursor: Color::new(0xfd, 0xf4, 0xc1),
            highlights,
        };
        assert forall|c: Capture| #[trigger] t.highlight(c) == Some(ThemeAttributes {
            fg: Some(default_highlight(c)),
            bg: None,
            bold: None,
        }) by {
            match c {
                Capture::Attribute => assert(highlights@[0] == highlights[0]),
                Capture::Comment => assert(highlights@[1] == highlights[1]),
                Capture::Constant => assert(highlights@[2] == highlights[2]),
                Capture::ConstantBuiltin => assert(highlights@[3] == highlights[3]),
                Capture::Constructor => assert(highlights@[4] == highlights[4]),
                Capture::Escape => assert(highlights@[5] == highlights[5]),
                Capture::Function => assert(highlights@[6] == highlights[6]),
                Capture::FunctionMacro => assert(highlights@[7] == highlights[7]),
                Capture::FunctionMethod => assert(highlights@[8] == highlights[8]),
                Capture::Keyword => assert(highlights@[9] == highlights[9]),
                Capture::Label => assert(highlights@[10] == highlights[10]),
                Capture::Operator => assert(highlights@[11] == highlights[11]),
                Capture::Property => assert(highlights@[12] == highlights[12]),
                Capture::PunctuationBracket => assert(highlights@[13] == highlights[13]),
                Capture::PunctuationDelimiter => assert(highlights@[14] == highlights[14]),
                Capture::String => assert(highlights@[15] == highlights[15]),
                Capture::Type => assert(highlights@[16] == highlights[16]),
                Capture::TypeBuiltin => assert(highlights@[17] == highlights[17]),
                Capture::VariableBuiltin => assert(highlights@[18] == highlights[18]),
                Capture::VariableParameter => assert(highlights@[19] == highlights[19]),
            }
        }
        t
    }

    /// The theme a theme file describes.  It fails when the text, background
    /// or cursor color does not parse.
    pub fn from_file(tf: ThemeFile) -> (r: Result<Theme, ParseColorError>)
        ensures
            r is Ok <==> (color_of(tf.fg@) is Some && color_of(tf.bg@) is Some && color_of(tf.cursor@) is Some),
            r matches Ok(t) ==> {
                &&& Some(t.text_color()) == color_of(tf.fg@)
                &&& Some(t.background()) == color_of(tf.bg@)
                &&& Some(t.cursor_color()) == color_of(tf.cursor@)
                &&& t.selection_attrs() == attrs_of(tf.selection)
                &&& forall|c: Capture| #[trigger] t.highlight(c) == highlights_after(tf.highlights@, tf.highlights@.len() as int)[c.spec_index()]
            },
    {
        let ThemeFile { fg, bg, cursor, selection, highlights: hs } = tf;
        let selection = ThemeAttributes::from_file_attrs(selection);
        let mut highlights: [Option<ThemeAttributes>; 20] = array_fill_for_copy_types(None);
        assert(highlights@ =~= highlights_after(hs@, 0));
        let mut k: usize = 0;
        while k < hs.len()
            invariant
                k <= hs@.len(),
                highlights@ == highlights_after(hs@, k as int),
            decreases hs@.len() - k,
        {
            let (name, attrs) = &hs[k];
            match Capture::from_name(name.as_str()) {
                Some(cap) => {
                    let a = ThemeAttributes::from_file_attrs_ref(attrs);
                    highlights[cap.index()] = Some(a);
                },
                None => {},
            }
            k = k + 1;
        }
        let fg = match Color::from_str(fg.as_str()) {
            Ok(c) => c,
            Err(e) => {
                return Err(e);
            },
        };
        let bg = match Color::from_str(bg.as_str()) {
            Ok(c) => c,
            Err(e) => {
                return Err(e);
            },
        };
        let cursor = match Color::from_str(cursor.as_str()) {
            Ok(c) => c,
            Err(e) => {
                return Err(e);
            },
        };
        Ok(Theme { fg, bg, cursor, selection, highlights })
    }

    /// How selected text is shown.
    pub(crate) fn selection_attributes(&self) -> (a: ThemeAttributes)
        ensures
            a == self.selection_attrs(),
    {
        self.selection
    }

    /// The attributes the theme gives a capture, if any.
    pub fn attributes(&self, c: Capture) -> (a: Option<ThemeAttributes>)
        ensures
            a == self.highlight(c),
    {
        self.highlights[c.index()]
    }
}

} // verus!
