//! Colors, highlight captures, text attributes and themes.
use vstd::prelude::*;
use vstd::string::is_ascii;
use crate::text::str_eq;

verus! {

/// The error of parsing a color.
#[derive(Debug, Copy, Clone, PartialEq, Eq, Structural)]
pub struct ParseColorError;

/// An RGB color, 8 bits a channel.
#[derive(Clone, Copy, Debug, PartialEq, Eq, Structural, Hash)]
pub struct Color {
    r: u8,
    g: u8,
    b: u8,
}

/// The value of an optional sign followed by hex digits, for two chars.
pub open spec fn hex_digit(c: char) -> Option<int> {
    if '0' <= c <= '9' {
        Some(c as int - '0' as int)
    } else if 'a' <= c <= 'f' {
        Some(c as int - 'a' as int + 10)
    } else if 'A' <= c <= 'F' {
        Some(c as int - 'A' as int + 10)
    } else {
        None
    }
}

/// What `i64::from_str_radix` gives for a two-char string in base 16: two
/// hex digits, or a sign and one hex digit.
pub open spec fn hex_pair(p: Seq<char>) -> Option<int> {
    if p.len() != 2 {
        None
    } else {
        match (hex_digit(p[0]), hex_digit(p[1])) {
            (Some(a), Some(b)) => Some(16 * a + b),
            (None, Some(b)) => if p[0] == '+' {
                Some(b)
            } else if p[0] == '-' {
                Some(-b)
            } else {
                None
            },
            _ => None,
        }
    }
}

/// A channel of a color written as two chars: the low 8 bits of their
/// value, 0 when they do not parse.
pub open spec fn channel(p: Seq<char>) -> u8 {
    match hex_pair(p) {
        Some(v) => if v < 0 {
            (v + 256) as u8
        } else {
            v as u8
        },
        None => 0,
    }
}

/// Whether `#rrggbb` text parses as a color: seven chars that are seven
/// bytes (that is, all ASCII), and a leading `#`.
pub open spec fn color_syntax_ok(s: &str) -> bool {
    is_ascii(s) && s@.len() == 7 && s@[0] == '#'
}

/// The value of a hex digit, either case.
fn hex_digit_value(c: char) -> (v: Option<i64>)
    ensures
        v matches Some(x) ==> hex_digit(c) == Some(x as int),
        v is None ==> hex_digit(c) is None,
{
    if '0' <= c && c <= '9' {
        Some((c as u32 - '0' as u32) as i64)
    } else if 'a' <= c && c <= 'f' {
        Some((c as u32 - 'a' as u32 + 10) as i64)
    } else if 'A' <= c && c <= 'F' {
        Some((c as u32 - 'A' as u32 + 10) as i64)
    } else {
        None
    }
}

/// A two-char `p` read in base 16 the way `i64::from_str_radix(p, 16)`
/// reads it: an optional `+` or `-` followed by hex digits.
fn parse_hex_pair(p: &str) -> (r: Option<i64>)
    requires
        p@.len() == 2,
    ensures
        r matches Some(v) ==> hex_pair(p@) == Some(v as int),
        r is None ==> hex_pair(p@) is None,
{
    let a = p.get_char(0);
    let b = p.get_char(1);
    match (hex_digit_value(a), hex_digit_value(b)) {
        (Some(x), Some(y)) => Some(16 * x + y),
        (None, Some(y)) => {
            if a == '+' {
                Some(y)
            } else if a == '-' {
                Some(-y)
            } else {
                None
            }
        },
        _ => None,
    }
}

fn channel_of(p: &str) -> (c: u8)
    requires
        p@.len() == 2,
    ensures
        c == channel(p@),
{
    match parse_hex_pair(p) {
        Some(v) => {
            if v < 0 {
                (v + 256) as u8
            } else {
                v as u8
            }
        },
        None => 0,
    }
}

impl Color {
    pub closed spec fn red(self) -> u8 {
        self.r
    }

    pub closed spec fn green(self) -> u8 {
        self.g
    }

    pub closed spec fn blue(self) -> u8 {
        self.b
    }

    pub closed spec fn spec_new(r: u8, g: u8, b: u8) -> Color {
        Color { r, g, b }
    }

    /// A color is its three channels.
    pub proof fn lemma_channels(r: u8, g: u8, b: u8, c: Color)
        ensures
            Color::spec_new(r, g, b).red() == r,
            Color::spec_new(r, g, b).green() == g,
            Color::spec_new(r, g, b).blue() == b,
            c == Color::spec_new(c.red(), c.green(), c.blue()),
    {
    }

    /// Black.
    pub fn black() -> (c: Color)
        ensures
            c == Color::spec_new(0, 0, 0),
    {
        Color { r: 0, g: 0, b: 0 }
    }

    /// The color with these channels.
    pub fn new(r: u8, g: u8, b: u8) -> (c: Color)
        ensures
            c == Color::spec_new(r, g, b),
    {
        Color { r, g, b }
    }

    pub fn r_u8(&self) -> (v: u8)
        ensures
            v == self.red(),
    {
        self.r
    }

    pub fn g_u8(&self) -> (v: u8)
        ensures
            v == self.green(),
    {
        self.g
    }

    pub fn b_u8(&self) -> (v: u8)
        ensures
            v == self.blue(),
    {
        self.b
    }

    /// The red channel scaled to 16 bits.
    pub fn r_u16(&self) -> (v: u16)
        ensures
            v == self.red() * 256,
    {
        (self.r as u16) * 256
    }

    /// The green channel scaled to 16 bits.
    pub fn g_u16(&self) -> (v: u16)
        ensures
            v == self.green() * 256,
    {
        (self.g as u16) * 256
    }

    /// The blue channel scaled to 16 bits.
    pub fn b_u16(&self) -> (v: u16)
        ensures
            v == self.blue() * 256,
    {
        (self.b as u16) * 256
    }

    /// Parses `#rrggbb`.  A channel whose two chars are not hex digits (an
    /// optional sign and one digit count too) is 0.
    pub fn from_str(s: &str) -> (r: Result<Color, ParseColorError>)
        ensures
            r is Err <==> !color_syntax_ok(s),
            r matches Ok(c) ==> c == Color::spec_new(
                channel(s@.subrange(1, 3)),
                channel(s@.subrange(3, 5)),
                channel(s@.subrange(5, 7)),
            ),
            r matches Ok(c) ==> crate::theme::color_of(s@) == Some(c),
            r is Err ==> crate::theme::color_of(s@) is None,
    {
        if !s.is_ascii() || s.unicode_len() != 7 {
            return Err(ParseColorError);
        }
        if s.get_char(0) != '#' {
            return Err(ParseColorError);
        }
        let r = channel_of(s.substring_char(1, 3));
        let g = channel_of(s.substring_char(3, 5));
        let b = channel_of(s.substring_char(5, 7));
        Ok(Color { r, g, b })
    }
}

impl std::str::FromStr for Color {
    type Err = ParseColorError;

    /// Parses `#rrggbb` as `Color::from_str` does.
    fn from_str(s: &str) -> (r: Result<Color, ParseColorError>)
        ensures
            r is Err <==> !color_syntax_ok(s),
            r matches Ok(c) ==> c == Color::spec_new(
                channel(s@.subrange(1, 3)),
                channel(s@.subrange(3, 5)),
                channel(s@.subrange(5, 7)),
            ),
    {
        Color::from_str(s)
    }
}

/// An attribute of a span of text.
#[derive(Copy, Clone, Debug, PartialEq, Eq, Structural, Hash)]
pub enum Attr {
    ForegroundColor(Color),
    BackgroundColor(Color),
}

/// An attribute over a span of a line.
#[derive(Copy, Clone, Debug, PartialEq, Eq, Structural, Hash)]
pub struct AttrSpan {
    pub attr: Attr,
    /// in bytes
    pub start_idx: usize,
    /// in bytes.  The character at this index is not included
    pub end_idx: usize,
}

/// The kinds of syntax that highlighting distinguishes.
#[derive(Debug, Copy, Clone, PartialEq, Eq, Structural, Hash)]
pub enum Capture {
    Attribute,
    Comment,
    Constant,
    ConstantBuiltin,
    Constructor,
    Escape,
    Function,
    FunctionMacro,
    FunctionMethod,
    Keyword,
    Label,
    Operator,
    Property,
    PunctuationBracket,
    PunctuationDelimiter,
    String,
    Type,
    TypeBuiltin,
    VariableBuiltin,
    VariableParameter,
}

/// The capture a highlight query name stands for.
pub open spec fn capture_named(name: Seq<char>) -> Option<Capture> {
    if name == "attribute"@ {
        Some(Capture::Attribute)
    } else if name == "comment"@ {
        Some(Capture::Comment)
    } else if name == "constant"@ {
        Some(Capture::Constant)
    } else if name == "constant.builtin"@ {
        Some(Capture::ConstantBuiltin)
    } else if name == "constructor"@ {
        Some(Capture::Constructor)
    } else if name == "escape"@ {
        Some(Capture::Escape)
    } else if name == "function"@ {
        Some(Capture::Function)
    } else if name == "function.macro"@ {
        Some(Capture::FunctionMacro)
    } else if name == "function.method"@ {
        Some(Capture::FunctionMethod)
    } else if name == "keyword"@ {
        Some(Capture::Keyword)
    } else if name == "label"@ {
        Some(Capture::Label)
    } else if name == "operator"@ {
        Some(Capture::Operator)
    } else if name == "property"@ {
        Some(Capture::Property)
    } else if name == "punctuation.bracket"@ {
        Some(Capture::PunctuationBracket)
    } else if name == "punctuation.delimiter"@ {
        Some(Capture::PunctuationDelimiter)
    } else if name == "string"@ {
        Some(Capture::String)
    } else if name == "type"@ {
        Some(Capture::Type)
    } else if name == "type.builtin"@ {
        Some(Capture::TypeBuiltin)
    } else if name == "variable.builtin"@ {
        Some(Capture::VariableBuiltin)
    } else if name == "variable.parameter"@ {
        Some(Capture::VariableParameter)
    } else {
        None
    }
}

impl Capture {
    /// The capture of a highlight query name; `None` for names not
    /// highlighted.
    pub fn from_name(name: &str) -> (c: Option<Capture>)
        ensures
            c == capture_named(name@),
    {
        if str_eq(name, "attribute") {
            Some(Capture::Attribute)
        } else if str_eq(name, "comment") {
            Some(Capture::Comment)
        } else if str_eq(name, "constant") {
            Some(Capture::Constant)
        } else if str_eq(name, "constant.builtin") {
            Some(Capture::ConstantBuiltin)
        } else if str_eq(name, "constructor") {
            Some(Capture::Constructor)
        } else if str_eq(name, "escape") {
            Some(Capture::Escape)
        } else if str_eq(name, "function") {
            Some(Capture::Function)
        } else if str_eq(name, "function.macro") {
            Some(Capture::FunctionMacro)
        } else if str_eq(name, "function.method") {
            Some(Capture::FunctionMethod)
        } else if str_eq(name, "keyword") {
            Some(Capture::Keyword)
        } else if str_eq(name, "label") {
            Some(Capture::Label)
        } else if str_eq(name, "operator") {
            Some(Capture::Operator)
        } else if str_eq(name, "property") {
            Some(Capture::Property)
        } else if str_eq(name, "punctuation.bracket") {
            Some(Capture::PunctuationBracket)
        } else if str_eq(name, "punctuation.delimiter") {
            Some(Capture::PunctuationDelimiter)
        } else if str_eq(name, "string") {
            Some(Capture::String)
        } else if str_eq(name, "type") {
            Some(Capture::Type)
        } else if str_eq(name, "type.builtin") {
            Some(Capture::TypeBuiltin)
        } else if str_eq(name, "variable.builtin") {
            Some(Capture::VariableBuiltin)
        } else if str_eq(name, "variable.parameter") {
            Some(Capture::VariableParameter)
        } else {
            None
        }
    }

    /// The position of the capture in the list of captures.
    pub open spec fn spec_index(self) -> int {
        match self {
            Capture::Attribute => 0,
            Capture::Comment => 1,
            Capture::Constant => 2,
            Capture::ConstantBuiltin => 3,
            Capture::Constructor => 4,
            Capture::Escape => 5,
            Capture::Function => 6,
            Capture::FunctionMacro => 7,
            Capture::FunctionMethod => 8,
            Capture::Keyword => 9,
            Capture::Label => 10,
            Capture::Operator => 11,
            Capture::Property => 12,
            Capture::PunctuationBracket => 13,
            Capture::PunctuationDelimiter => 14,
            Capture::String => 15,
            Capture::Type => 16,
            Capture::TypeBuiltin => 17,
            Capture::VariableBuiltin => 18,
            Capture::VariableParameter => 19,
        }
    }

    pub(crate) fn index(&self) -> (i: usize)
        ensures
            i == self.spec_index(),
    {
        match self {
            Capture::Attribute => 0,
            Capture::Comment => 1,
            Capture::Constant => 2,
            Capture::ConstantBuiltin => 3,
            Capture::Constructor => 4,
            Capture::Escape => 5,
            Capture::Function => 6,
            Capture::FunctionMacro => 7,
            Capture::FunctionMethod => 8,
            Capture::Keyword => 9,
            Capture::Label => 10,
            Capture::Operator => 11,
            Capture::Property => 12,
            Capture::PunctuationBracket => 13,
            Capture::PunctuationDelimiter => 14,
            Capture::String => 15,
            Capture::Type => 16,
            Capture::TypeBuiltin => 17,
            Capture::VariableBuiltin => 18,
            Capture::VariableParameter => 19,
        }
    }
}

} // verus!
