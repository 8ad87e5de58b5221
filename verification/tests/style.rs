use eddy::highlight::SyntaxNode;
use eddy::buffer::Buffer;
use eddy::style::{Attr, AttrSpan, Capture, Color, ParseColorError};
use eddy::theme::{Theme, ThemeAttributes, ThemeFile, ThemeFileAttributes};
use eddy::Selection;

#[test]
fn colors_parse_from_hex() {
    let c = Color::from_str("#ff8001").unwrap();
    assert_eq!((c.r_u8(), c.g_u8(), c.b_u8()), (255, 128, 1));
    assert_eq!((c.r_u16(), c.g_u16(), c.b_u16()), (65280, 32768, 256));
    assert_eq!(Color::from_str("#FFaa00").unwrap(), Color::new(255, 170, 0));
}

#[test]
fn a_sign_and_one_digit_make_a_channel_and_other_pairs_make_zero() {
    assert_eq!(Color::from_str("#+1-1zz").unwrap(), Color::new(1, 255, 0));
}

#[test]
fn malformed_colors_are_refused() {
    assert_eq!(Color::from_str("ff8001"), Err(ParseColorError));
    assert_eq!(Color::from_str("#ff80"), Err(ParseColorError));
    assert_eq!(Color::from_str("#ff80011"), Err(ParseColorError));
    assert_eq!(Color::from_str("#\u{e9}f8001"), Err(ParseColorError));
}

#[test]
fn capture_names() {
    assert_eq!(Capture::from_name("function.macro"), Some(Capture::FunctionMacro));
    assert_eq!(Capture::from_name("variable.parameter"), Some(Capture::VariableParameter));
    assert_eq!(Capture::from_name("nope"), None);
}

#[test]
fn the_default_theme() {
    let t = Theme::new();
    assert_eq!(t.fg, Color::new(0xfd, 0xf4, 0xc1));
    assert_eq!(t.bg, Color::new(0x28, 0x28, 0x28));
    assert_eq!(t.cursor, Color::new(0xfd, 0xf4, 0xc1));
    assert_eq!(t.selection.bg, Some(Color::new(0x4e, 0x4e, 0x4e)));
    assert_eq!(t.attributes(Capture::Keyword).unwrap().fg, Some(Color::new(0xfb, 0x49, 0x33)));
    assert_eq!(t.attributes(Capture::String).unwrap().fg, Some(Color::new(0xb8, 0xbb, 0x26)));
}

fn attrs(fg: Option<&str>) -> ThemeFileAttributes {
    ThemeFileAttributes { fg: fg.map(|s| s.to_string()), bg: None, bold: Some(true) }
}

fn theme_file(fg: &str) -> ThemeFile {
    ThemeFile {
        fg: fg.to_string(),
        bg: "#000000".to_string(),
        cursor: "#ffffff".to_string(),
        selection: attrs(Some("#010203")),
        highlights: vec![
            ("keyword".to_string(), attrs(Some("#102030"))),
            ("nonsense".to_string(), attrs(Some("#405060"))),
            ("comment".to_string(), attrs(Some("bad"))),
        ],
    }
}

#[test]
fn a_theme_from_a_theme_file() {
    let t = Theme::from_file(theme_file("#0a0b0c")).unwrap();
    assert_eq!(t.fg, Color::new(10, 11, 12));
    assert_eq!(t.selection.fg, Some(Color::new(1, 2, 3)));
    assert_eq!(
        t.attributes(Capture::Keyword),
        Some(ThemeAttributes { fg: Some(Color::new(16, 32, 48)), bg: None, bold: Some(true) })
    );
    assert_eq!(t.attributes(Capture::Comment), Some(ThemeAttributes { fg: None, bg: None, bold: Some(true) }));
    assert_eq!(t.attributes(Capture::Label), None);
}

#[test]
fn a_theme_file_with_a_bad_text_color_is_refused() {
    assert_eq!(Theme::from_file(theme_file("red")).err(), Some(ParseColorError));
}

#[test]
fn a_line_with_its_highlights_and_selection() {
    let mut buf = Buffer::from_text(0, "let x;\nab");
    buf.init_view(0);
    buf.replace_selections(0, &[Selection { start: 4, end: 8, horiz: None }]);
    let theme = Theme::new();
    let nodes = [
        SyntaxNode { start_byte: 0, end_byte: 3, capture: Some(Capture::Keyword) },
        SyntaxNode { start_byte: 7, end_byte: 9, capture: Some(Capture::String) },
        SyntaxNode { start_byte: 3, end_byte: 5, capture: None },
    ];
    let (line, spans) = buf.get_line_with_attributes(0, 0, &theme, &nodes).unwrap();
    assert_eq!(line, "let x;");
    assert_eq!(
        spans,
        vec![
            AttrSpan { attr: Attr::ForegroundColor(Color::new(0xfb, 0x49, 0x33)), start_idx: 0, end_idx: 3 },
            AttrSpan { attr: Attr::BackgroundColor(Color::new(0x4e, 0x4e, 0x4e)), start_idx: 4, end_idx: 7 },
        ]
    );
    let (line, spans) = buf.get_line_with_attributes(0, 1, &theme, &nodes).unwrap();
    assert_eq!(line, "ab");
    assert_eq!(
        spans,
        vec![
            AttrSpan { attr: Attr::ForegroundColor(Color::new(0xb8, 0xbb, 0x26)), start_idx: 0, end_idx: 2 },
            AttrSpan { attr: Attr::BackgroundColor(Color::new(0x4e, 0x4e, 0x4e)), start_idx: 0, end_idx: 1 },
        ]
    );
    assert!(buf.get_line_with_attributes(0, 2, &theme, &nodes).is_none());
}

#[test]
fn colors_parse_through_from_str_too() {
    let c: Color = "#102030".parse().unwrap();
    assert_eq!(c, Color::new(16, 32, 48));
    assert!("102030".parse::<Color>().is_err());
    assert_eq!(Color::black(), Color::new(0, 0, 0));
}

#[test]
fn channels_read_as_i64_from_str_radix_reads_them() {
    let cs = ['0', '7', '9', 'a', 'f', 'A', 'F', 'g', 'G', '+', '-', ' ', 'z'];
    for a in cs {
        for b in cs {
            let pair: String = [a, b].iter().collect();
            let want = i64::from_str_radix(&pair, 16).map(|v| v as u8).unwrap_or(0);
            let c = Color::from_str(&format!("#{}0000", pair)).unwrap();
            assert_eq!(c.r_u8(), want, "pair {:?}", pair);
        }
    }
}

#[test]
fn a_signed_upper_case_digit_and_a_doubled_sign() {
    assert_eq!(Color::from_str("#++-Ff0").unwrap(), Color::new(0, 241, 240));
}
