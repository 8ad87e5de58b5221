use eddy::line_ending::normalize;

#[test]
fn test_to_lf() {
    assert_eq!(
        normalize("one\none\rone\r\nthree\r\r\n\none\r", "\n"),
        "one\none\none\nthree\n\n\none\n"
    );
}

use eddy::line_ending::{is_valid_cr, is_valid_crlf, is_valid_lf, LineEnding};

#[test]
fn text_without_carriage_returns_is_kept_whatever_the_ending() {
    assert_eq!(normalize("a\nb\n", "\r\n"), "a\nb\n");
    assert_eq!(LineEnding::CR.normalize("a\nb"), "a\nb");
}

#[test]
fn normalising_to_lf_leaves_no_carriage_return_and_is_stable() {
    let once = normalize("x\r\ny\rz\r\r\n", "\n");
    assert_eq!(once, "x\ny\nz\n\n");
    assert!(is_valid_lf(&once));
    assert_eq!(normalize(&once, "\n"), once);
}

#[test]
fn normalising_to_cr_and_crlf() {
    assert_eq!(LineEnding::CR.normalize("a\r\nb\rc"), "a\rb\rc");
    assert_eq!(LineEnding::CRLF.normalize("a\r\nb\rc"), "a\r\nb\r\nc");
    assert_eq!(LineEnding::LF.normalize("a\r\nb\rc"), "a\nb\nc");
}

#[test]
fn well_paired_crlf_text_is_kept() {
    let s = "one\r\ntwo\r\n";
    assert!(is_valid_crlf(s));
    assert_eq!(normalize(s, "\r\n"), s);
}

#[test]
fn a_lone_carriage_return_passes_the_crlf_check_but_is_expanded() {
    assert!(is_valid_crlf("a\rb"));
    assert_eq!(normalize("a\rb", "\r\n"), "a\r\nb");
}

#[test]
fn line_ending_checks() {
    assert!(is_valid_lf("a\nb"));
    assert!(!is_valid_lf("a\r\nb"));
    assert!(is_valid_cr("a\rb"));
    assert!(!is_valid_cr("a\nb"));
    assert!(!is_valid_crlf("a\nb"));
    assert!(!is_valid_crlf("a\r"));
    assert!(is_valid_crlf(""));
}

use eddy::line_ending::Normalized;

fn drain(mut n: Normalized) -> String {
    let mut out = String::new();
    while let Some(c) = n.next() {
        out.push(c);
    }
    out
}

#[test]
fn normalized_hands_out_the_lf_normalised_chars() {
    assert_eq!(drain(Normalized::new("one\none\rone\r\nthree\r\r\n\none\r")), "one\none\none\nthree\n\n\none\n");
    assert_eq!(drain(Normalized::new("a\r\n")), "a\n");
    assert_eq!(drain(Normalized::new("")), "");
}

#[test]
fn normalized_keeps_returning_none_at_the_end() {
    let mut n = Normalized::new("x");
    assert_eq!(n.next(), Some('x'));
    assert_eq!(n.next(), None);
    assert_eq!(n.next(), None);
}
