use domain_watch::text::{
    decimal_text, drop_escapes, has_char, join_with, last_piece, signed_decimal_text, split_non_empty, trim_back,
    trim_text,
};

#[test]
fn numbers_in_decimal() {
    assert_eq!(decimal_text(0), "0");
    assert_eq!(decimal_text(1234567), "1234567");
    assert_eq!(decimal_text(u128::MAX), u128::MAX.to_string());
    assert_eq!(signed_decimal_text(-5), "-5");
    assert_eq!(signed_decimal_text(i32::MIN), i32::MIN.to_string());
    assert_eq!(signed_decimal_text(42), "42");
}

#[test]
fn pieces_split_and_join() {
    assert_eq!(split_non_empty(",a,,bc,", ','), vec!["a", "bc"]);
    let pieces = vec!["a".to_string(), "bc".to_string()];
    assert_eq!(join_with(&pieces, ","), "a,bc");
    assert_eq!(join_with(&Vec::new(), ","), "");
    assert_eq!(last_piece("a:b:c", ':'), "c");
    assert_eq!(last_piece("abc", ':'), "abc");
}

#[test]
fn trimming_ends() {
    assert_eq!(trim_text("\u{3000} x y \n", false), "x y");
    assert_eq!(trim_text("..x.y..", true), "x.y");
    assert_eq!(trim_text("...", true), "");
}

#[test]
fn trimming_the_back_only() {
    assert_eq!(trim_back("..x..", true), "..x");
    assert_eq!(trim_back(" x \t", false), " x");
}

#[test]
fn escapes_and_characters() {
    assert_eq!(drop_escapes("\u{1b}[1mbold\u{1b}"), "[1mbold");
    assert!(has_char("a\0b", '\0'));
    assert!(!has_char("ab", '\0'));
}
