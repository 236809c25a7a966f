use autotyper::numbers::{float_text_valid, parse_i64};
use autotyper::screen::{handles_console_event, point_at_screen_corner, POINT};
use autotyper::text::{decimal_string, text_is_blank, trim_text};

#[test]
fn trim_matches_std() {
    for s in ["", " ", " a ", "\u{3000}x\u{2029}", "a b", "\t\n", "\u{85}z\u{a0}", "x\u{200b}"] {
        assert_eq!(trim_text(s), s.trim());
        assert_eq!(text_is_blank(s), s.trim().is_empty());
    }
}

#[test]
fn decimal_numerals() {
    assert_eq!(decimal_string(0), "0");
    assert_eq!(decimal_string(7), "7");
    assert_eq!(decimal_string(1234567890), "1234567890");
    assert_eq!(decimal_string(u128::MAX), u128::MAX.to_string());
}

#[test]
fn integer_parsing_matches_std() {
    for s in ["0", "-0", "+5", "-9223372036854775808", "9223372036854775807", "9223372036854775808", "", "-", "1 ", "١"] {
        assert_eq!(parse_i64(s), s.parse::<i64>().ok(), "{s}");
    }
}

#[test]
fn float_grammar_matches_std() {
    for s in [
        "0", "1.", ".1", "1.5", "-1.5e-3", "+inf", "INF", "Infinity", "nan", "-NaN", "1e+9",
        ".", "e", "1e", "1e+", "--1", "1..2", "inf1", "1 ", "0x1", "1f", "١",
    ] {
        assert_eq!(float_text_valid(s), s.parse::<f64>().is_ok(), "{s}");
    }
}

#[test]
fn screen_corners() {
    let p = |x, y| POINT { x, y };
    assert!(point_at_screen_corner(p(0, 0), 1920, 1080, 2));
    assert!(point_at_screen_corner(p(1919, 1079), 1920, 1080, 2));
    assert!(point_at_screen_corner(p(1917, 2), 1920, 1080, 2));
    assert!(!point_at_screen_corner(p(1916, 0), 1920, 1080, 2));
    assert!(!point_at_screen_corner(p(960, 540), 1920, 1080, 2));
    assert!(!point_at_screen_corner(p(0, 0), 0, 1080, 2));
    assert!(!point_at_screen_corner(p(i32::MIN, i32::MIN), 1920, 1080, i32::MAX));
    assert!(point_at_screen_corner(p(-1, -2), 1920, 1080, 2));
}

#[test]
fn console_events() {
    assert!(handles_console_event(0));
    assert!(!handles_console_event(1));
    assert!(!handles_console_event(2));
}
