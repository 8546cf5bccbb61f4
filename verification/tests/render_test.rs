use acb::portfolio::render::{wrap_str_to_width, PrintHelper};
use acb::util::decimal::Dec;

fn d(s: &str) -> Dec {
    Dec::parse(s).unwrap()
}

#[test]
fn test_wrap_str_to_width() {
    assert_eq!(wrap_str_to_width("", 10).as_str(), "");
    assert_eq!(wrap_str_to_width("Bla", 10).as_str(), "Bla");
    assert_eq!(wrap_str_to_width("  Bla  ", 10).as_str(), "  Bla  ");
    assert_eq!(wrap_str_to_width("Bla\n  ", 10).as_str(), "Bla\n  ");
    assert_eq!(wrap_str_to_width("Bla\nbla", 10).as_str(), "Bla\nbla");

    assert_eq!(wrap_str_to_width("Verylongword\nbla", 5).as_str(), "Verylongword\nbla");
    assert_eq!(wrap_str_to_width("Verylongword bla", 5).as_str(), "Verylongword\nbla");
    assert_eq!(wrap_str_to_width("Bla Verylongword", 5).as_str(), "Bla\nVerylongword");
    assert_eq!(wrap_str_to_width("Bla1 bla2 bla3 bla4", 10).as_str(), "Bla1 bla2\nbla3 bla4");
}

#[test]
fn test_print_helper_dollars() {
    let ph = PrintHelper::new(false, false);
    assert_eq!(ph.dollar_str(d("1.5")), "$1.50");
    assert_eq!(ph.opt_dollar_str(None), "-");
    assert_eq!(ph.plus_minus_dollar(d("-2.25"), true), "-$2.25");
    assert_eq!(ph.plus_minus_dollar(d("2.25"), true), "+$2.25");
    assert_eq!(ph.plus_minus_dollar(d("2.25"), false), "$2.25");

    let full = PrintHelper::new(true, true);
    assert_eq!(full.dollar_str(d("1.23456")), "$1.23456");
    assert_eq!(full.opt_dollar_str(None), "None");
    assert_eq!(full.plus_minus_opt_dollar(None, true), "None");
}

#[test]
fn test_wrapped_lines_fit_width() {
    let inputs = [
        ("Automatic SfL ACB adjustment. 100.00% (6/6) of SfL", 12),
        ("a b c d e f g h i j k", 3),
        ("short\nand a much longer line here\n\nend", 8),
        ("Averyveryverylongword and more", 6),
    ];
    for (s, w) in inputs {
        let out = wrap_str_to_width(s, w);
        for line in out.split('\n') {
            assert!(line.len() <= w || !line.contains(' '), "{:?} in {:?}", line, out);
        }
    }
}
