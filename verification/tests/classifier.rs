use createnv::classifier::{
    classify, is_auto_generated_variable, is_random_variable, is_valid_name, Classification,
};
use createnv::confirm::overwrite_answer;
use createnv::text::{is_whitespace_char, lines, number_text, to_chars, trimmed};

fn simple(name: &str, default: Option<&str>, help: Option<&str>) -> Classification {
    Classification::Simple {
        name: name.to_string(),
        default: default.map(|s| s.to_string()),
        help: help.map(|s| s.to_string()),
    }
}

#[test]
fn names_start_with_a_capital_letter() {
    assert!(is_valid_name("A"));
    assert!(is_valid_name("Z9_"));
    assert!(!is_valid_name(""));
    assert!(!is_valid_name("_A"));
    assert!(!is_valid_name("9A"));
    assert!(!is_valid_name("aB"));
    assert!(!is_valid_name("A b"));
    assert!(!is_valid_name("AÉ"));
    assert!(!is_valid_name("A="));
}

#[test]
fn pattern_holds_a_placeholder_with_a_valid_name() {
    assert!(is_auto_generated_variable("{A}"));
    assert!(is_auto_generated_variable("{a} {B}"));
    assert!(is_auto_generated_variable("{{A}"));
    assert!(is_auto_generated_variable("}{A_1}{"));
    assert!(!is_auto_generated_variable("{}"));
    assert!(!is_auto_generated_variable("{A"));
    assert!(!is_auto_generated_variable("A}"));
    assert!(!is_auto_generated_variable("{A B}"));
    assert!(!is_auto_generated_variable("{1A}"));
    assert!(!is_auto_generated_variable(""));
}

#[test]
fn random_request_names_an_optional_length() {
    assert_eq!(is_random_variable("<random:0>"), (true, Some(0)));
    assert_eq!(is_random_variable("<random:007>"), (true, Some(7)));
    assert_eq!(is_random_variable("<random:+12>"), (false, None));
    assert_eq!(is_random_variable("<random:+5>"), (false, None));
    assert_eq!(is_random_variable("<random:5>"), (true, Some(5)));
    assert_eq!(
        is_random_variable(&format!("<random:{}>", usize::MAX)),
        (true, Some(usize::MAX))
    );
    assert_eq!(
        is_random_variable(&format!("<random:{}0>", usize::MAX)),
        (false, None)
    );
    assert_eq!(
        is_random_variable("<random:99999999999999999999999999>"),
        (false, None)
    );
    assert_eq!(is_random_variable("<random:>"), (false, None));
    assert_eq!(is_random_variable("<random:+>"), (false, None));
    assert_eq!(is_random_variable("<random:-1>"), (false, None));
    assert_eq!(is_random_variable("<random:1 >"), (false, None));
    assert_eq!(is_random_variable("<random 1>"), (false, None));
    assert_eq!(is_random_variable("<random"), (false, None));
    assert_eq!(is_random_variable("<Random>"), (false, None));
    assert_eq!(is_random_variable(" <random>"), (false, None));
    assert_eq!(is_random_variable("<random>>"), (false, None));
    assert_eq!(is_random_variable(""), (false, None));
}

#[test]
fn line_is_split_at_the_first_equal_sign_and_help_mark() {
    assert_eq!(classify("A="), simple("A", None, None));
    assert_eq!(classify("A=b"), simple("A", Some("b"), None));
    assert_eq!(classify("A=b=c"), simple("A", Some("b=c"), None));
    assert_eq!(
        classify("NAME=  # What's your name?"),
        simple("NAME", None, Some("What's your name?"))
    );
    assert_eq!(
        classify("A=True  # one  # two"),
        simple("A", Some("True"), Some("one  # two"))
    );
    assert_eq!(classify("A=b # c"), simple("A", Some("b # c"), None));
    assert_eq!(classify("A=b  #c"), simple("A", Some("b  #c"), None));
    assert_eq!(classify("A= b "), simple("A", Some(" b "), None));
    assert_eq!(classify("A=  # "), simple("A", None, Some("")));
}

#[test]
fn random_request_comes_before_pattern_and_default() {
    assert_eq!(
        classify("K=<random:16>"),
        Classification::Random {
            name: "K".to_string(),
            length: Some(16)
        }
    );
    assert_eq!(
        classify("K=<random>  # {A}"),
        Classification::Random {
            name: "K".to_string(),
            length: None
        }
    );
    assert_eq!(
        classify("G=Hello, {NAME}!  # help"),
        Classification::AutoGenerated {
            name: "G".to_string(),
            pattern: "Hello, {NAME}!".to_string()
        }
    );
    assert_eq!(
        classify("G=<random:x>{A}"),
        Classification::AutoGenerated {
            name: "G".to_string(),
            pattern: "<random:x>{A}".to_string()
        }
    );
    assert_eq!(classify("G=<random:x>"), simple("G", Some("<random:x>"), None));
}

#[test]
fn line_without_a_valid_name_before_the_equal_sign_is_malformed() {
    assert_eq!(classify(""), Classification::Malformed);
    assert_eq!(classify("A"), Classification::Malformed);
    assert_eq!(classify("=A"), Classification::Malformed);
    assert_eq!(classify("A =b"), Classification::Malformed);
    assert_eq!(classify("a=b"), Classification::Malformed);
    assert_eq!(classify("# A=b"), Classification::Malformed);
}

#[test]
fn trimming_removes_whitespace_at_both_ends() {
    let trim = |s: &str| -> String { trimmed(&to_chars(s)).into_iter().collect() };
    assert_eq!(trim("  a b \t\r\n"), "a b");
    assert_eq!(trim("\u{a0}\u{2003}x\u{3000}\u{85}"), "x");
    assert_eq!(trim(" \n "), "");
    assert_eq!(trim(""), "");
    assert_eq!(trim("\u{200b}"), "\u{200b}");
    for c in ['\u{0}', ' ', '\t', '\n', '\u{b}', '\u{c}', '\r', '\u{1c}', '\u{85}', '\u{a0}',
        '\u{1680}', '\u{180e}', '\u{2000}', '\u{200a}', '\u{200b}', '\u{2028}', '\u{2029}',
        '\u{202f}', '\u{205f}', '\u{2060}', '\u{3000}', '\u{feff}', 'a', '#']
    {
        assert_eq!(is_whitespace_char(c), c.is_whitespace());
    }
}

#[test]
fn text_is_split_at_line_feeds() {
    assert_eq!(lines(""), Vec::<String>::new());
    assert_eq!(lines("a"), vec!["a".to_string()]);
    assert_eq!(lines("a\n"), vec!["a".to_string()]);
    assert_eq!(lines("\n"), vec!["".to_string()]);
    assert_eq!(
        lines("a\n\nb\r\nc"),
        vec!["a".to_string(), "".to_string(), "b\r".to_string(), "c".to_string()]
    );
}

#[test]
fn numbers_are_written_in_base_ten() {
    assert_eq!(number_text(0), "0");
    assert_eq!(number_text(7), "7");
    assert_eq!(number_text(10), "10");
    assert_eq!(number_text(1234567890), "1234567890");
    assert_eq!(number_text(usize::MAX), format!("{}", usize::MAX));
}

#[test]
fn overwriting_is_allowed_by_yes_and_refused_by_no() {
    assert_eq!(overwrite_answer("y\n"), Some(true));
    assert_eq!(overwrite_answer("  YeS  "), Some(true));
    assert_eq!(overwrite_answer("Y"), Some(true));
    assert_eq!(overwrite_answer("n"), Some(false));
    assert_eq!(overwrite_answer("NO\r\n"), Some(false));
    assert_eq!(overwrite_answer(""), None);
    assert_eq!(overwrite_answer("ye"), None);
    assert_eq!(overwrite_answer("yess"), None);
    assert_eq!(overwrite_answer("y e s"), None);
    assert_eq!(overwrite_answer("nope"), None);
    assert_eq!(overwrite_answer("on"), None);
}
