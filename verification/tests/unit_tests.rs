//! Tests of the element table, element lists, pruning and line parsing.

use bse::error::BseError;
use bse::fields::BseElectronShell;
use bse::lut::element_data_from_Z;
use bse::manip::prune_shell;
use bse::misc::expand_elements;
use bse::readers::helpers::{parse_line_regex, parse_line_regex_dict};

#[test]
fn test_element_z_map() {
    println!("{:?}", element_data_from_Z(118));
}

#[test]
fn test_prune_shell() {
    let shell = BseElectronShell {
        function_type: "gto".to_string(),
        region: "1".to_string(),
        angular_momentum: vec![0, 1],
        exponents: vec!["1.0".to_string(), "2.0".to_string(), "3.0".to_string()],
        coefficients: vec![vec!["0.2".to_string(), "0.5".to_string(), "0.0".to_string()]],
    };
    let pruned_shell = prune_shell(&shell);
    assert_eq!(pruned_shell.exponents, vec!["1.0".to_string(), "2.0".to_string()]);
    assert_eq!(pruned_shell.coefficients, vec![vec!["0.2".to_string(), "0.5".to_string()]]);
}

#[test]
fn test_expand_elements() {
    assert_eq!(expand_elements("H-Li,C-O,Ne"), vec![1, 2, 3, 6, 7, 8, 10]);
    assert_eq!(expand_elements("H-N,8,Na-12"), vec![1, 2, 3, 4, 5, 6, 7, 8, 11, 12]);
    assert_eq!(expand_elements("[C,Al-15,S,17,'18']"), vec![6, 13, 14, 15, 16, 17, 18]);
}

#[test]
fn playground_line_regex() {
    let rex = r"^(?P<sym>[A-Za-z]+)\s+(?P<name>\d+)((?:\s+)+)$";
    let line = "H 1    ";
    let res = parse_line_regex(rex, line, "Test regex parsing").unwrap();
    println!("{res:?}");
    assert_eq!(res, vec!["H".to_string(), "1".to_string(), "    ".to_string()]);
    let res = parse_line_regex_dict(rex, line, "Test regex parsing").unwrap();
    println!("{res:?}");
    assert_eq!(res, vec![("sym".to_string(), "H".to_string()), ("name".to_string(), "1".to_string())]);
    assert!(parse_line_regex(rex, "1 H", "Test regex parsing").is_err());
}

#[test]
fn error_message_text() {
    assert_eq!(BseError::KeyError("x".to_string()).message(), "KeyError(x)");
    assert_eq!(BseError::UninitializedFieldError(String::new()).message(), "UninitializedFieldError()");
    match parse_line_regex(r"^(\d+)$", "abc", "a number") {
        Err(e) => assert_eq!(e.message(), "ValueError(Regex 'a number' does not match line: 'abc'. Regex is '^(\\d+)$')"),
        Ok(_) => panic!("expected no match"),
    }
    match parse_line_regex(r"^x$", "abc", "") {
        Err(e) => assert_eq!(e.message(), "ValueError(Regex '^x$' does not match line: 'abc')"),
        Ok(_) => panic!("expected no match"),
    }
}
