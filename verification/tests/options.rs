//! Command-line parsing and the small rendering helpers.

use cmasm::cli_parser::CliError;
use cmasm::cli_parser::CmdArgs;
use cmasm::lexer::LexPos;
use cmasm::lexer::Token;
use cmasm::util::as_linked;

fn args(v: &[&str]) -> Vec<String> {
    v.iter().map(|s| s.to_string()).collect()
}

#[test]
fn flag_and_path_are_recognized() {
    let c = CmdArgs::parse(args(&["prog", "-m", "file.cm"])).expect("should parse");
    assert!(c.only_expand());
    assert_eq!(c.filepath().as_str(), "file.cm");
}

#[test]
fn path_alone_leaves_the_flag_off() {
    let c = CmdArgs::parse(args(&["prog", "file.cm"])).expect("should parse");
    assert!(!c.only_expand());
    assert_eq!(c.filepath().as_str(), "file.cm");
}

#[test]
fn unknown_options_are_ignored() {
    let c = CmdArgs::parse(args(&["prog", "-q", "file.cm", "-m"])).expect("should parse");
    assert!(c.only_expand());
    assert_eq!(c.filepath().as_str(), "file.cm");
}

#[test]
fn repeated_flag_is_rejected() {
    let e = CmdArgs::parse(args(&["prog", "-m", "-m"])).expect_err("must reject");
    assert!(matches!(e, CliError::FlagRepeated));
    assert_eq!(e.message(), "'-m' was already used");
}

#[test]
fn second_path_is_rejected() {
    let e = CmdArgs::parse(args(&["prog", "a", "b"])).expect_err("must reject");
    assert!(matches!(e, CliError::FileRepeated));
    assert_eq!(e.message(), "File was already specified!");
}

#[test]
fn positions_render_as_line_and_column() {
    assert_eq!(LexPos::new(12, 34).str(), "12:34");
    assert_eq!(LexPos::new(0, 107).str(), "0:107");
}

#[test]
fn tokens_render_for_diagnostics() {
    let pos = LexPos::new(3, 7);
    assert_eq!(Token::Id("abc".to_string(), pos).str(), "Id(abc)");
    assert_eq!(Token::Id("abc".to_string(), pos).pos_str(), "3:7");
    assert_eq!(Token::Macro(pos).str(), "'macro'");
    assert_eq!(Token::Eof.pos_str(), "-1:-1");
}

#[test]
fn one_element_list() {
    let l = as_linked(9u32);
    assert_eq!(l, vec![9]);
}
