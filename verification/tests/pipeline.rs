//! The whole pipeline on concrete source texts: tokenizing, parsing,
//! macro expansion, label resolution and execution.

use cmasm::error::CompileError;
use cmasm::error::ErrorKind;
use cmasm::lexer::Lexer;
use cmasm::meta2::render_meta2;
use cmasm::parser::Parser;
use cmasm::vm::Op;
use cmasm::vm::execute;

fn lines_of(src: &str) -> Vec<Vec<char>> {
    src.lines().map(|l| l.chars().collect()).collect()
}

fn compile(src: &str) -> Result<Vec<Op>, CompileError> {
    let lines = lines_of(src);
    let lexer = Lexer::new(&lines);
    let mut parser = Parser::new(lexer);
    parser.parse()
}

fn expand(src: &str) -> Result<String, CompileError> {
    let lines = lines_of(src);
    let lexer = Lexer::new(&lines);
    let mut parser = Parser::new(lexer);
    parser.parse_meta2().map(|code| render_meta2(&code))
}

fn run(src: &str) -> Vec<u32> {
    let code = compile(src).expect("program should compile");
    let (out, halted) = execute(code, 1_000_000);
    assert!(halted, "program should halt");
    out
}

#[test]
fn two_incs_print_code_point_two() {
    assert_eq!(run("inc %x\ninc %x\nout %x"), vec![2]);
}

#[test]
fn zer_prints_nul() {
    assert_eq!(run("zer %x ; out %x"), vec![0]);
}

#[test]
fn jmp_on_fresh_registers_skips_the_increment() {
    assert_eq!(run("jmp %a %b @end\ninc %a\n@end\nout %a"), vec![0]);
}

#[test]
fn comments_are_ignored() {
    assert_eq!(run("inc %x # one more\nout %x # and show it"), vec![1]);
}

#[test]
fn macro_parameters_substitute_registers() {
    let src = "macro twice r { inc r ; inc r ;}\ntwice %x\nout %x";
    assert_eq!(run(src), vec![2]);
}

#[test]
fn macro_can_forward_parameters() {
    let src = "macro bump r { inc r ;}\nmacro twice s { bump s ; bump s ;}\ntwice %x\nout %x";
    assert_eq!(run(src), vec![2]);
}

#[test]
fn code_block_argument_is_invoked() {
    let src = "macro call body { body ;}\ncall { | inc %x ; inc %x ;}\nout %x";
    assert_eq!(run(src), vec![2]);
}

#[test]
fn search_marker_reaches_the_enclosing_register() {
    // with the search-enclosing marker the macro touches the outer %.x
    let src = "inc %.x\nmacro m { inc %\\.x ;}\nm\nout %.x";
    assert_eq!(run(src), vec![2]);
}

#[test]
fn without_search_marker_a_fresh_slot_is_allocated() {
    // without the marker the macro's %.x is its own register
    let src = "inc %.x\nmacro m { inc %.x ;}\nm\nout %.x";
    assert_eq!(run(src), vec![1]);
}

#[test]
fn sibling_invocations_get_distinct_label_tags() {
    // each invocation declares a local label; the scope tags differ, so
    // the program assembles without a duplicate-label failure
    let src = "macro m r {\n@.l\ninc r\n}\nm %x\nm %y\nout %x";
    assert_eq!(run(src), vec![1]);
}

#[test]
fn recursive_invocations_get_distinct_label_tags() {
    // a macro passed itself as a code block re-invokes the label-bearing
    // macro at a deeper level
    let src = "macro lab {\n@.l\n}\nmacro go c { lab ; c ;}\ngo { | lab ;}\nout %x";
    assert_eq!(run(src), vec![0]);
}

#[test]
fn countdown_loop_runs() {
    // count %c down to zero by counting %d up to it, printing each value
    let src = "inc %c ; inc %c\n@loop\njmp %c %d @end\ninc %d\nout %d\njmp %z %z @loop\n@end";
    assert_eq!(run(src), vec![1, 2]);
}

#[test]
fn expansion_listing_is_stable() {
    let src = "inc %x\ninc %y\n@done\njmp %x %y @done";
    let listing = expand(src).expect("expansion should succeed");
    assert_eq!(listing, "inc %0\ninc %1\n@done_0\njmp %0 %1 @done_0\n");
}

#[test]
fn popped_scopes_free_their_slots() {
    // the local register of the first invocation is freed on pop and the
    // second invocation's global actual reuses it
    let src = "macro m r { zer %.t ;}\nm %x\nm %y";
    let listing = expand(src).expect("expansion should succeed");
    assert_eq!(listing, "zer %1\nzer %2\n");
}

#[test]
fn duplicate_macro_is_rejected_before_expansion() {
    let src = "macro m { inc %x ;}\nmacro m { zer %x ;}\nm";
    let e = compile(src).expect_err("duplicate macro must be rejected");
    match &e.kind {
        ErrorKind::MacroExists(name) => assert_eq!(name.as_str(), "m"),
        other => panic!("wrong error kind: {}", kind_tag(other)),
    }
    assert_eq!(e.message(), "2:1 Macro with name 'm' is already exist");
}

#[test]
fn unresolved_jump_target_is_rejected() {
    let src = "jmp %a %b @missing";
    let e = compile(src).expect_err("unresolved label must be rejected");
    match &e.kind {
        ErrorKind::LabelNotFound(name, param) => {
            assert_eq!(name.as_str(), "missing");
            assert_eq!(*param, 0);
        },
        other => panic!("wrong error kind: {}", kind_tag(other)),
    }
    assert_eq!(e.message(), "1:1 Label 'missing' not found");
}

#[test]
fn duplicate_label_identity_is_rejected() {
    let src = "@l\ninc %x\n@l";
    let e = compile(src).expect_err("duplicate label must be rejected");
    match &e.kind {
        ErrorKind::LabelRedefined(name, param) => {
            assert_eq!(name.as_str(), "l");
            assert_eq!(*param, 0);
        },
        other => panic!("wrong error kind: {}", kind_tag(other)),
    }
    assert_eq!(e.message(), "3:1 Label 'l' is already defined");
}

#[test]
fn unknown_operation_is_rejected() {
    let e = compile("frob %x").expect_err("unknown macro must be rejected");
    match &e.kind {
        ErrorKind::MacroNotFound(name) => assert_eq!(name.as_str(), "frob"),
        other => panic!("wrong error kind: {}", kind_tag(other)),
    }
    assert_eq!(e.message(), "1:1 Cannot find macro 'frob'");
}

#[test]
fn missing_argument_is_rejected() {
    let e = compile("inc").expect_err("missing argument must be rejected");
    assert!(matches!(e.kind, ErrorKind::ExpectedArg));
    assert_eq!(e.message(), "1:1 Expected argument");
}

#[test]
fn extra_argument_is_rejected() {
    let e = compile("inc %x %y").expect_err("extra argument must be rejected");
    match &e.kind {
        ErrorKind::ExtraArg(text) => assert_eq!(text.as_str(), "%y"),
        other => panic!("wrong error kind: {}", kind_tag(other)),
    }
    assert_eq!(e.message(), "1:9 Extra argument: %y");
}

#[test]
fn label_where_register_required_is_rejected() {
    let e = compile("@l\ninc @l").expect_err("label argument must be rejected");
    assert!(matches!(e.kind, ErrorKind::ExpectedRegister));
    assert_eq!(e.message(), "2:5 Expected register");
}

#[test]
fn register_where_label_required_is_rejected() {
    let e = compile("jmp %a %b %c").expect_err("register target must be rejected");
    assert!(matches!(e.kind, ErrorKind::ExpectedLabel));
    assert_eq!(e.message(), "1:12 Expected label");
}

#[test]
fn unbound_identifier_is_rejected() {
    let src = "macro m a { inc b ;}\nm %x";
    let e = compile(src).expect_err("unbound identifier must be rejected");
    match &e.kind {
        ErrorKind::CannotExpand(name) => assert_eq!(name.as_str(), "b"),
        other => panic!("wrong error kind: {}", kind_tag(other)),
    }
}

#[test]
fn duplicate_parameter_name_is_rejected() {
    let e = compile("macro m a a { }").expect_err("duplicate parameter must be rejected");
    match &e.kind {
        ErrorKind::ParamExists(name) => assert_eq!(name.as_str(), "a"),
        other => panic!("wrong error kind: {}", kind_tag(other)),
    }
}

#[test]
fn stray_punctuation_is_a_bad_token() {
    let e = compile("inc %x |").expect_err("stray pipe must be rejected");
    match &e.kind {
        ErrorKind::BadToken(_) => {},
        other => panic!("wrong error kind: {}", kind_tag(other)),
    }
    assert_eq!(e.message(), "1:8 Bad token: '|'");
}

#[test]
fn search_marker_without_dot_is_a_bad_token() {
    let e = compile("inc %\\x").expect_err("marker without locality dot must be rejected");
    assert!(matches!(e.kind, ErrorKind::BadToken(_)));
    assert_eq!(e.message(), "1:7 Bad token: Id(x)");
}

#[test]
fn macro_keyword_inside_a_statement_is_a_bad_token() {
    let e = compile("inc macro").expect_err("keyword must be rejected here");
    assert!(matches!(e.kind, ErrorKind::BadToken(_)));
    assert_eq!(e.message(), "1:5 Bad token: 'macro'");
}

#[test]
fn runaway_macro_recursion_is_reported() {
    let src = "macro m {\nm\n}\nm";
    let e = compile(src).expect_err("unbounded expansion must be cut off");
    assert!(matches!(e.kind, ErrorKind::ExpansionTooDeep));
}

fn kind_tag(k: &ErrorKind) -> &'static str {
    match k {
        ErrorKind::BadToken(_) => "BadToken",
        ErrorKind::ParamExists(_) => "ParamExists",
        ErrorKind::MacroExists(_) => "MacroExists",
        ErrorKind::ExpectedArg => "ExpectedArg",
        ErrorKind::ExpectedRegister => "ExpectedRegister",
        ErrorKind::ExpectedLabel => "ExpectedLabel",
        ErrorKind::ExpectedNonMacroArg => "ExpectedNonMacroArg",
        ErrorKind::CannotExpand(_) => "CannotExpand",
        ErrorKind::MacroNotFound(_) => "MacroNotFound",
        ErrorKind::ExtraArg(_) => "ExtraArg",
        ErrorKind::LabelRedefined(_, _) => "LabelRedefined",
        ErrorKind::LabelNotFound(_, _) => "LabelNotFound",
        ErrorKind::ScopeTagsExhausted => "ScopeTagsExhausted",
        ErrorKind::ExpansionTooDeep => "ExpansionTooDeep",
        ErrorKind::RegistersExhausted => "RegistersExhausted",
    }
}
