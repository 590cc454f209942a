//! Compilation failures.  Every failure carries a source position and a
//! category; [`CompileError::message`] renders the single textual message
//! that is reported to the user.  The first error anywhere aborts the
//! compilation; nothing is executed after one.

use vstd::prelude::*;

use crate::lexer::LexPos;
use crate::lexer::Token;
use crate::lexer::pos_spec;
use crate::lexer::token_pos_spec;
use crate::lexer::token_str_spec;

verus! {

/// What went wrong.
#[derive(Debug)]
pub enum ErrorKind {
    /// A token that cannot start or continue the construct being parsed.
    BadToken(Token),
    /// A macro parameter name repeated in one parameter list.
    ParamExists(String),
    /// A top-level macro name defined twice.
    MacroExists(String),
    /// An operation given fewer arguments than it requires.
    ExpectedArg,
    /// A register argument required, something else supplied.
    ExpectedRegister,
    /// A label argument required, something else supplied.
    ExpectedLabel,
    /// A code block supplied where a plain argument is required.
    ExpectedNonMacroArg,
    /// An identifier with no substitution and no visible macro.
    CannotExpand(String),
    /// An operation name that is neither built in nor a visible macro.
    MacroNotFound(String),
    /// An argument beyond an operation's arity; carries its rendering.
    ExtraArg(String),
    /// A label identity (name and scope tag) declared twice.
    LabelRedefined(String, u64),
    /// A jump to a label identity never declared.
    LabelNotFound(String, u64),
    /// The supply of scope tags is exhausted; expansion cannot go on
    /// hygienically.
    ScopeTagsExhausted,
    /// Macro invocations nested beyond the expansion depth limit.
    ExpansionTooDeep,
    /// The supply of register slots is exhausted.
    RegistersExhausted,
}

/// A compilation failure: a category and the position it is reported at.
#[derive(Debug)]
pub struct CompileError {
    pub kind: ErrorKind,
    pub pos: LexPos,
}

/// The rendered label name in a label diagnostic: locally scoped labels
/// (non-zero tag) are shown with their locality dot.
pub open spec fn label_text_spec(name: Seq<char>, param: u64) -> Seq<char> {
    if param != 0 {
        "."@ + name
    } else {
        name
    }
}

/// The full diagnostic text of an error.
pub open spec fn message_spec(e: CompileError) -> Seq<char> {
    let at = pos_spec(e.pos.line, e.pos.sym);
    match e.kind {
        ErrorKind::BadToken(t) => token_pos_spec(t) + " Bad token: "@ + token_str_spec(t),
        ErrorKind::ParamExists(n) => at + " Parameter with name '"@ + n@ + "' is already exist"@,
        ErrorKind::MacroExists(n) => at + " Macro with name '"@ + n@ + "' is already exist"@,
        ErrorKind::ExpectedArg => at + " Expected argument"@,
        ErrorKind::ExpectedRegister => at + " Expected register"@,
        ErrorKind::ExpectedLabel => at + " Expected label"@,
        ErrorKind::ExpectedNonMacroArg => at + " Expected non-macro argument"@,
        ErrorKind::CannotExpand(n) => at + " Cannot expand '"@ + n@ + "'"@,
        ErrorKind::MacroNotFound(n) => at + " Cannot find macro '"@ + n@ + "'"@,
        ErrorKind::ExtraArg(s) => at + " Extra argument: "@ + s@,
        ErrorKind::LabelRedefined(n, p) => at + " Label '"@ + label_text_spec(n@, p)
            + "' is already defined"@,
        ErrorKind::LabelNotFound(n, p) => at + " Label '"@ + label_text_spec(n@, p)
            + "' not found"@,
        ErrorKind::ScopeTagsExhausted => at + " Too many macro invocations"@,
        ErrorKind::ExpansionTooDeep => at + " Macro expansion too deep"@,
        ErrorKind::RegistersExhausted => at + " Out of register slots"@,
    }
}

impl CompileError {
    pub fn new(kind: ErrorKind, pos: LexPos) -> (r: Self)
        ensures
            r.kind == kind,
            r.pos == pos,
    {
        CompileError { kind, pos }
    }

    /// The single textual message reported for this failure.
    pub fn message(&self) -> (r: String)
        ensures
            r@ == message_spec(*self),
    {
        match &self.kind {
            ErrorKind::BadToken(t) => {
                let mut s = t.pos_str();
                s.append(" Bad token: ");
                let ts = t.str();
                s.append(ts.as_str());
                s
            },
            ErrorKind::ParamExists(n) => {
                let mut s = self.pos.str();
                s.append(" Parameter with name '");
                s.append(n.as_str());
                s.append("' is already exist");
                s
            },
            ErrorKind::MacroExists(n) => {
                let mut s = self.pos.str();
                s.append(" Macro with name '");
                s.append(n.as_str());
                s.append("' is already exist");
                s
            },
            ErrorKind::ExpectedArg => {
                let mut s = self.pos.str();
                s.append(" Expected argument");
                s
            },
            ErrorKind::ExpectedRegister => {
                let mut s = self.pos.str();
                s.append(" Expected register");
                s
            },
            ErrorKind::ExpectedLabel => {
                let mut s = self.pos.str();
                s.append(" Expected label");
                s
            },
            ErrorKind::ExpectedNonMacroArg => {
                let mut s = self.pos.str();
                s.append(" Expected non-macro argument");
                s
            },
            ErrorKind::CannotExpand(n) => {
                let mut s = self.pos.str();
                s.append(" Cannot expand '");
                s.append(n.as_str());
                s.append("'");
                s
            },
            ErrorKind::MacroNotFound(n) => {
                let mut s = self.pos.str();
                s.append(" Cannot find macro '");
                s.append(n.as_str());
                s.append("'");
                s
            },
            ErrorKind::ExtraArg(text) => {
                let mut s = self.pos.str();
                s.append(" Extra argument: ");
                s.append(text.as_str());
                s
            },
            ErrorKind::LabelRedefined(n, p) => {
                let mut s = self.pos.str();
                s.append(" Label '");
                if *p != 0 {
                    s.append(".");
                }
                s.append(n.as_str());
                s.append("' is already defined");
                s
            },
            ErrorKind::LabelNotFound(n, p) => {
                let mut s = self.pos.str();
                s.append(" Label '");
                if *p != 0 {
                    s.append(".");
                }
                s.append(n.as_str());
                s.append("' not found");
                s
            },
            ErrorKind::ScopeTagsExhausted => {
                let mut s = self.pos.str();
                s.append(" Too many macro invocations");
                s
            },
            ErrorKind::ExpansionTooDeep => {
                let mut s = self.pos.str();
                s.append(" Macro expansion too deep");
                s
            },
            ErrorKind::RegistersExhausted => {
                let mut s = self.pos.str();
                s.append(" Out of register slots");
                s
            },
        }
    }
}

} // verus!
