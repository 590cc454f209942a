//! The abstract syntax consumed by the macro expander, and the first-pass
//! parser that builds it from a token stream: a sequence of operation
//! invocations and label declarations, plus a table of macro definitions.

use vstd::prelude::*;

use crate::error::CompileError;
use crate::error::ErrorKind;
use crate::lexer::LexPos;
use crate::lexer::Lexer;
use crate::lexer::Token;
use crate::lexer::clone_token;
use crate::lexer::pos_spec;
use crate::util::al_has;
use crate::util::al_lookup_idx;
use crate::util::al_unique;
use crate::util::lemma_al_find_none;

verus! {

pub type IsLocal = bool;

pub type NonLocalSearch = bool;

/// One argument of an operation invocation.
pub enum MetaArg {
    /// A register reference: name, locality, search-enclosing-scopes flag.
    Reg(String, IsLocal, NonLocalSearch, LexPos),
    /// A label reference: name and locality.
    Lab(String, IsLocal, LexPos),
    /// A bare identifier, to be substituted by a macro parameter.
    Id(String, LexPos),
    /// A code block passed as a value: parameter names and body.
    Code(Vec<String>, Vec<Meta>, LexPos),
}

/// One syntax node.
pub enum Meta {
    /// An operation invocation: name, arguments, position.
    Op(String, Vec<MetaArg>, LexPos),
    /// A label declaration: name and locality.
    Lab(String, IsLocal, LexPos),
}

pub type MetaArgs = Vec<MetaArg>;

pub type CodeMeta = Vec<Meta>;

/// A macro definition: ordered parameter names and a body.
pub type MacroData = (Vec<String>, Vec<Meta>);

/// What the first pass produces: the top-level code and the macro table.
pub struct ParsMetaResult {
    pub code: CodeMeta,
    pub macros: Vec<(String, MacroData)>,
}

/// The rendering of an argument for diagnostics.
pub open spec fn meta_arg_str_spec(a: MetaArg) -> Seq<char> {
    match a {
        MetaArg::Reg(name, is_local, search, _) => "%"@ + (if is_local {
            "."@
        } else {
            Seq::<char>::empty()
        }) + (if search {
            "\\"@
        } else {
            Seq::<char>::empty()
        }) + name@,
        MetaArg::Lab(name, is_local, _) => "@"@ + (if is_local {
            "."@
        } else {
            Seq::<char>::empty()
        }) + name@,
        MetaArg::Id(name, _) => "Id:"@ + name@,
        MetaArg::Code(_, _, _) => "{...code...}"@,
    }
}

/// The source position an argument was written at.
pub open spec fn meta_arg_pos(a: MetaArg) -> LexPos {
    match a {
        MetaArg::Reg(_, _, _, pos) => pos,
        MetaArg::Lab(_, _, pos) => pos,
        MetaArg::Id(_, pos) => pos,
        MetaArg::Code(_, _, pos) => pos,
    }
}

impl MetaArg {
    /// Render the argument's position.
    pub fn pos_str(&self) -> (r: String)
        ensures
            r@ == pos_spec(meta_arg_pos(*self).line, meta_arg_pos(*self).sym),
    {
        match self {
            MetaArg::Reg(_, _, _, pos) => pos.str(),
            MetaArg::Lab(_, _, pos) => pos.str(),
            MetaArg::Id(_, pos) => pos.str(),
            MetaArg::Code(_, _, pos) => pos.str(),
        }
    }

    /// The position itself.
    pub fn pos(&self) -> (r: LexPos)
        ensures
            r == meta_arg_pos(*self),
    {
        match self {
            MetaArg::Reg(_, _, _, pos) => *pos,
            MetaArg::Lab(_, _, pos) => *pos,
            MetaArg::Id(_, pos) => *pos,
            MetaArg::Code(_, _, pos) => *pos,
        }
    }

    /// Render the argument for diagnostics.
    pub fn str(&self) -> (r: String)
        ensures
            r@ == meta_arg_str_spec(*self),
    {
        match self {
            MetaArg::Reg(name, is_local, search, _) => {
                let mut s = String::new();
                s.append("%");
                if *is_local {
                    s.append(".");
                }
                if *search {
                    s.append("\\");
                }
                s.append(name.as_str());
                s
            },
            MetaArg::Lab(name, is_local, _) => {
                let mut s = String::new();
                s.append("@");
                if *is_local {
                    s.append(".");
                }
                s.append(name.as_str());
                s
            },
            MetaArg::Id(name, _) => {
                let mut s = String::new();
                s.append("Id:");
                s.append(name.as_str());
                s
            },
            MetaArg::Code(_, _, _) => {
                let mut s = String::new();
                s.append("{...code...}");
                s
            },
        }
    }
}

/// What a copy of an argument preserves: everything, down through the
/// bodies of code blocks — only the `String` and `Vec` allocations differ.
pub open spec fn same_arg(a: MetaArg, b: MetaArg) -> bool
    decreases a,
{
    match (a, b) {
        (MetaArg::Reg(n1, l1, s1, p1), MetaArg::Reg(n2, l2, s2, p2)) => n1@ == n2@ && l1 == l2
            && s1 == s2 && p1 == p2,
        (MetaArg::Lab(n1, l1, p1), MetaArg::Lab(n2, l2, p2)) => n1@ == n2@ && l1 == l2 && p1
            == p2,
        (MetaArg::Id(n1, p1), MetaArg::Id(n2, p2)) => n1@ == n2@ && p1 == p2,
        (MetaArg::Code(ps1, body1, p1), MetaArg::Code(ps2, body2, p2)) => ps1@ == ps2@ && p1
            == p2 && same_code(body1@, body2@),
        _ => false,
    }
}

/// Argument lists that correspond elementwise.
pub open spec fn same_args(s1: Seq<MetaArg>, s2: Seq<MetaArg>) -> bool
    decreases s1,
{
    &&& s1.len() == s2.len()
    &&& (s1.len() == 0 || (same_arg(s1.last(), s2.last()) && same_args(
        s1.drop_last(),
        s2.drop_last(),
    )))
}

/// What a copy of a node preserves.
pub open spec fn same_node(a: Meta, b: Meta) -> bool
    decreases a,
{
    match (a, b) {
        (Meta::Op(n1, args1, p1), Meta::Op(n2, args2, p2)) => n1@ == n2@ && p1 == p2
            && same_args(args1@, args2@),
        (Meta::Lab(n1, l1, p1), Meta::Lab(n2, l2, p2)) => n1@ == n2@ && l1 == l2 && p1 == p2,
        _ => false,
    }
}

/// Node sequences that correspond elementwise.
pub open spec fn same_code(s1: Seq<Meta>, s2: Seq<Meta>) -> bool
    decreases s1,
{
    &&& s1.len() == s2.len()
    &&& (s1.len() == 0 || (same_node(s1.last(), s2.last()) && same_code(
        s1.drop_last(),
        s2.drop_last(),
    )))
}

/// What a copy of a macro definition preserves.
pub open spec fn same_macro(a: MacroData, b: MacroData) -> bool {
    a.0@ == b.0@ && same_code(a.1@, b.1@)
}

/// Elementwise correspondence of argument lists, both ways.
pub proof fn lemma_same_args_iff(s1: Seq<MetaArg>, s2: Seq<MetaArg>)
    ensures
        same_args(s1, s2) <==> (s1.len() == s2.len() && (forall|i: int|
            0 <= i < s1.len() ==> same_arg(#[trigger] s1[i], s2[i]))),
    decreases s1.len(),
{
    if s1.len() > 0 {
        lemma_same_args_iff(s1.drop_last(), s2.drop_last());
        if s1.len() == s2.len() {
            assert(forall|i: int|
                0 <= i < s1.len() - 1 ==> (#[trigger] s1[i]) == s1.drop_last()[i] && s2[i]
                    == s2.drop_last()[i]);
        }
    }
}

/// Elementwise correspondence of node sequences, both ways.
pub proof fn lemma_same_code_iff(s1: Seq<Meta>, s2: Seq<Meta>)
    ensures
        same_code(s1, s2) <==> (s1.len() == s2.len() && (forall|i: int|
            0 <= i < s1.len() ==> same_node(#[trigger] s1[i], s2[i]))),
    decreases s1.len(),
{
    if s1.len() > 0 {
        lemma_same_code_iff(s1.drop_last(), s2.drop_last());
        if s1.len() == s2.len() {
            assert(forall|i: int|
                0 <= i < s1.len() - 1 ==> (#[trigger] s1[i]) == s1.drop_last()[i] && s2[i]
                    == s2.drop_last()[i]);
        }
    }
}

/// A copy of a parameter-name list.
pub fn clone_names(v: &Vec<String>) -> (r: Vec<String>)
    ensures
        r@ == v@,
{
    let mut r: Vec<String> = Vec::new();
    let mut i: usize = 0;
    while i < v.len()
        invariant
            i <= v@.len(),
            r@ =~= v@.take(i as int),
        decreases v@.len() - i,
    {
        r.push(v[i].clone());
        i += 1;
    }
    proof {
        assert(r@ =~= v@);
    }
    r
}

/// A copy of an argument.
pub fn clone_meta_arg(a: &MetaArg) -> (r: MetaArg)
    ensures
        same_arg(r, *a),
    decreases *a,
{
    match a {
        MetaArg::Reg(name, l, s, pos) => MetaArg::Reg(name.clone(), *l, *s, *pos),
        MetaArg::Lab(name, l, pos) => MetaArg::Lab(name.clone(), *l, *pos),
        MetaArg::Id(name, pos) => MetaArg::Id(name.clone(), *pos),
        MetaArg::Code(params, body, pos) => {
            proof {
                assert(decreases_to!(*a => a->Code_1));
                assert(a->Code_1 == *body);
                assert(decreases_to!(*body => body@));
            }
            MetaArg::Code(clone_names(params), clone_code(body), *pos)
        },
    }
}

/// A copy of a node.
pub fn clone_meta(m: &Meta) -> (r: Meta)
    ensures
        same_node(r, *m),
    decreases *m,
{
    match m {
        Meta::Op(name, args, pos) => {
            let mut args2: Vec<MetaArg> = Vec::new();
            let mut i: usize = 0;
            while i < args.len()
                invariant
                    *m == Meta::Op(*name, *args, *pos),
                    i <= args@.len(),
                    args2@.len() == i,
                    forall|j: int| 0 <= j < i ==> same_arg(#[trigger] args2@[j], args@[j]),
                decreases args@.len() - i,
            {
                proof {
                    assert(decreases_to!(*m => m->Op_1));
                    assert(m->Op_1 == *args);
                    assert(decreases_to!(*args => args@));
                    assert(decreases_to!(args@ => args@[i as int]));
                }
                args2.push(clone_meta_arg(&args[i]));
                i += 1;
            }
            proof {
                lemma_same_args_iff(args2@, args@);
            }
            Meta::Op(name.clone(), args2, *pos)
        },
        Meta::Lab(name, l, pos) => Meta::Lab(name.clone(), *l, *pos),
    }
}

/// A copy of a node sequence.
pub fn clone_code(v: &Vec<Meta>) -> (r: Vec<Meta>)
    ensures
        r@.len() == v@.len(),
        forall|i: int| 0 <= i < v@.len() ==> same_node(#[trigger] r@[i], v@[i]),
        same_code(r@, v@),
    decreases v@,
{
    let mut r: Vec<Meta> = Vec::new();
    let mut i: usize = 0;
    while i < v.len()
        invariant
            i <= v@.len(),
            r@.len() == i,
            forall|j: int| 0 <= j < i ==> same_node(#[trigger] r@[j], v@[j]),
        decreases v@.len() - i,
    {
        proof {
            assert(decreases_to!(v@ => v@[i as int]));
        }
        r.push(clone_meta(&v[i]));
        i += 1;
    }
    proof {
        lemma_same_code_iff(r@, v@);
    }
    r
}

/// A copy of a macro definition.
pub fn clone_macro_data(m: &MacroData) -> (r: MacroData)
    ensures
        same_macro(r, *m),
{
    (clone_names(&m.0), clone_code(&m.1))
}

/// The failure for a token that cannot stand here.
pub fn bad_token(tok: Token) -> (r: CompileError)
    ensures
        r.kind == ErrorKind::BadToken(tok),
{
    CompileError::new(ErrorKind::BadToken(tok), LexPos::new(0, 0))
}

/// The cursor stands somewhere within its stream.
pub open spec fn lex_wf(l: Lexer) -> bool {
    l.pos <= l.toks@.len()
}

/// What every parsing step preserves of the cursor: the stream itself, and
/// forward-only movement.
pub open spec fn lex_steps(pre: Lexer, post: Lexer) -> bool {
    &&& post.toks@ == pre.toks@
    &&& pre.pos <= post.pos
    &&& lex_wf(post)
}

/// Whether a parameter list already holds a name.
pub open spec fn has_name(names: Seq<String>, n: Seq<char>) -> bool {
    exists|i: int| 0 <= i < names.len() && (#[trigger] names[i])@ == n
}

/// No parameter name is listed twice.
pub open spec fn names_unique(names: Seq<String>) -> bool {
    forall|i: int, j: int|
        0 <= i < j < names.len() ==> (#[trigger] names[i])@ != (#[trigger] names[j])@
}

fn names_contains(names: &Vec<String>, n: &String) -> (r: bool)
    ensures
        r == has_name(names@, n@),
{
    let mut i: usize = 0;
    while i < names.len()
        invariant
            i <= names@.len(),
            forall|j: int| 0 <= j < i ==> (#[trigger] names@[j])@ != n@,
        decreases names@.len() - i,
    {
        if names[i] == *n {
            return true;
        }
        i += 1;
    }
    false
}

/// Parse a register argument, after its `%` marker: an optional locality
/// dot, an optional search-enclosing marker, and the name.  A bare name
/// is a non-local reference; a dotted name is local; the marker with the
/// dot makes a local reference that searches enclosing scopes.
fn parse_arg_reg(lexer: &mut Lexer) -> (r: Result<MetaArg, CompileError>)
    requires
        lex_wf(*old(lexer)),
    ensures
        lex_steps(*old(lexer), *final(lexer)),
        r matches Ok(a) ==> (a matches MetaArg::Reg(n, l, srch, p) && {
            let toks = old(lexer).toks@;
            let p0 = old(lexer).pos as int;
            ||| (p0 < toks.len() && toks[p0] == Token::Id(n, p) && l == false && srch == false)
            ||| (p0 + 1 < toks.len() && toks[p0] is Dot && toks[p0 + 1] == Token::Id(n, p) && l
                == true && srch == false)
            ||| (p0 + 2 < toks.len() && toks[p0] is InvSlash && toks[p0 + 1] is Dot && toks[p0
                + 2] == Token::Id(n, p) && l == true && srch == true)
        }),
{
    match lexer.next() {
        Token::Id(name, pos) => Ok(MetaArg::Reg(name, false, false, pos)),
        Token::Dot(_) => match lexer.next() {
            Token::Id(name, pos) => Ok(MetaArg::Reg(name, true, false, pos)),
            tok => Err(bad_token(tok)),
        },
        Token::InvSlash(_) => match lexer.next() {
            Token::Dot(_) => match lexer.next() {
                Token::Id(name, pos) => Ok(MetaArg::Reg(name, true, true, pos)),
                tok => Err(bad_token(tok)),
            },
            tok => Err(bad_token(tok)),
        },
        tok => Err(bad_token(tok)),
    }
}

/// Parse a label argument, after its `@` marker: an optional locality
/// dot and the name.
fn parse_arg_lab(lexer: &mut Lexer, pos: LexPos) -> (r: Result<MetaArg, CompileError>)
    requires
        lex_wf(*old(lexer)),
    ensures
        lex_steps(*old(lexer), *final(lexer)),
        r matches Ok(a) ==> (a matches MetaArg::Lab(n, l, p) && p == pos && {
            let toks = old(lexer).toks@;
            let p0 = old(lexer).pos as int;
            ||| (p0 < toks.len() && (toks[p0] matches Token::Id(n2, _) && n2 == n) && l == false)
            ||| (p0 + 1 < toks.len() && toks[p0] is Dot && (toks[p0 + 1] matches Token::Id(n2, _)
                && n2 == n) && l == true)
        }),
{
    match lexer.next() {
        Token::Id(name, _) => return Ok(MetaArg::Lab(name, false, pos)),
        Token::Dot(_) => {},
        tok => return Err(bad_token(tok)),
    }
    match lexer.next() {
        Token::Id(name, _) => Ok(MetaArg::Lab(name, true, pos)),
        tok => Err(bad_token(tok)),
    }
}

/// Parse a code-block argument, after its opening brace: parameter names up
/// to the pipe, then body statements up to the closing brace.
fn parse_arg_code(lexer: &mut Lexer, pos: LexPos) -> (r: Result<MetaArg, CompileError>)
    requires
        lex_wf(*old(lexer)),
    ensures
        lex_steps(*old(lexer), *final(lexer)),
        r matches Ok(a) ==> a is Code && meta_arg_pos(a) == pos && names_unique(a->Code_0@),
    decreases old(lexer).toks@.len() - old(lexer).pos, 0int,
{
    let mut ids: Vec<String> = Vec::new();
    let mut meta: Vec<Meta> = Vec::new();

    loop
        invariant
            lex_steps(*old(lexer), *lexer),
            names_unique(ids@),
        decreases lexer.toks@.len() - lexer.pos,
    {
        match lexer.next() {
            Token::Pipe(_) => break,
            Token::Id(name, _) => {
                if names_contains(&ids, &name) {
                    return Err(CompileError::new(ErrorKind::ParamExists(name), pos));
                }
                let ghost pre = ids@;
                ids.push(name);
                proof {
                    assert(forall|i: int| 0 <= i < pre.len() ==> (#[trigger] ids@[i]) == pre[i]);
                }
            },
            tok => return Err(bad_token(tok)),
        }
    }

    loop
        invariant
            lex_steps(*old(lexer), *lexer),
        decreases lexer.toks@.len() - lexer.pos,
    {
        match lexer.next() {
            Token::NewLine(_) => continue,
            Token::BrClose(_) => break,
            Token::Id(name, op_pos) => {
                let node = parse_op(lexer, name, op_pos)?;
                meta.push(node);
            },
            Token::At(lab_pos) => {
                let node = parse_label(lexer, lab_pos)?;
                meta.push(node);
            },
            tok => return Err(bad_token(tok)),
        }
    }

    Ok(MetaArg::Code(ids, meta, pos))
}

/// Parse a macro definition, after the `macro` keyword: the macro's name,
/// its parameter names up to the opening brace, then body statements up to
/// the closing brace.
fn parse_macro(lexer: &mut Lexer) -> (r: Result<(String, MacroData), CompileError>)
    requires
        lex_wf(*old(lexer)),
    ensures
        lex_steps(*old(lexer), *final(lexer)),
        r matches Ok(d) ==> names_unique(d.1.0@),
{
    let name = match lexer.next() {
        Token::Id(name, _) => name,
        tok => return Err(bad_token(tok)),
    };

    let mut args: Vec<String> = Vec::new();
    let mut meta: Vec<Meta> = Vec::new();

    loop
        invariant
            lex_steps(*old(lexer), *lexer),
            names_unique(args@),
        decreases lexer.toks@.len() - lexer.pos,
    {
        match lexer.next() {
            Token::Id(pname, pos) => {
                if names_contains(&args, &pname) {
                    return Err(CompileError::new(ErrorKind::ParamExists(pname), pos));
                }
                let ghost pre = args@;
                args.push(pname);
                proof {
                    assert(forall|i: int| 0 <= i < pre.len() ==> (#[trigger] args@[i]) == pre[i]);
                }
            },
            Token::BrOpen(_) => break,
            tok => return Err(bad_token(tok)),
        }
    }

    loop
        invariant
            lex_steps(*old(lexer), *lexer),
        decreases lexer.toks@.len() - lexer.pos,
    {
        match lexer.next() {
            Token::Id(op_name, pos) => {
                let node = parse_op(lexer, op_name, pos)?;
                meta.push(node);
            },
            Token::At(pos) => {
                let node = parse_label(lexer, pos)?;
                meta.push(node);
            },
            Token::BrClose(_) => break,
            Token::NewLine(_) => continue,
            tok => return Err(bad_token(tok)),
        }
    }

    Ok((name, (args, meta)))
}

/// Parse one operation invocation: its arguments up to the end of the
/// statement.
fn parse_op(lexer: &mut Lexer, name: String, pos: LexPos) -> (r: Result<Meta, CompileError>)
    requires
        lex_wf(*old(lexer)),
    ensures
        lex_steps(*old(lexer), *final(lexer)),
        r matches Ok(m) ==> m matches Meta::Op(n, _, p) && n == name && p == pos,
    decreases old(lexer).toks@.len() - old(lexer).pos, 1int,
{
    let mut args: Vec<MetaArg> = Vec::new();

    loop
        invariant
            lex_steps(*old(lexer), *lexer),
        decreases lexer.toks@.len() - lexer.pos,
    {
        match lexer.next() {
            Token::Eof => break,
            Token::NewLine(_) => break,
            Token::Percent(_) => {
                let a = parse_arg_reg(lexer)?;
                args.push(a);
            },
            Token::At(arg_pos) => {
                let a = parse_arg_lab(lexer, arg_pos)?;
                args.push(a);
            },
            Token::Id(arg_name, arg_pos) => {
                args.push(MetaArg::Id(arg_name, arg_pos));
            },
            Token::BrOpen(arg_pos) => {
                let a = parse_arg_code(lexer, arg_pos)?;
                args.push(a);
            },
            tok => return Err(bad_token(tok)),
        }
    }

    Ok(Meta::Op(name, args, pos))
}

/// Parse one label declaration, after its `@` marker: an optional locality
/// dot and the name, closing its statement.
fn parse_label(lexer: &mut Lexer, pos: LexPos) -> (r: Result<Meta, CompileError>)
    requires
        lex_wf(*old(lexer)),
    ensures
        lex_steps(*old(lexer), *final(lexer)),
        r matches Ok(m) ==> m matches Meta::Lab(_, _, p) && p == pos,
{
    match lexer.next() {
        Token::Id(name, _) => {
            return match lexer.next() {
                Token::NewLine(_) => Ok(Meta::Lab(name, false, pos)),
                Token::Eof => Ok(Meta::Lab(name, false, pos)),
                tok => Err(bad_token(tok)),
            };
        },
        Token::Dot(_) => {},
        tok => return Err(bad_token(tok)),
    }
    match lexer.next() {
        Token::Id(name, _) => {
            match lexer.next() {
                Token::NewLine(_) => Ok(Meta::Lab(name, true, pos)),
                Token::Eof => Ok(Meta::Lab(name, true, pos)),
                tok => Err(bad_token(tok)),
            }
        },
        tok => Err(bad_token(tok)),
    }
}

/// Parse a whole program: top-level statements and macro definitions.  On
/// success, the macro table binds each macro name once: a second top-level
/// definition of the same name is rejected where it is defined, before any
/// expansion happens.
pub fn parse_to_meta(lexer: &mut Lexer) -> (r: Result<ParsMetaResult, CompileError>)
    requires
        lex_wf(*old(lexer)),
    ensures
        lex_steps(*old(lexer), *final(lexer)),
        r matches Ok(res) ==> al_unique(res.macros@),
{
    let mut meta: Vec<Meta> = Vec::new();
    let mut macros: Vec<(String, MacroData)> = Vec::new();

    loop
        invariant
            lex_steps(*old(lexer), *lexer),
            al_unique(macros@),
        decreases lexer.toks@.len() - lexer.pos,
    {
        match lexer.next() {
            Token::NewLine(_) => continue,
            Token::Eof => break,
            Token::Id(name, pos) => {
                let node = parse_op(lexer, name, pos)?;
                meta.push(node);
            },
            Token::At(pos) => {
                let node = parse_label(lexer, pos)?;
                meta.push(node);
            },
            Token::Macro(pos) => {
                let (name, data) = parse_macro(lexer)?;
                if macro_table_has(&macros, &name) {
                    return Err(CompileError::new(ErrorKind::MacroExists(name), pos));
                }
                let ghost pre = macros@;
                macros.push((name, data));
                proof {
                    lemma_al_find_none(pre, macros@.last().0@);
                }
            },
            tok => return Err(bad_token(tok)),
        }
    }

    Ok(ParsMetaResult { code: meta, macros })
}

/// Whether the macro table already binds a name.
pub fn macro_table_has(macros: &Vec<(String, MacroData)>, name: &String) -> (r: bool)
    ensures
        r == al_has(macros@, name@),
{
    match al_lookup_idx(macros, name) {
        Some(_) => true,
        None => false,
    }
}

} // verus!
