//! Lexical tokens and positions.  A source line is turned into a stream of
//! typed, position-tagged tokens: punctuation, identifiers, the macro
//! keyword, statement separators.  The token cursor [`Lexer`] then hands
//! the stream to the parser one token at a time, yielding end-of-input
//! forever once the stream is exhausted.

use vstd::prelude::*;

use crate::util::append_chars;
use crate::util::chars_to_string;
use crate::util::dec_chars;
use crate::util::dec_spec;
use crate::util::string_to_chars;

verus! {

pub type LexPosType = u32;

/// A source position: line and column, both counted from one.
#[derive(Clone, Copy, Debug)]
pub struct LexPos {
    pub line: LexPosType,
    pub sym: LexPosType,
}

/// The textual rendering of a position, `line:column`.
pub open spec fn pos_spec(line: LexPosType, sym: LexPosType) -> Seq<char> {
    dec_spec(line as nat) + seq![':'] + dec_spec(sym as nat)
}

impl LexPos {
    pub fn new(line: LexPosType, sym: LexPosType) -> (r: Self)
        ensures
            r.line == line,
            r.sym == sym,
    {
        LexPos { line, sym }
    }

    /// Render the position as `line:column`.
    pub fn str(&self) -> (r: String)
        ensures
            r@ == pos_spec(self.line, self.sym),
    {
        let mut cs = dec_chars(self.line as u64);
        cs.push(':');
        let tail = dec_chars(self.sym as u64);
        append_chars(&mut cs, &tail);
        proof {
            assert(cs@ =~= pos_spec(self.line, self.sym));
        }
        chars_to_string(&cs)
    }

    pub fn line(&self) -> (r: LexPosType)
        ensures
            r == self.line,
    {
        self.line
    }

    pub fn sym(&self) -> (r: LexPosType)
        ensures
            r == self.sym,
    {
        self.sym
    }
}

/// One lexical token.
#[derive(Clone, Debug)]
pub enum Token {
    Nothing,
    Eof,
    NewLine(LexPos),
    Dot(LexPos),
    At(LexPos),
    Percent(LexPos),
    BrOpen(LexPos),
    BrClose(LexPos),
    Pipe(LexPos),
    InvSlash(LexPos),
    Macro(LexPos),
    Id(String, LexPos),
    Unknown(LexPos),
}

/// The rendered position of a token; placeholders for the tokens that
/// carry none.
pub open spec fn token_pos_spec(t: Token) -> Seq<char> {
    match t {
        Token::Nothing => seq!['?', ':', '?'],
        Token::Eof => seq!['-', '1', ':', '-', '1'],
        Token::NewLine(pos) => pos_spec(pos.line, pos.sym),
        Token::Dot(pos) => pos_spec(pos.line, pos.sym),
        Token::At(pos) => pos_spec(pos.line, pos.sym),
        Token::Percent(pos) => pos_spec(pos.line, pos.sym),
        Token::BrOpen(pos) => pos_spec(pos.line, pos.sym),
        Token::BrClose(pos) => pos_spec(pos.line, pos.sym),
        Token::Pipe(pos) => pos_spec(pos.line, pos.sym),
        Token::InvSlash(pos) => pos_spec(pos.line, pos.sym),
        Token::Macro(pos) => pos_spec(pos.line, pos.sym),
        Token::Id(name, pos) => pos_spec(pos.line, pos.sym),
        Token::Unknown(pos) => pos_spec(pos.line, pos.sym),
    }
}

/// The descriptive rendering of a token for diagnostics.
pub open spec fn token_str_spec(t: Token) -> Seq<char> {
    match t {
        Token::Nothing => seq!['N', 'o', 'n', 'e'],
        Token::Eof => seq!['E', 'O', 'F'],
        Token::NewLine(_) => seq!['N', 'e', 'w', 'L', 'i', 'n', 'e'],
        Token::Unknown(_) => seq!['U', 'n', 'k', 'n', 'o', 'w', 'n'],
        Token::Dot(_) => seq!['\'', '.', '\''],
        Token::At(_) => seq!['\'', '@', '\''],
        Token::BrOpen(_) => seq!['\'', '{', '\''],
        Token::BrClose(_) => seq!['\'', '}', '\''],
        Token::Pipe(_) => seq!['\'', '|', '\''],
        Token::InvSlash(_) => seq!['\'', '\\', '\''],
        Token::Percent(_) => seq!['\'', '%', '\''],
        Token::Macro(_) => seq!['\'', 'm', 'a', 'c', 'r', 'o', '\''],
        Token::Id(name, _) => seq!['I', 'd', '('] + name@ + seq![')'],
    }
}

impl Token {
    /// Render the token's position, `line:column` or a placeholder.
    pub fn pos_str(&self) -> (r: String)
        ensures
            r@ == token_pos_spec(*self),
    {
        let cs: Vec<char> = match self {
            Token::Nothing => {
                let v = vec!['?', ':', '?'];
                proof {
                    assert(v@ =~= seq!['?', ':', '?']);
                }
                v
            },
            Token::Eof => {
                let v = vec!['-', '1', ':', '-', '1'];
                proof {
                    assert(v@ =~= seq!['-', '1', ':', '-', '1']);
                }
                v
            },
            Token::NewLine(pos) | Token::Dot(pos) | Token::At(pos) | Token::Percent(pos)
                | Token::BrOpen(pos) | Token::BrClose(pos) | Token::Pipe(pos)
                | Token::InvSlash(pos) | Token::Macro(pos) | Token::Id(_, pos)
                | Token::Unknown(pos) => {
                let mut v = dec_chars(pos.line as u64);
                v.push(':');
                let tail = dec_chars(pos.sym as u64);
                append_chars(&mut v, &tail);
                proof {
                    assert(v@ =~= pos_spec(pos.line, pos.sym));
                }
                v
            },
        };
        chars_to_string(&cs)
    }

    /// Render the token itself for diagnostics.
    pub fn str(&self) -> (r: String)
        ensures
            r@ == token_str_spec(*self),
    {
        let cs: Vec<char> = match self {
            Token::Nothing => vec!['N', 'o', 'n', 'e'],
            Token::Eof => vec!['E', 'O', 'F'],
            Token::NewLine(_) => vec!['N', 'e', 'w', 'L', 'i', 'n', 'e'],
            Token::Unknown(_) => vec!['U', 'n', 'k', 'n', 'o', 'w', 'n'],
            Token::Dot(_) => vec!['\'', '.', '\''],
            Token::At(_) => vec!['\'', '@', '\''],
            Token::BrOpen(_) => vec!['\'', '{', '\''],
            Token::BrClose(_) => vec!['\'', '}', '\''],
            Token::Pipe(_) => vec!['\'', '|', '\''],
            Token::InvSlash(_) => vec!['\'', '\\', '\''],
            Token::Percent(_) => vec!['\'', '%', '\''],
            Token::Macro(_) => vec!['\'', 'm', 'a', 'c', 'r', 'o', '\''],
            Token::Id(name, _) => {
                let mut v = vec!['I', 'd', '('];
                let mid = string_to_chars(name.as_str());
                append_chars(&mut v, &mid);
                v.push(')');
                proof {
                    assert(v@ =~= seq!['I', 'd', '('] + name@ + seq![')']);
                }
                v
            },
        };
        proof {
            assert(cs@ =~= token_str_spec(*self));
        }
        chars_to_string(&cs)
    }
}

/// A copy of a token.
pub fn clone_token(t: &Token) -> (r: Token)
    ensures
        r == *t,
{
    match t {
        Token::Nothing => Token::Nothing,
        Token::Eof => Token::Eof,
        Token::NewLine(pos) => Token::NewLine(*pos),
        Token::Dot(pos) => Token::Dot(*pos),
        Token::At(pos) => Token::At(*pos),
        Token::Percent(pos) => Token::Percent(*pos),
        Token::BrOpen(pos) => Token::BrOpen(*pos),
        Token::BrClose(pos) => Token::BrClose(*pos),
        Token::Pipe(pos) => Token::Pipe(*pos),
        Token::InvSlash(pos) => Token::InvSlash(*pos),
        Token::Macro(pos) => Token::Macro(*pos),
        Token::Id(name, pos) => Token::Id(name.clone(), *pos),
        Token::Unknown(pos) => Token::Unknown(*pos),
    }
}

/// A word character: an identifier is a maximal run of these.
pub open spec fn is_word_char(c: char) -> bool {
    (48 <= c as u32 && c as u32 <= 57)  // '0' ..= '9'
    || (97 <= c as u32 && c as u32 <= 122)  // 'a' ..= 'z'
    || (65 <= c as u32 && c as u32 <= 90)  // 'A' ..= 'Z'
    || c as u32 == 95  // '_'
}

fn word_char(c: char) -> (r: bool)
    ensures
        r == is_word_char(c),
{
    let u = c as u32;
    (48 <= u && u <= 57) || (97 <= u && u <= 122) || (65 <= u && u <= 90) || u == 95
}

/// The comment character: it and everything after it on a line is ignored.
pub open spec fn comment_char() -> char {
    '#'
}

/// A punctuation token sits exactly on its character in the line.
pub open spec fn punct_at(p: LexPos, line: Seq<char>, line_no: u32, c: char) -> bool {
    &&& p.line == line_no
    &&& 1 <= p.sym <= line.len()
    &&& line[p.sym - 1] == c
}

/// What every emitted token says of the line it came from: it stands at
/// its recorded position, an identifier's name is exactly the word
/// written there, a statement separator is a `;` there (or the cut at the
/// line's comment or end), and an `Unknown` marks a character no token
/// category accepts.
pub open spec fn token_from_line(t: Token, line: Seq<char>, line_no: u32) -> bool {
    match t {
        Token::Dot(p) => punct_at(p, line, line_no, '.'),
        Token::At(p) => punct_at(p, line, line_no, '@'),
        Token::Percent(p) => punct_at(p, line, line_no, '%'),
        Token::BrOpen(p) => punct_at(p, line, line_no, '{'),
        Token::BrClose(p) => punct_at(p, line, line_no, '}'),
        Token::Pipe(p) => punct_at(p, line, line_no, '|'),
        Token::InvSlash(p) => punct_at(p, line, line_no, '\\'),
        Token::NewLine(p) => {
            &&& p.line == line_no
            &&& 1 <= p.sym <= line.len() + 1
            &&& (p.sym <= line.len() ==> line[p.sym - 1] == ';' || line[p.sym - 1]
                == comment_char())
        },
        Token::Macro(p) => {
            &&& p.line == line_no
            &&& 1 <= p.sym
            &&& p.sym - 1 + 5 <= line.len()
            &&& line.subrange(p.sym - 1, p.sym - 1 + 5) == seq!['m', 'a', 'c', 'r', 'o']
        },
        Token::Id(n, p) => {
            &&& p.line == line_no
            &&& 1 <= p.sym
            &&& n@.len() >= 1
            &&& p.sym - 1 + n@.len() <= line.len()
            &&& n@ == line.subrange(p.sym - 1, p.sym - 1 + n@.len() as int)
            &&& forall|q: int| 0 <= q < n@.len() ==> is_word_char(#[trigger] n@[q])
        },
        Token::Unknown(p) => {
            &&& p.line == line_no
            &&& 1 <= p.sym <= line.len()
            &&& !is_word_char(line[p.sym - 1])
        },
        Token::Nothing => false,
        Token::Eof => false,
    }
}

/// Tokenize one source line (without its line terminator).  Everything
/// from the comment character on is ignored; an unrecognized character
/// yields an `Unknown` token and abandons the rest of the line; otherwise
/// the line's tokens are followed by a `NewLine` token.
pub fn tokenize_line(line: &Vec<char>, line_no: u32) -> (toks: Vec<Token>)
    requires
        line@.len() + 1 <= u32::MAX,
    ensures
        toks@.len() >= 1,
        forall|k: int| 0 <= k < toks@.len() ==> token_from_line(#[trigger] toks@[k], line@, line_no),
        toks@.last() matches Token::NewLine(_) || toks@.last() matches Token::Unknown(_),
{
    let mut toks: Vec<Token> = Vec::new();

    // cut the line at the first comment character
    let mut end: usize = 0;
    while end < line.len() && !char_eq(line[end], '#')
        invariant
            end <= line@.len(),
        decreases line@.len() - end,
    {
        end += 1;
    }
    let mut i: usize = 0;
    while i < end
        invariant
            end <= line@.len(),
            line@.len() + 1 <= u32::MAX,
            i <= end,
            forall|k: int|
                0 <= k < toks@.len() ==> token_from_line(#[trigger] toks@[k], line@, line_no),
        decreases end - i,
    {
        let ghost pre = toks@;
        let c = line[i];
        let sym_no: u32 = (i as u32) + 1;
        if char_eq(c, ' ') || char_eq(c, '\t') || char_eq(c, '\n') {
            i += 1;
        } else if char_eq(c, ';') {
            toks.push(Token::NewLine(LexPos::new(line_no, sym_no)));
            i += 1;
        } else if char_eq(c, '.') {
            toks.push(Token::Dot(LexPos::new(line_no, sym_no)));
            i += 1;
        } else if char_eq(c, '@') {
            toks.push(Token::At(LexPos::new(line_no, sym_no)));
            i += 1;
        } else if char_eq(c, '%') {
            toks.push(Token::Percent(LexPos::new(line_no, sym_no)));
            i += 1;
        } else if char_eq(c, '{') {
            toks.push(Token::BrOpen(LexPos::new(line_no, sym_no)));
            i += 1;
        } else if char_eq(c, '}') {
            toks.push(Token::BrClose(LexPos::new(line_no, sym_no)));
            i += 1;
        } else if char_eq(c, '|') {
            toks.push(Token::Pipe(LexPos::new(line_no, sym_no)));
            i += 1;
        } else if char_eq(c, '\\') {
            toks.push(Token::InvSlash(LexPos::new(line_no, sym_no)));
            i += 1;
        } else if word_char(c) {
            // a maximal run of word characters is one identifier
            let mut j: usize = i;
            let mut word: Vec<char> = Vec::new();
            while j < end && word_char(line[j])
                invariant
                    i <= j <= end,
                    end <= line@.len(),
                    word@ == line@.subrange(i as int, j as int),
                    forall|q: int| 0 <= q < word@.len() ==> is_word_char(#[trigger] word@[q]),
                decreases end - j,
            {
                word.push(line[j]);
                j += 1;
                proof {
                    assert(word@ =~= line@.subrange(i as int, j as int));
                }
            }
            let pos = LexPos::new(line_no, sym_no);
            let id = chars_to_string(&word);
            let kw = keyword_macro();
            if id == kw {
                toks.push(Token::Macro(pos));
                proof {
                    assert(word@.len() == 5);
                    assert(token_from_line(Token::Macro(pos), line@, line_no));
                }
            } else {
                proof {
                    assert(word@.len() >= 1) by {
                        assert(word@ == line@.subrange(i as int, j as int));
                        assert(j > i) by {
                            if j == i {
                                assert(word@.len() == 0);
                                assert(is_word_char(line@[i as int]));
                            }
                        }
                    }
                }
                toks.push(Token::Id(id, pos));
            }
            i = j;
        } else {
            toks.push(Token::Unknown(LexPos::new(line_no, sym_no)));
            return toks;
        }
        proof {
            assert(forall|k: int|
                0 <= k < pre.len() ==> token_from_line(#[trigger] toks@[k], line@, line_no));
        }
    }
    let end_sym: u32 = (end as u32) + 1;
    toks.push(Token::NewLine(LexPos::new(line_no, end_sym)));
    toks
}

fn char_eq(a: char, b: char) -> (r: bool)
    ensures
        r == (a == b),
{
    a as u32 == b as u32
}

fn keyword_macro() -> (r: String)
    ensures
        r@ =~= seq!['m', 'a', 'c', 'r', 'o'],
{
    let cs = vec!['m', 'a', 'c', 'r', 'o'];
    proof {
        assert(cs@ =~= seq!['m', 'a', 'c', 'r', 'o']);
    }
    chars_to_string(&cs)
}

/// The line a token was read on; the placeholders carry none.
pub open spec fn token_line(t: Token) -> u32 {
    match t {
        Token::Nothing => 0,
        Token::Eof => 0,
        Token::NewLine(p) => p.line,
        Token::Dot(p) => p.line,
        Token::At(p) => p.line,
        Token::Percent(p) => p.line,
        Token::BrOpen(p) => p.line,
        Token::BrClose(p) => p.line,
        Token::Pipe(p) => p.line,
        Token::InvSlash(p) => p.line,
        Token::Macro(p) => p.line,
        Token::Id(_, p) => p.line,
        Token::Unknown(p) => p.line,
    }
}

/// Tokenize a whole source, given as its lines without terminators.  Line
/// numbers are counted from one; every token stands for the text at its
/// recorded position of its recorded line.
pub fn tokenize(lines: &Vec<Vec<char>>) -> (toks: Vec<Token>)
    requires
        lines@.len() < u32::MAX,
        forall|i: int| 0 <= i < lines@.len() ==> (#[trigger] lines@[i])@.len() + 1 <= u32::MAX,
    ensures
        forall|k: int|
            0 <= k < toks@.len() ==> {
                let t = #[trigger] toks@[k];
                &&& 1 <= token_line(t) <= lines@.len()
                &&& token_from_line(t, lines@[token_line(t) - 1]@, token_line(t))
            },
{
    let mut toks: Vec<Token> = Vec::new();
    let mut l: usize = 0;
    while l < lines.len()
        invariant
            lines@.len() < u32::MAX,
            forall|i: int| 0 <= i < lines@.len() ==> (#[trigger] lines@[i])@.len() + 1 <= u32::MAX,
            l <= lines@.len(),
            forall|k: int|
                0 <= k < toks@.len() ==> {
                    let t = #[trigger] toks@[k];
                    &&& 1 <= token_line(t) <= lines@.len()
                    &&& token_from_line(t, lines@[token_line(t) - 1]@, token_line(t))
                },
        decreases lines@.len() - l,
    {
        let ghost pre = toks@;
        let mut line_toks = tokenize_line(&lines[l], (l as u32) + 1);
        let ghost fresh = line_toks@;
        toks.append(&mut line_toks);
        l += 1;
        proof {
            assert forall|k: int| 0 <= k < toks@.len() implies {
                let t = #[trigger] toks@[k];
                &&& 1 <= token_line(t) <= lines@.len()
                &&& token_from_line(t, lines@[token_line(t) - 1]@, token_line(t))
            } by {
                if k < pre.len() {
                    assert(toks@[k] == pre[k]);
                } else {
                    assert(toks@[k] == fresh[k - pre.len()]);
                    assert(token_from_line(fresh[k - pre.len()], lines@[l - 1]@, l as u32));
                }
            }
        }
    }
    toks
}

/// A cursor over a token stream.  Once the stream is exhausted it hands
/// out `Eof` forever.
pub struct Lexer {
    pub toks: Vec<Token>,
    pub pos: usize,
    pub curr_token: Token,
}

impl Lexer {
    /// Tokenize a source and stand at its beginning: the stream holds the
    /// source's tokens, each standing for the text at its recorded
    /// position of its recorded line.
    pub fn new(lines: &Vec<Vec<char>>) -> (r: Self)
        requires
            lines@.len() < u32::MAX,
            forall|i: int| 0 <= i < lines@.len() ==> (#[trigger] lines@[i])@.len() + 1 <= u32::MAX,
        ensures
            r.pos == 0,
            r.curr_token is Nothing,
            forall|k: int|
                0 <= k < r.toks@.len() ==> {
                    let t = #[trigger] r.toks@[k];
                    &&& 1 <= token_line(t) <= lines@.len()
                    &&& token_from_line(t, lines@[token_line(t) - 1]@, token_line(t))
                },
    {
        Lexer { toks: tokenize(lines), pos: 0, curr_token: Token::Nothing }
    }

    /// The next token, or `Eof` past the end of the stream.
    pub fn next(&mut self) -> (t: Token)
        ensures
            final(self).toks@ == old(self).toks@,
            final(self).curr_token == t,
            old(self).pos < old(self).toks@.len() ==> {
                &&& final(self).pos == old(self).pos + 1
                &&& t == old(self).toks@[old(self).pos as int]
            },
            old(self).pos >= old(self).toks@.len() ==> {
                &&& final(self).pos == old(self).pos
                &&& t == Token::Eof
            },
            final(self).pos >= old(self).pos,
            !(t matches Token::Eof) ==> final(self).pos == old(self).pos + 1,
    {
        let t = if self.pos < self.toks.len() {
            let t = clone_token(&self.toks[self.pos]);
            self.pos += 1;
            t
        } else {
            Token::Eof
        };
        self.curr_token = clone_token(&t);
        t
    }

    /// The token most recently handed out.
    pub fn curr(&self) -> (t: Token)
        ensures
            t == self.curr_token,
    {
        clone_token(&self.curr_token)
    }
}

} // verus!
