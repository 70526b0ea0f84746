//! The lexer: turns source text into a flat token sequence.
//!
//! The executable scanner is specified against a mathematical one:
//! [`lex_from`] describes, character by character, the exact token
//! sequence (or lexical error) that a source text denotes, and
//! [`Lexer::gen_tokens`] is proved to produce it.

use vstd::prelude::*;
use vstd::string::*;

use crate::text::{
    char_alphabetic, char_numeric, is_alphabetic_char, is_numeric_char, is_whitespace_char,
    push_char, spec_whitespace, str_eq,
};
use crate::token::{KeywordType, Position, PrimitiveKind, Token, TokenType};

verus! {

/// A lexical error: a character that starts no token, or a string or
/// block comment still open when the input ends.
#[derive(Clone, Copy, Debug, PartialEq, Eq)]
pub enum LexerError {
    UnexpectedCharacter(char, Position),
    UnterminatedString(Position),
}

/// The mathematical content of a token: kind, literal text and position.
pub type TokenModel = (TokenType, Seq<char>, Position);

/// The models of a token sequence.
pub open spec fn models_of(ts: Seq<Token>) -> Seq<TokenModel> {
    ts.map_values(|t: Token| t.model())
}

/// The character at offset `i`, with the NUL character standing for
/// "past the end", exactly as the scanner sees it.
pub open spec fn char_at(s: Seq<char>, i: int) -> char {
    if 0 <= i < s.len() {
        s[i]
    } else {
        '\0'
    }
}

/// One step of the scanner's cursor: the offset advances by one
/// character (never past the end) and the line/column counters follow,
/// a newline resetting the column and bumping the line.
pub open spec fn sp_advance(s: Seq<char>, p: Position) -> Position {
    if p.index < s.len() {
        let j = (p.index + 1) as usize;
        let c = char_at(s, j as int);
        if c == '\n' {
            Position { line: (p.line + 1) as usize, col: 0, index: j }
        } else {
            Position { line: p.line, col: (p.col + 1) as usize, index: j }
        }
    } else {
        p
    }
}

/// Where an identifier run starting at `p` ends: the first position whose
/// character is neither alphabetic nor an underscore.
pub open spec fn sp_ident_end(s: Seq<char>, p: Position) -> Position
    decreases s.len() - p.index,
        when s.len() <= usize::MAX
{
    let c = char_at(s, p.index as int);
    if c != '\0' && (char_alphabetic(c) || c == '_') {
        sp_ident_end(s, sp_advance(s, p))
    } else {
        p
    }
}

/// Where a digit run starting at `p` ends.
pub open spec fn sp_number_end(s: Seq<char>, p: Position) -> Position
    decreases s.len() - p.index,
        when s.len() <= usize::MAX
{
    let c = char_at(s, p.index as int);
    if c != '\0' && char_numeric(c) {
        sp_number_end(s, sp_advance(s, p))
    } else {
        p
    }
}

/// Where a line comment starting at `p` ends: at the next newline or at
/// the end of the input, whichever comes first.
pub open spec fn sp_line_comment_end(s: Seq<char>, p: Position) -> Position
    decreases s.len() - p.index,
        when s.len() <= usize::MAX
{
    let c = char_at(s, p.index as int);
    if c != '\n' && c != '\0' {
        sp_line_comment_end(s, sp_advance(s, p))
    } else {
        p
    }
}

/// Scanning a block comment from `p` (the first character after the
/// opening `/*` marker's slash): the position just past the closing
/// `*/`, or `None` if the input ends first.
pub open spec fn sp_block_comment_end(s: Seq<char>, p: Position) -> Option<Position>
    decreases s.len() - p.index,
        when s.len() <= usize::MAX
{
    let c = char_at(s, p.index as int);
    if c == '*' && char_at(s, p.index + 1) == '/' {
        Some(sp_advance(s, sp_advance(s, p)))
    } else if c == '\0' {
        None
    } else {
        sp_block_comment_end(s, sp_advance(s, p))
    }
}

/// Scanning a string body from `p` with closing quote `q` and the
/// characters `acc` already read: ends at the closing quote (returning
/// the position of the quote and the decoded body), maps the escapes
/// `\n \t \r \\ \"`, fails on any other escape, and fails as
/// unterminated when the input ends first.
pub open spec fn sp_string_scan(s: Seq<char>, p: Position, q: char, acc: Seq<char>) -> Result<
    (Position, Seq<char>),
    LexerError,
>
    decreases s.len() - p.index,
        when s.len() <= usize::MAX
{
    let c = char_at(s, p.index as int);
    if c == q {
        Ok((p, acc))
    } else if c == '\0' {
        Err(LexerError::UnterminatedString(p))
    } else if c == '\\' {
        let p1 = sp_advance(s, p);
        let e = char_at(s, p1.index as int);
        if e == 'n' {
            sp_string_scan(s, sp_advance(s, p1), q, acc.push('\n'))
        } else if e == 't' {
            sp_string_scan(s, sp_advance(s, p1), q, acc.push('\t'))
        } else if e == 'r' {
            sp_string_scan(s, sp_advance(s, p1), q, acc.push('\r'))
        } else if e == '\\' {
            sp_string_scan(s, sp_advance(s, p1), q, acc.push('\\'))
        } else if e == '"' {
            sp_string_scan(s, sp_advance(s, p1), q, acc.push('"'))
        } else {
            Err(LexerError::UnexpectedCharacter(e, p1))
        }
    } else {
        sp_string_scan(s, sp_advance(s, p), q, acc.push(c))
    }
}

/// Which reserved word a scanned identifier is, if any. `fn` and
/// `function` both name the function-literal keyword.
pub open spec fn sp_keyword(w: Seq<char>) -> Option<KeywordType> {
    if w == "let"@ {
        Some(KeywordType::Let)
    } else if w == "function"@ {
        Some(KeywordType::Fn)
    } else if w == "fn"@ {
        Some(KeywordType::Fn)
    } else if w == "return"@ {
        Some(KeywordType::Return)
    } else if w == "if"@ {
        Some(KeywordType::If)
    } else if w == "else"@ {
        Some(KeywordType::Else)
    } else if w == "true"@ {
        Some(KeywordType::True)
    } else if w == "false"@ {
        Some(KeywordType::False)
    } else if w == "do"@ {
        Some(KeywordType::Do)
    } else if w == "end"@ {
        Some(KeywordType::End)
    } else if w == "loop"@ {
        Some(KeywordType::Loop)
    } else if w == "exit"@ {
        Some(KeywordType::Exit)
    } else if w == "null"@ {
        Some(KeywordType::Null)
    } else if w == "try"@ {
        Some(KeywordType::Try)
    } else if w == "catch"@ {
        Some(KeywordType::Catch)
    } else if w == "throw"@ {
        Some(KeywordType::Throw)
    } else if w == "and"@ {
        Some(KeywordType::And)
    } else if w == "or"@ {
        Some(KeywordType::Or)
    } else if w == "not"@ {
        Some(KeywordType::Not)
    } else if w == "is"@ {
        Some(KeywordType::Is)
    } else if w == "import"@ {
        Some(KeywordType::Import)
    } else if w == "as"@ {
        Some(KeywordType::As)
    } else if w == "from"@ {
        Some(KeywordType::From)
    } else if w == "to"@ {
        Some(KeywordType::To)
    } else if w == "foreach"@ {
        Some(KeywordType::Foreach)
    } else if w == "str"@ {
        Some(KeywordType::Primitive(PrimitiveKind::String))
    } else if w == "number"@ {
        Some(KeywordType::Primitive(PrimitiveKind::Number))
    } else if w == "arr"@ {
        Some(KeywordType::Primitive(PrimitiveKind::Array))
    } else if w == "kv"@ {
        Some(KeywordType::Primitive(PrimitiveKind::Kv))
    } else if w == "bool"@ {
        Some(KeywordType::Primitive(PrimitiveKind::Boolean))
    } else {
        None
    }
}

/// The model of the token an identifier run starting at `p` produces:
/// a keyword token if the run matches the keyword table, otherwise an
/// identifier token, positioned just past the run.
pub open spec fn sp_ident_token(s: Seq<char>, p: Position) -> TokenModel {
    let q = sp_ident_end(s, p);
    let w = s.subrange(p.index as int, q.index as int);
    let tt = match sp_keyword(w) {
        Some(k) => TokenType::Keyword(k),
        None => TokenType::Ident,
    };
    (tt, w, q)
}

/// The model of the number token a digit run starting at `p` produces.
pub open spec fn sp_number_token(s: Seq<char>, p: Position) -> TokenModel {
    let q = sp_number_end(s, p);
    (TokenType::Number, s.subrange(p.index as int, q.index as int), q)
}

/// Prefixes a token onto the result of scanning the rest of the input.
pub open spec fn lex_cons(t: TokenModel, r: Result<Seq<TokenModel>, LexerError>) -> Result<
    Seq<TokenModel>,
    LexerError,
> {
    match r {
        Ok(rest) => Ok(seq![t] + rest),
        Err(e) => Err(e),
    }
}

pub proof fn lemma_ident_end(s: Seq<char>, p: Position)
    requires
        s.len() <= usize::MAX,
    ensures
        sp_ident_end(s, p).index >= p.index,
        p.index <= s.len() ==> sp_ident_end(s, p).index <= s.len(),
    decreases s.len() - p.index,
{
    let c = char_at(s, p.index as int);
    if c != '\0' && (char_alphabetic(c) || c == '_') {
        lemma_ident_end(s, sp_advance(s, p));
    }
}

pub proof fn lemma_number_end(s: Seq<char>, p: Position)
    requires
        s.len() <= usize::MAX,
    ensures
        sp_number_end(s, p).index >= p.index,
        p.index <= s.len() ==> sp_number_end(s, p).index <= s.len(),
    decreases s.len() - p.index,
{
    let c = char_at(s, p.index as int);
    if c != '\0' && char_numeric(c) {
        lemma_number_end(s, sp_advance(s, p));
    }
}

pub proof fn lemma_line_comment_end(s: Seq<char>, p: Position)
    requires
        s.len() <= usize::MAX,
    ensures
        sp_line_comment_end(s, p).index >= p.index,
        p.index <= s.len() ==> sp_line_comment_end(s, p).index <= s.len(),
    decreases s.len() - p.index,
{
    let c = char_at(s, p.index as int);
    if c != '\n' && c != '\0' {
        lemma_line_comment_end(s, sp_advance(s, p));
    }
}

pub proof fn lemma_block_comment_end(s: Seq<char>, p: Position)
    requires
        s.len() <= usize::MAX,
    ensures
        sp_block_comment_end(s, p) is Some ==> sp_block_comment_end(s, p).unwrap().index
            > p.index,
        sp_block_comment_end(s, p) is Some && p.index <= s.len() ==> sp_block_comment_end(
            s,
            p,
        ).unwrap().index <= s.len(),
    decreases s.len() - p.index,
{
    let c = char_at(s, p.index as int);
    if c == '*' && char_at(s, p.index + 1) == '/' {
    } else if c != '\0' {
        lemma_block_comment_end(s, sp_advance(s, p));
    }
}

pub proof fn lemma_string_scan(s: Seq<char>, p: Position, q: char, acc: Seq<char>)
    requires
        s.len() <= usize::MAX,
    ensures
        sp_string_scan(s, p, q, acc) is Ok ==> sp_string_scan(s, p, q, acc).unwrap().0.index
            >= p.index,
        sp_string_scan(s, p, q, acc) is Ok && p.index <= s.len() ==> sp_string_scan(
            s,
            p,
            q,
            acc,
        ).unwrap().0.index <= s.len(),
    decreases s.len() - p.index,
{
    let c = char_at(s, p.index as int);
    if c == q || c == '\0' {
    } else if c == '\\' {
        let p1 = sp_advance(s, p);
        let e = char_at(s, p1.index as int);
        if e == 'n' || e == 't' || e == 'r' || e == '\\' || e == '"' {
            lemma_string_scan(s, sp_advance(s, p1), q, acc.push(if e == 'n' {
                '\n'
            } else if e == 't' {
                '\t'
            } else if e == 'r' {
                '\r'
            } else if e == '\\' {
                '\\'
            } else {
                '"'
            }));
        }
    } else {
        lemma_string_scan(s, sp_advance(s, p), q, acc.push(c));
    }
}

/// The token sequence (terminated by exactly one end-of-input token) or
/// lexical error that the source text `s` denotes from position `p` on.
///
/// Classification order per step: end of input, whitespace (skipped),
/// identifier/keyword runs (alphabetic or underscore start), digit runs, then the fixed symbols, the two
/// comment forms, and string literals delimited symmetrically by `"` or
/// `'`; any other character is a lexical error.
pub open spec fn lex_from(s: Seq<char>, p: Position) -> Result<Seq<TokenModel>, LexerError>
    decreases s.len() - p.index,
        when s.len() <= usize::MAX
{
    let c = char_at(s, p.index as int);
    if c == '\0' {
        Ok(seq![(TokenType::Eof, ""@, p)])
    } else if spec_whitespace(c) {
        lex_from(s, sp_advance(s, p))
    } else if char_alphabetic(c) || c == '_' {
        proof {
            lemma_ident_end(s, sp_advance(s, p));
        }
        lex_cons(sp_ident_token(s, p), lex_from(s, sp_ident_end(s, p)))
    } else if char_numeric(c) {
        proof {
            lemma_number_end(s, sp_advance(s, p));
        }
        lex_cons(sp_number_token(s, p), lex_from(s, sp_number_end(s, p)))
    } else if c == ';' {
        lex_cons((TokenType::Semicolon, ";"@, p), lex_from(s, sp_advance(s, p)))
    } else if c == '+' {
        lex_cons((TokenType::Add, "+"@, p), lex_from(s, sp_advance(s, p)))
    } else if c == '-' {
        lex_cons((TokenType::Sub, "-"@, p), lex_from(s, sp_advance(s, p)))
    } else if c == '*' {
        lex_cons((TokenType::Mul, "*"@, p), lex_from(s, sp_advance(s, p)))
    } else if c == '.' {
        lex_cons((TokenType::Period, "."@, p), lex_from(s, sp_advance(s, p)))
    } else if c == '/' {
        let c1 = char_at(s, p.index + 1);
        if c1 == '/' {
            proof {
                lemma_line_comment_end(s, sp_advance(s, p));
            }
            lex_from(s, sp_line_comment_end(s, sp_advance(s, p)))
        } else if c1 == '*' {
            let start = sp_advance(s, p);
            proof {
                lemma_block_comment_end(s, start);
            }
            match sp_block_comment_end(s, start) {
                Some(pe) => lex_from(s, pe),
                None => Err(LexerError::UnterminatedString(start)),
            }
        } else {
            lex_cons((TokenType::Div, "/"@, p), lex_from(s, sp_advance(s, p)))
        }
    } else if c == '=' {
        if char_at(s, p.index + 1) == '=' {
            let p1 = sp_advance(s, p);
            lex_cons((TokenType::Eq, "=="@, p1), lex_from(s, sp_advance(s, p1)))
        } else {
            lex_cons((TokenType::Assign, "="@, p), lex_from(s, sp_advance(s, p)))
        }
    } else if c == '!' {
        if char_at(s, p.index + 1) == '=' {
            let p1 = sp_advance(s, p);
            lex_cons((TokenType::NotEq, "!="@, p1), lex_from(s, sp_advance(s, p1)))
        } else {
            lex_cons((TokenType::Bang, "!"@, p), lex_from(s, sp_advance(s, p)))
        }
    } else if c == '<' {
        lex_cons((TokenType::Lt, "<"@, p), lex_from(s, sp_advance(s, p)))
    } else if c == '>' {
        lex_cons((TokenType::Gt, ">"@, p), lex_from(s, sp_advance(s, p)))
    } else if c == '(' {
        lex_cons((TokenType::LParen, "("@, p), lex_from(s, sp_advance(s, p)))
    } else if c == ')' {
        lex_cons((TokenType::RParen, ")"@, p), lex_from(s, sp_advance(s, p)))
    } else if c == '{' {
        lex_cons((TokenType::LBrace, "{"@, p), lex_from(s, sp_advance(s, p)))
    } else if c == '}' {
        lex_cons((TokenType::RBrace, "}"@, p), lex_from(s, sp_advance(s, p)))
    } else if c == '[' {
        lex_cons((TokenType::LBracket, "["@, p), lex_from(s, sp_advance(s, p)))
    } else if c == ']' {
        lex_cons((TokenType::RBracket, "]"@, p), lex_from(s, sp_advance(s, p)))
    } else if c == ',' {
        lex_cons((TokenType::Comma, ","@, p), lex_from(s, sp_advance(s, p)))
    } else if c == ':' {
        lex_cons((TokenType::Colon, ":"@, p), lex_from(s, sp_advance(s, p)))
    } else if c == '"' || c == '\'' {
        proof {
            lemma_string_scan(s, sp_advance(s, p), c, Seq::empty());
        }
        match sp_string_scan(s, sp_advance(s, p), c, Seq::empty()) {
            Ok((pe, lit)) => lex_cons((TokenType::String, lit, pe), lex_from(s, sp_advance(s, pe))),
            Err(e) => Err(e),
        }
    } else {
        Err(LexerError::UnexpectedCharacter(c, p))
    }
}

/// One step of the scanning loop: if the tokens gathered so far lead the
/// full scan to the scan from `pc`, and the scan from `pc` yields one
/// token `t` followed by the scan from `q`, then gathering `t` leads the
/// full scan to the scan from `q`.
proof fn lemma_lex_step(
    s: Seq<char>,
    p0: Position,
    pc: Position,
    q: Position,
    m0: Seq<TokenModel>,
    t: TokenModel,
)
    requires
        match lex_from(s, pc) {
            Ok(rest) => lex_from(s, p0) == Ok::<Seq<TokenModel>, LexerError>(m0 + rest),
            Err(e) => lex_from(s, p0) == Err::<Seq<TokenModel>, LexerError>(e),
        },
        lex_from(s, pc) == lex_cons(t, lex_from(s, q)),
    ensures
        match lex_from(s, q) {
            Ok(rest) => lex_from(s, p0) == Ok::<Seq<TokenModel>, LexerError>(
                (m0 + seq![t]) + rest,
            ),
            Err(e) => lex_from(s, p0) == Err::<Seq<TokenModel>, LexerError>(e),
        },
{
    match lex_from(s, q) {
        Ok(rest) => {
            assert(m0 + (seq![t] + rest) =~= (m0 + seq![t]) + rest);
        },
        Err(e) => {},
    }
}

/// The lexer: a cursor over the characters of one source buffer.
pub struct Lexer {
    src: Vec<char>,
    position: Position,
    current: char,
}

impl Lexer {
    /// The cursor is inside the buffer, the line and column counters are
    /// bounded by it, and `current` is the character under the cursor
    /// (NUL at or past the end).
    pub closed spec fn wf(&self) -> bool {
        &&& self.position.index <= self.src@.len()
        &&& self.src@.len() <= usize::MAX
        &&& self.current == char_at(self.src@, self.position.index as int)
        &&& self.position.line <= self.position.index
        &&& self.position.col <= self.position.index
    }

    /// The characters this lexer is scanning.
    pub closed spec fn src_model(&self) -> Seq<char> {
        self.src@
    }

    /// The cursor's current position.
    pub closed spec fn pos(&self) -> Position {
        self.position
    }

    /// The character under the cursor.
    pub closed spec fn cur(&self) -> char {
        self.current
    }

    /// A new lexer at the start of `src`.
    #[verifier::loop_isolation(false)]
    pub fn new(src: String) -> (l: Lexer)
        ensures
            l.wf(),
            l.src_model() == src@,
            l.pos() == (Position { line: 0, col: 0, index: 0 }),
    {
        let n = src.as_str().unicode_len();
        let mut chars: Vec<char> = Vec::new();
        let mut i: usize = 0;
        while i < n
            invariant
                i <= n,
                n == src@.len(),
                chars@ == src@.subrange(0, i as int),
            decreases n - i,
        {
            let c = src.as_str().get_char(i);
            chars.push(c);
            proof {
                assert(src@.subrange(0, i + 1 as int) =~= src@.subrange(0, i as int).push(
                    src@[i as int],
                ));
            }
            i = i + 1;
        }
        proof {
            assert(chars@ =~= src@);
        }
        let current = if chars.len() > 0 {
            chars[0]
        } else {
            '\0'
        };
        Lexer { src: chars, position: Position::new(), current }
    }

    /// Moves the cursor one character forward (never past the end),
    /// updating the line and column counters.
    pub fn advance(&mut self)
        requires
            old(self).wf(),
        ensures
            final(self).wf(),
            final(self).src_model() == old(self).src_model(),
            final(self).pos() == sp_advance(old(self).src_model(), old(self).pos()),
    {
        if self.position.index < self.src.len() {
            let j = self.position.index + 1;
            let c = if j < self.src.len() {
                self.src[j]
            } else {
                '\0'
            };
            if c == '\n' {
                self.position = Position { line: self.position.line + 1, col: 0, index: j };
            } else {
                self.position = Position {
                    line: self.position.line,
                    col: self.position.col + 1,
                    index: j,
                };
            }
            self.current = c;
        }
    }

    /// The character one past the cursor, NUL at or past the end.
    fn peek(&self) -> (c: char)
        requires
            self.wf(),
        ensures
            c == char_at(self.src_model(), self.pos().index + 1),
    {
        if self.position.index < self.src.len() {
            let j = self.position.index + 1;
            if j < self.src.len() {
                self.src[j]
            } else {
                '\0'
            }
        } else {
            '\0'
        }
    }

    /// A token for a fixed symbol, positioned at the cursor.
    fn simple_token(&self, ttype: TokenType, lit: &str) -> (t: Token)
        ensures
            t.model() == (ttype, lit@, self.pos()),
    {
        Token { ttype, literal: String::from_str(lit), position: self.position }
    }

    /// Scans an identifier or keyword run.
    #[verifier::loop_isolation(false)]
    fn gen_ident(&mut self) -> (t: Token)
        requires
            old(self).wf(),
        ensures
            final(self).wf(),
            final(self).src_model() == old(self).src_model(),
            final(self).pos() == sp_ident_end(old(self).src_model(), old(self).pos()),
            t.model() == sp_ident_token(old(self).src_model(), old(self).pos()),
    {
        let ghost p0 = self.position;
        let mut lit = String::new();
        proof {
            lemma_ident_end(self.src@, p0);
        }
        while is_alphabetic_char(self.current) || self.current == '_'
            invariant
                self.wf(),
                self.src@ == old(self).src@,
                p0.index <= self.position.index,
                sp_ident_end(self.src@, p0) == sp_ident_end(self.src@, self.position),
                lit@ == self.src@.subrange(p0.index as int, self.position.index as int),
            decreases self.src@.len() - self.position.index,
        {
            push_char(&mut lit, self.current);
            let ghost before = self.position;
            self.advance();
            proof {
                assert(self.src@.subrange(p0.index as int, self.position.index as int)
                    =~= self.src@.subrange(p0.index as int, before.index as int).push(
                    self.src@[before.index as int],
                ));
            }
        }
        let tt = match keyword_of(&lit) {
            Some(k) => TokenType::Keyword(k),
            None => TokenType::Ident,
        };
        Token { ttype: tt, literal: lit, position: self.position }
    }

    /// Scans a digit run.
    #[verifier::loop_isolation(false)]
    fn gen_number(&mut self) -> (t: Token)
        requires
            old(self).wf(),
        ensures
            final(self).wf(),
            final(self).src_model() == old(self).src_model(),
            final(self).pos() == sp_number_end(old(self).src_model(), old(self).pos()),
            t.model() == sp_number_token(old(self).src_model(), old(self).pos()),
    {
        let ghost p0 = self.position;
        let mut lit = String::new();
        while is_numeric_char(self.current)
            invariant
                self.wf(),
                self.src@ == old(self).src@,
                p0.index <= self.position.index,
                sp_number_end(self.src@, p0) == sp_number_end(self.src@, self.position),
                lit@ == self.src@.subrange(p0.index as int, self.position.index as int),
            decreases self.src@.len() - self.position.index,
        {
            push_char(&mut lit, self.current);
            let ghost before = self.position;
            self.advance();
            proof {
                assert(self.src@.subrange(p0.index as int, self.position.index as int)
                    =~= self.src@.subrange(p0.index as int, before.index as int).push(
                    self.src@[before.index as int],
                ));
            }
        }
        Token { ttype: TokenType::Number, literal: lit, position: self.position }
    }

    /// Scans a string literal's body; the cursor stands on the opening
    /// quote at entry and on the closing quote at exit.
    #[verifier::loop_isolation(false)]
    fn gen_string(&mut self) -> (r: Result<Token, LexerError>)
        requires
            old(self).wf(),
            old(self).cur() != '\0',
        ensures
            final(self).wf(),
            final(self).src_model() == old(self).src_model(),
            ({
                let scan = sp_string_scan(
                    old(self).src_model(),
                    sp_advance(old(self).src_model(), old(self).pos()),
                    old(self).cur(),
                    Seq::empty(),
                );
                match r {
                    Ok(t) => scan is Ok && t.model() == (
                        TokenType::String,
                        scan.unwrap().1,
                        scan.unwrap().0,
                    ) && final(self).pos() == scan.unwrap().0,
                    Err(e) => scan == Err::<(Position, Seq<char>), LexerError>(e),
                }
            }),
    {
        let quote = self.current;
        self.advance();
        let mut lit = String::new();
        while self.current != quote
            invariant
                self.wf(),
                self.src@ == old(self).src@,
                quote != '\0',
                sp_string_scan(
                    self.src@,
                    sp_advance(old(self).src@, old(self).position),
                    quote,
                    Seq::empty(),
                ) == sp_string_scan(self.src@, self.position, quote, lit@),
            decreases self.src@.len() - self.position.index,
        {
            let ghost pit = self.position;
            let ghost lit0 = lit@;
            if self.current == '\0' {
                return Err(LexerError::UnterminatedString(self.position));
            }
            if self.current == '\\' {
                self.advance();
                let e = self.current;
                let decoded: char = if e == 'n' {
                    '\n'
                } else if e == 't' {
                    '\t'
                } else if e == 'r' {
                    '\r'
                } else if e == '\\' {
                    '\\'
                } else if e == '"' {
                    '"'
                } else {
                    proof {
                        assert(self.position == sp_advance(self.src@, pit));
                        assert(sp_string_scan(self.src@, pit, quote, lit0) == Err::<
                            (Position, Seq<char>),
                            LexerError,
                        >(LexerError::UnexpectedCharacter(e, self.position)));
                    }
                    return Err(LexerError::UnexpectedCharacter(e, self.position));
                };
                push_char(&mut lit, decoded);
                self.advance();
                proof {
                    assert(sp_string_scan(self.src@, pit, quote, lit0) == sp_string_scan(
                        self.src@,
                        self.position,
                        quote,
                        lit@,
                    ));
                }
            } else {
                push_char(&mut lit, self.current);
                self.advance();
                proof {
                    assert(sp_string_scan(self.src@, pit, quote, lit0) == sp_string_scan(
                        self.src@,
                        self.position,
                        quote,
                        lit@,
                    ));
                }
            }
        }
        Ok(Token { ttype: TokenType::String, literal: lit, position: self.position })
    }

    /// Produces the token sequence of the remaining input, or the first
    /// lexical error. The result always ends with exactly one
    /// end-of-input token and is exactly what [`lex_from`] denotes.
    #[verifier::loop_isolation(false)]
    #[verifier::rlimit(30)]
    pub fn gen_tokens(&mut self) -> (r: Result<Vec<Token>, LexerError>)
        requires
            old(self).wf(),
        ensures
            final(self).wf(),
            final(self).src_model() == old(self).src_model(),
            match r {
                Ok(toks) => lex_from(old(self).src_model(), old(self).pos()) == Ok::<
                    Seq<TokenModel>,
                    LexerError,
                >(models_of(toks@)),
                Err(e) => lex_from(old(self).src_model(), old(self).pos()) == Err::<
                    Seq<TokenModel>,
                    LexerError,
                >(e),
            },
    {
        let mut tokens: Vec<Token> = Vec::new();
        let ghost p0 = self.position;
        while self.current != '\0'
            invariant
                self.wf(),
                self.src@ == old(self).src@,
                ({
                    let full = lex_from(self.src@, p0);
                    match lex_from(self.src@, self.position) {
                        Ok(rest) => full == Ok::<Seq<TokenModel>, LexerError>(models_of(tokens@) + rest),
                        Err(e) => full == Err::<Seq<TokenModel>, LexerError>(e),
                    }
                }),
            decreases self.src@.len() - self.position.index,
        {
            let ghost pc = self.position;
            if is_whitespace_char(self.current) {
                self.advance();
            } else if is_alphabetic_char(self.current) || self.current == '_' {
                proof {
                    lemma_ident_end(self.src@, sp_advance(self.src@, pc));
                }
                let ghost m0 = models_of(tokens@);
                let t = self.gen_ident();
                proof {
                    assert(models_of(tokens@.push(t)) =~= m0 + seq![t.model()]);
                    lemma_lex_step(self.src@, p0, pc, self.position, m0, t.model());
                }
                tokens.push(t);
            } else if is_numeric_char(self.current) {
                proof {
                    lemma_number_end(self.src@, sp_advance(self.src@, pc));
                }
                let ghost m0 = models_of(tokens@);
                let t = self.gen_number();
                proof {
                    assert(models_of(tokens@.push(t)) =~= m0 + seq![t.model()]);
                    lemma_lex_step(self.src@, p0, pc, self.position, m0, t.model());
                }
                tokens.push(t);
            } else if self.current == '/' && self.peek() == '/' {
                self.advance();
                proof {
                    lemma_line_comment_end(self.src@, self.position);
                }
                while self.current != '\n' && self.current != '\0'
                    invariant
                        self.wf(),
                        self.src@ == old(self).src@,
                        sp_line_comment_end(self.src@, sp_advance(self.src@, pc))
                            == sp_line_comment_end(self.src@, self.position),
                    decreases self.src@.len() - self.position.index,
                {
                    self.advance();
                }
                proof {
                    assert(lex_from(self.src@, pc) == lex_from(self.src@, self.position));
                }
            } else if self.current == '/' && self.peek() == '*' {
                self.advance();
                let start = self.position;
                proof {
                    lemma_block_comment_end(self.src@, start);
                }
                while !(self.current == '*' && self.peek() == '/')
                    invariant
                        self.wf(),
                        self.src@ == old(self).src@,
                        sp_block_comment_end(self.src@, start) == sp_block_comment_end(
                            self.src@,
                            self.position,
                        ),
                    decreases self.src@.len() - self.position.index,
                {
                    if self.current == '\0' {
                        proof {
                            assert(sp_block_comment_end(self.src@, start) is None);
                            assert(lex_from(self.src@, pc) == Err::<Seq<TokenModel>, LexerError>(
                                LexerError::UnterminatedString(start),
                            ));
                        }
                        return Err(LexerError::UnterminatedString(start));
                    }
                    self.advance();
                }
                self.advance();
                self.advance();
                proof {
                    assert(lex_from(self.src@, pc) == lex_from(self.src@, self.position));
                }
            } else if self.current == '=' && self.peek() == '=' {
                self.advance();
                let ghost m0 = models_of(tokens@);
                let t = self.simple_token(TokenType::Eq, "==");
                proof {
                    assert(models_of(tokens@.push(t)) =~= m0 + seq![t.model()]);
                }
                tokens.push(t);
                self.advance();
                proof {
                    lemma_lex_step(self.src@, p0, pc, self.position, m0, t.model());
                }
            } else if self.current == '!' && self.peek() == '=' {
                self.advance();
                let ghost m0 = models_of(tokens@);
                let t = self.simple_token(TokenType::NotEq, "!=");
                proof {
                    assert(models_of(tokens@.push(t)) =~= m0 + seq![t.model()]);
                }
                tokens.push(t);
                self.advance();
                proof {
                    lemma_lex_step(self.src@, p0, pc, self.position, m0, t.model());
                }
            } else if self.current == '"' || self.current == '\'' {
                proof {
                    lemma_string_scan(
                        self.src@,
                        sp_advance(self.src@, pc),
                        self.current,
                        Seq::empty(),
                    );
                }
                let ghost m0 = models_of(tokens@);
                let t = match self.gen_string() {
                    Ok(t) => t,
                    Err(e) => {
                        proof {
                            assert(lex_from(self.src@, pc) == Err::<Seq<TokenModel>, LexerError>(
                                e,
                            ));
                        }
                        return Err(e);
                    },
                };
                proof {
                    assert(models_of(tokens@.push(t)) =~= m0 + seq![t.model()]);
                }
                tokens.push(t);
                self.advance();
                proof {
                    lemma_lex_step(self.src@, p0, pc, self.position, m0, t.model());
                }
            } else {
                let (tt, lit): (TokenType, &str) = if self.current == ';' {
                    (TokenType::Semicolon, ";")
                } else if self.current == '+' {
                    (TokenType::Add, "+")
                } else if self.current == '-' {
                    (TokenType::Sub, "-")
                } else if self.current == '*' {
                    (TokenType::Mul, "*")
                } else if self.current == '.' {
                    (TokenType::Period, ".")
                } else if self.current == '/' {
                    (TokenType::Div, "/")
                } else if self.current == '=' {
                    (TokenType::Assign, "=")
                } else if self.current == '!' {
                    (TokenType::Bang, "!")
                } else if self.current == '<' {
                    (TokenType::Lt, "<")
                } else if self.current == '>' {
                    (TokenType::Gt, ">")
                } else if self.current == '(' {
                    (TokenType::LParen, "(")
                } else if self.current == ')' {
                    (TokenType::RParen, ")")
                } else if self.current == '{' {
                    (TokenType::LBrace, "{")
                } else if self.current == '}' {
                    (TokenType::RBrace, "}")
                } else if self.current == '[' {
                    (TokenType::LBracket, "[")
                } else if self.current == ']' {
                    (TokenType::RBracket, "]")
                } else if self.current == ',' {
                    (TokenType::Comma, ",")
                } else if self.current == ':' {
                    (TokenType::Colon, ":")
                } else {
                    return Err(LexerError::UnexpectedCharacter(self.current, self.position));
                };
                let ghost m0 = models_of(tokens@);
                let t = self.simple_token(tt, lit);
                proof {
                    assert(models_of(tokens@.push(t)) =~= m0 + seq![t.model()]);
                }
                tokens.push(t);
                self.advance();
                proof {
                    lemma_lex_step(self.src@, p0, pc, self.position, m0, t.model());
                }
            }
        }
        let t = Token { ttype: TokenType::Eof, literal: String::new(), position: self.position };
        proof {
            reveal_strlit("");
            assert(t.literal@ =~= ""@);
            assert(models_of(tokens@.push(t)) =~= models_of(tokens@) + seq![t.model()]);
            assert(models_of(tokens@) + seq![t.model()] =~= models_of(tokens@.push(t)));
        }
        tokens.push(t);
        Ok(tokens)
    }
}

/// Which reserved word `w` is, if any; decides [`sp_keyword`].
pub fn keyword_of(w: &String) -> (r: Option<KeywordType>)
    ensures
        r == sp_keyword(w@),
{
    if str_eq(w.as_str(), "let") {
        Some(KeywordType::Let)
    } else if str_eq(w.as_str(), "function") {
        Some(KeywordType::Fn)
    } else if str_eq(w.as_str(), "fn") {
        Some(KeywordType::Fn)
    } else if str_eq(w.as_str(), "return") {
        Some(KeywordType::Return)
    } else if str_eq(w.as_str(), "if") {
        Some(KeywordType::If)
    } else if str_eq(w.as_str(), "else") {
        Some(KeywordType::Else)
    } else if str_eq(w.as_str(), "true") {
        Some(KeywordType::True)
    } else if str_eq(w.as_str(), "false") {
        Some(KeywordType::False)
    } else if str_eq(w.as_str(), "do") {
        Some(KeywordType::Do)
    } else if str_eq(w.as_str(), "end") {
        Some(KeywordType::End)
    } else if str_eq(w.as_str(), "loop") {
        Some(KeywordType::Loop)
    } else if str_eq(w.as_str(), "exit") {
        Some(KeywordType::Exit)
    } else if str_eq(w.as_str(), "null") {
        Some(KeywordType::Null)
    } else if str_eq(w.as_str(), "try") {
        Some(KeywordType::Try)
    } else if str_eq(w.as_str(), "catch") {
        Some(KeywordType::Catch)
    } else if str_eq(w.as_str(), "throw") {
        Some(KeywordType::Throw)
    } else if str_eq(w.as_str(), "and") {
        Some(KeywordType::And)
    } else if str_eq(w.as_str(), "or") {
        Some(KeywordType::Or)
    } else if str_eq(w.as_str(), "not") {
        Some(KeywordType::Not)
    } else if str_eq(w.as_str(), "is") {
        Some(KeywordType::Is)
    } else if str_eq(w.as_str(), "import") {
        Some(KeywordType::Import)
    } else if str_eq(w.as_str(), "as") {
        Some(KeywordType::As)
    } else if str_eq(w.as_str(), "from") {
        Some(KeywordType::From)
    } else if str_eq(w.as_str(), "to") {
        Some(KeywordType::To)
    } else if str_eq(w.as_str(), "foreach") {
        Some(KeywordType::Foreach)
    } else if str_eq(w.as_str(), "str") {
        Some(KeywordType::Primitive(PrimitiveKind::String))
    } else if str_eq(w.as_str(), "number") {
        Some(KeywordType::Primitive(PrimitiveKind::Number))
    } else if str_eq(w.as_str(), "arr") {
        Some(KeywordType::Primitive(PrimitiveKind::Array))
    } else if str_eq(w.as_str(), "kv") {
        Some(KeywordType::Primitive(PrimitiveKind::Kv))
    } else if str_eq(w.as_str(), "bool") {
        Some(KeywordType::Primitive(PrimitiveKind::Boolean))
    } else {
        None
    }
}


/// Law: a successful scan yields exactly one end-of-input token, and it
/// stands last. Every other token has another kind.
pub proof fn lemma_lex_single_eof(s: Seq<char>, p: Position)
    requires
        s.len() <= usize::MAX,
    ensures
        lex_from(s, p) matches Ok(toks) ==> toks.len() >= 1 && toks.last().0 == TokenType::Eof
            && forall|i: int| 0 <= i < toks.len() - 1 ==> (#[trigger] toks[i]).0 != TokenType::Eof,
    decreases s.len() - p.index,
{
    let c = char_at(s, p.index as int);
    if c == '\0' {
    } else if spec_whitespace(c) {
        lemma_lex_single_eof(s, sp_advance(s, p));
    } else if char_alphabetic(c) || c == '_' {
        lemma_ident_end(s, sp_advance(s, p));
        lemma_lex_single_eof(s, sp_ident_end(s, p));
        lemma_cons_keeps_single_eof(sp_ident_token(s, p), lex_from(s, sp_ident_end(s, p)));
    } else if char_numeric(c) {
        lemma_number_end(s, sp_advance(s, p));
        lemma_lex_single_eof(s, sp_number_end(s, p));
        lemma_cons_keeps_single_eof(sp_number_token(s, p), lex_from(s, sp_number_end(s, p)));
    } else if c == '/' && char_at(s, p.index + 1) == '/' {
        lemma_line_comment_end(s, sp_advance(s, p));
        lemma_lex_single_eof(s, sp_line_comment_end(s, sp_advance(s, p)));
    } else if c == '/' && char_at(s, p.index + 1) == '*' {
        let start = sp_advance(s, p);
        lemma_block_comment_end(s, start);
        match sp_block_comment_end(s, start) {
            Some(pe) => {
                lemma_lex_single_eof(s, pe);
            },
            None => {},
        }
    } else if (c == '=' || c == '!') && char_at(s, p.index + 1) == '=' {
        let p1 = sp_advance(s, p);
        lemma_lex_single_eof(s, sp_advance(s, p1));
        if c == '=' {
            lemma_cons_keeps_single_eof((TokenType::Eq, "=="@, p1), lex_from(s, sp_advance(s, p1)));
        } else {
            lemma_cons_keeps_single_eof(
                (TokenType::NotEq, "!="@, p1),
                lex_from(s, sp_advance(s, p1)),
            );
        }
    } else if c == '"' || c == '\'' {
        lemma_string_scan(s, sp_advance(s, p), c, Seq::empty());
        match sp_string_scan(s, sp_advance(s, p), c, Seq::empty()) {
            Ok((pe, lit)) => {
                lemma_lex_single_eof(s, sp_advance(s, pe));
                lemma_cons_keeps_single_eof(
                    (TokenType::String, lit, pe),
                    lex_from(s, sp_advance(s, pe)),
                );
            },
            Err(_) => {},
        }
    } else if c == ';' || c == '+' || c == '-' || c == '*' || c == '.' || c == '/' || c == '='
        || c == '!' || c == '<' || c == '>' || c == '(' || c == ')' || c == '{' || c == '}'
        || c == '[' || c == ']' || c == ',' || c == ':' {
        lemma_lex_single_eof(s, sp_advance(s, p));
        match lex_from(s, p) {
            Ok(toks) => {
                match lex_from(s, sp_advance(s, p)) {
                    Ok(rest) => {
                        assert(toks =~= seq![toks[0]] + rest);
                        lemma_cons_keeps_single_eof(toks[0], lex_from(s, sp_advance(s, p)));
                    },
                    Err(_) => {},
                }
            },
            Err(_) => {},
        }
    } else {
    }
}

/// Prefixing a token of another kind keeps the single-end-of-input shape.
proof fn lemma_cons_keeps_single_eof(t: TokenModel, r: Result<Seq<TokenModel>, LexerError>)
    requires
        t.0 != TokenType::Eof,
        r matches Ok(rest) ==> rest.len() >= 1 && rest.last().0 == TokenType::Eof && forall|i: int|
            0 <= i < rest.len() - 1 ==> (#[trigger] rest[i]).0 != TokenType::Eof,
    ensures
        lex_cons(t, r) matches Ok(toks) ==> toks.len() >= 1 && toks.last().0 == TokenType::Eof
            && forall|i: int| 0 <= i < toks.len() - 1 ==> (#[trigger] toks[i]).0 != TokenType::Eof,
{
    match r {
        Ok(rest) => {
            let toks = seq![t] + rest;
            assert(toks[0] == t);
            assert(toks.last() == rest.last());
            assert(forall|i: int| 1 <= i < toks.len() ==> toks[i] == rest[i - 1]);
        },
        Err(_) => {},
    }
}

} // verus!
