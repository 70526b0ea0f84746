//! The parser: a Pratt (operator-precedence) recursive-descent parser
//! turning a token sequence into a program.
//!
//! Malformed constructs are dropped at statement boundaries and parsing
//! continues, so a program is always produced. Every parsing step keeps
//! the token buffer intact, never moves the cursor backwards, and always
//! terminates.
//!
//! The core expression grammar - atoms, unary `!`/`-`, parenthesized
//! grouping and the binary operators - is specified by [`sp_expr_disp`],
//! a mathematical parse that gives the canonical display form and end
//! cursor of the expression read from any position at any precedence;
//! [`Parser::parse_expression`] is proved to produce exactly that form,
//! and [`Parser::parse_program`] carries it to whole single-expression
//! programs. Around that core, the rules pin the node kind, the
//! operator or name read from the token window, the already-parsed
//! operands they receive, the maximal-munch discipline (on success the
//! peeked token no longer binds at the rule's precedence), and when a
//! missing expected token makes the construct malformed.

use std::rc::Rc;
use vstd::prelude::*;
use vstd::string::*;

use crate::ast::{BlockStatement, Expression, Identifier, Literal, Program, Statement};
use crate::token::{KeywordType, PrimitiveKind, Token, TokenType};

verus! {

/// Operator binding strength, weakest first.
#[derive(Clone, Copy, Debug, PartialEq, Eq, Structural)]
pub enum Precedence {
    Lowest,
    Equals,
    LessGreater,
    Sum,
    Product,
    Prefix,
    Call,
    Index,
    Dot,
}

/// The numeric rank of a precedence level.
pub open spec fn sp_prec_rank(p: Precedence) -> int {
    match p {
        Precedence::Lowest => 0,
        Precedence::Equals => 1,
        Precedence::LessGreater => 2,
        Precedence::Sum => 3,
        Precedence::Product => 4,
        Precedence::Prefix => 5,
        Precedence::Call => 6,
        Precedence::Index => 7,
        Precedence::Dot => 8,
    }
}

/// The rank of a precedence level; decides [`sp_prec_rank`].
pub fn prec_rank(p: Precedence) -> (r: u8)
    ensures
        r as int == sp_prec_rank(p),
{
    match p {
        Precedence::Lowest => 0,
        Precedence::Equals => 1,
        Precedence::LessGreater => 2,
        Precedence::Sum => 3,
        Precedence::Product => 4,
        Precedence::Prefix => 5,
        Precedence::Call => 6,
        Precedence::Index => 7,
        Precedence::Dot => 8,
    }
}

/// The precedence a token has when it appears in operator position.
pub open spec fn sp_token_precedence(ttype: TokenType) -> Precedence {
    match ttype {
        TokenType::Assign | TokenType::NotEq | TokenType::Eq => Precedence::Equals,
        TokenType::Lt | TokenType::Gt => Precedence::LessGreater,
        TokenType::Add | TokenType::Sub => Precedence::Sum,
        TokenType::Div | TokenType::Mul => Precedence::Product,
        TokenType::LParen => Precedence::Call,
        TokenType::LBracket => Precedence::Index,
        TokenType::Period => Precedence::Dot,
        _ => Precedence::Lowest,
    }
}

/// Where the two-token window's second token sits: one past the cursor,
/// clamped to the final end-of-input token.
pub open spec fn sp_peek_ix(tokens: Seq<Token>, index: usize) -> int {
    if index + 1 < tokens.len() {
        index + 1
    } else {
        tokens.len() - 1
    }
}

/// The expression a single atomic token denotes: an identifier, a
/// string, a decimal number that fits a 64-bit signed integer, or a
/// boolean keyword. `None` for every other token (including an
/// overflowing digit run, which is malformed).
pub open spec fn sp_atom(t: Token) -> Option<Expression> {
    match t.ttype {
        TokenType::Ident => Some(
            Expression::Identifier(Identifier { token: t, value: t.literal }),
        ),
        TokenType::String => Some(Expression::Literal(Literal::String(t.literal))),
        TokenType::Number => if t.literal@.len() > 0 && sp_all_digits(t.literal@)
            && sp_digits_val(t.literal@) <= i64::MAX as nat {
            Some(Expression::Literal(Literal::Integer(sp_digits_val(t.literal@) as i64)))
        } else {
            None
        },
        TokenType::Keyword(KeywordType::True) => Some(
            Expression::Literal(Literal::Boolean(true)),
        ),
        TokenType::Keyword(KeywordType::False) => Some(
            Expression::Literal(Literal::Boolean(false)),
        ),
        _ => None,
    }
}

/// The token kind at buffer offset `i`; end-of-input at or past the
/// final token, mirroring the clamped two-token window.
pub open spec fn sp_kind_at(t: Seq<Token>, i: int) -> TokenType {
    if 0 <= i < t.len() {
        t[i].ttype
    } else {
        TokenType::Eof
    }
}

/// Whether the operator-climbing loop stays idle: the peeked token is a
/// semicolon, or it does not bind tighter than `prec`.
pub open spec fn sp_idle(peek: TokenType, prec: Precedence) -> bool {
    peek == TokenType::Semicolon || sp_prec_rank(prec) >= sp_prec_rank(sp_token_precedence(peek))
}

/// The parser: a cursor with a two-token window over the token buffer.
pub struct Parser {
    pub current_token: Token,
    pub peek_token: Token,
    pub tokens: Vec<Token>,
    pub index: usize,
}

impl Parser {
    /// The buffer holds at least two tokens and ends with end-of-input;
    /// the cursor is inside it and the window mirrors it.
    pub open spec fn wf(&self) -> bool {
        &&& self.tokens@.len() >= 2
        &&& self.tokens@.last().ttype == TokenType::Eof
        &&& self.index < self.tokens@.len()
        &&& self.current_token == self.tokens@[self.index as int]
        &&& self.peek_token == self.tokens@[sp_peek_ix(self.tokens@, self.index)]
    }

    /// A parser at the start of the token buffer. A buffer that does not
    /// end in an end-of-input token, or holds fewer than two tokens, is
    /// completed with end-of-input tokens first.
    pub fn new(tokens: Vec<Token>) -> (p: Parser)
        ensures
            p.wf(),
            p.index == 0,
            tokens@.len() >= 2 && tokens@.last().ttype == TokenType::Eof ==> p.tokens@ == tokens@,
    {
        let mut toks = tokens;
        let needs_eof = if toks.len() == 0 {
            true
        } else {
            !matches!(toks[toks.len() - 1].ttype, TokenType::Eof)
        };
        if needs_eof {
            toks.push(
                Token {
                    ttype: TokenType::Eof,
                    literal: String::new(),
                    position: crate::token::Position::new(),
                },
            );
        }
        if toks.len() < 2 {
            toks.push(
                Token {
                    ttype: TokenType::Eof,
                    literal: String::new(),
                    position: crate::token::Position::new(),
                },
            );
        }
        let current = toks[0].duplicate();
        let peek = toks[1].duplicate();
        Parser { current_token: current, peek_token: peek, tokens: toks, index: 0 }
    }

    /// Moves the window one token forward; at the end of the buffer the
    /// cursor stays on the end-of-input token.
    pub(crate) fn next_token(&mut self)
        requires
            old(self).wf(),
        ensures
            final(self).wf(),
            final(self).tokens@ == old(self).tokens@,
            final(self).index == if old(self).index + 1 < old(self).tokens@.len() {
                old(self).index + 1
            } else {
                old(self).index as int
            },
    {
        let n = self.tokens.len();
        if self.index < n - 1 {
            self.index = self.index + 1;
            self.current_token = self.tokens[self.index].duplicate();
            let pi = if self.index < n - 1 {
                self.index + 1
            } else {
                n - 1
            };
            self.peek_token = self.tokens[pi].duplicate();
        }
    }

    /// If the peeked token has the wanted kind, steps onto it and
    /// reports success; otherwise stays put and reports failure.
    pub(crate) fn expect_peek(&mut self, ttype: TokenType) -> (r: bool)
        requires
            old(self).wf(),
        ensures
            final(self).wf(),
            final(self).tokens@ == old(self).tokens@,
            r == (old(self).peek_token.ttype == ttype),
            r ==> final(self).index == if old(self).index + 1 < old(self).tokens@.len() {
                old(self).index + 1
            } else {
                old(self).index as int
            },
            r && ttype != TokenType::Eof ==> final(self).index == old(self).index + 1,
            !r ==> *final(self) == *old(self),
    {
        if self.peek_token.ttype == ttype {
            self.next_token();
            true
        } else {
            false
        }
    }

    /// The precedence of a token kind in operator position; decides
    /// [`sp_token_precedence`].
    pub(crate) fn token_precedence(&mut self, ttype: TokenType) -> (r: Precedence)
        ensures
            r == sp_token_precedence(ttype),
            *final(self) == *old(self),
    {
        match ttype {
            TokenType::Assign | TokenType::NotEq | TokenType::Eq => Precedence::Equals,
            TokenType::Lt | TokenType::Gt => Precedence::LessGreater,
            TokenType::Add | TokenType::Sub => Precedence::Sum,
            TokenType::Div | TokenType::Mul => Precedence::Product,
            TokenType::LParen => Precedence::Call,
            TokenType::LBracket => Precedence::Index,
            TokenType::Period => Precedence::Dot,
            _ => Precedence::Lowest,
        }
    }

    /// The precedence of the token under the cursor.
    pub(crate) fn cur_precedence(&mut self) -> (r: Precedence)
        ensures
            r == sp_token_precedence(old(self).current_token.ttype),
            *final(self) == *old(self),
    {
        let t = self.current_token.ttype;
        self.token_precedence(t)
    }

    /// The precedence of the peeked token, read without touching the
    /// parser; the loop condition of the operator climb uses it.
    fn peek_prec(&self) -> (r: Precedence)
        ensures
            r == sp_token_precedence(self.peek_token.ttype),
    {
        match self.peek_token.ttype {
            TokenType::Assign | TokenType::NotEq | TokenType::Eq => Precedence::Equals,
            TokenType::Lt | TokenType::Gt => Precedence::LessGreater,
            TokenType::Add | TokenType::Sub => Precedence::Sum,
            TokenType::Div | TokenType::Mul => Precedence::Product,
            TokenType::LParen => Precedence::Call,
            TokenType::LBracket => Precedence::Index,
            TokenType::Period => Precedence::Dot,
            _ => Precedence::Lowest,
        }
    }

    /// The precedence of the peeked token.
    pub(crate) fn peek_precedence(&mut self) -> (r: Precedence)
        ensures
            r == sp_token_precedence(old(self).peek_token.ttype),
            *final(self) == *old(self),
    {
        let t = self.peek_token.ttype;
        self.token_precedence(t)
    }

    /// Parses the whole buffer into a program: statements until the
    /// end-of-input token, malformed ones dropped at their boundary.
    /// Always yields a program.
    #[verifier::loop_isolation(false)]
    pub fn parse_program(&mut self) -> (r: Option<Program>)
        requires
            old(self).wf(),
        ensures
            final(self).wf(),
            final(self).tokens@ == old(self).tokens@,
            final(self).current_token.ttype == TokenType::Eof,
            r is Some,
            old(self).current_token.ttype == TokenType::Eof ==> (match r {
                Some(p) => p@.len() == 0,
                None => false,
            }) && *final(self) == *old(self),
            ({
                let a = sp_atom(old(self).current_token);
                a is Some && old(self).peek_token.ttype == TokenType::Semicolon && sp_kind_at(
                    old(self).tokens@,
                    old(self).index + 2,
                ) == TokenType::Eof ==> match r {
                    Some(p) => p@.len() == 1 && match p@[0] {
                        Statement::Expression { ref value, .. } => a == Some(*value),
                        _ => false,
                    },
                    None => false,
                }
            }),
            ({
                let t = old(self).tokens@;
                let i0 = old(self).index as int;
                match sp_expr_disp(t, i0, Precedence::Lowest, sp_disp_fuel(t)) {
                    Some((d, j)) => (sp_kind_at(t, j + 1) == TokenType::Semicolon && sp_kind_at(
                        t,
                        j + 2,
                    ) == TokenType::Eof && !(sp_kind_at(t, i0) == TokenType::Ident && sp_kind_at(
                        t,
                        i0 + 1,
                    ) == TokenType::Assign) && sp_kind_at(t, i0) != TokenType::Keyword(
                        KeywordType::Let,
                    ) && sp_kind_at(t, i0) != TokenType::Keyword(KeywordType::Return)) ==> match r {
                        Some(p) => p@.len() == 1 && match p@[0] {
                            Statement::Expression { ref value, .. } => crate::ast::sp_display_expr(
                                *value,
                            ) == d,
                            _ => false,
                        },
                        None => false,
                    },
                    None => true,
                }
            }),
    {
        let mut program: Program = Vec::new();
        while !matches!(self.current_token.ttype, TokenType::Eof)
            invariant
                self.wf(),
                self.tokens@ == old(self).tokens@,
                old(self).current_token.ttype == TokenType::Eof ==> *self == *old(self)
                    && program@.len() == 0,
                ({
                    let a = sp_atom(old(self).current_token);
                    a is Some && old(self).peek_token.ttype == TokenType::Semicolon && sp_kind_at(
                        old(self).tokens@,
                        old(self).index + 2,
                    ) == TokenType::Eof ==> (self.index == old(self).index && program@.len() == 0)
                        || (self.index == old(self).index + 2 && program@.len() == 1 && match
                        program@[0] {
                        Statement::Expression { ref value, .. } => a == Some(*value),
                        _ => false,
                    })
                }),
                ({
                    let t = old(self).tokens@;
                    let i0 = old(self).index as int;
                    match sp_expr_disp(t, i0, Precedence::Lowest, sp_disp_fuel(t)) {
                        Some((d, j)) => (sp_kind_at(t, j + 1) == TokenType::Semicolon
                            && sp_kind_at(t, j + 2) == TokenType::Eof && !(sp_kind_at(t, i0)
                            == TokenType::Ident && sp_kind_at(t, i0 + 1) == TokenType::Assign)
                            && sp_kind_at(t, i0) != TokenType::Keyword(KeywordType::Let)
                            && sp_kind_at(t, i0) != TokenType::Keyword(KeywordType::Return)) ==> (
                        self.index == i0 && program@.len() == 0) || (self.index == j + 2
                            && program@.len() == 1 && match program@[0] {
                            Statement::Expression { ref value, .. } => crate::ast::sp_display_expr(
                                *value,
                            ) == d,
                            _ => false,
                        }),
                        None => true,
                    }
                }),
            decreases self.tokens@.len() - self.index,
        {
            let ghost i0 = self.index;
            let stmt = self.parse_statement();
            if let Some(stmt) = stmt {
                program.push(stmt);
            }
            proof {
                assert(self.current_token.ttype == self.tokens@[self.index as int].ttype);
            }
            self.next_token();
            proof {
                assert(self.index > i0);
            }
        }
        Some(program)
    }

    /// Parses one statement: `let`, `return`, a reassignment when an
    /// identifier is directly followed by `=`, or an expression
    /// statement.
    pub(crate) fn parse_statement(&mut self) -> (r: Option<Statement>)
        requires
            old(self).wf(),
        ensures
            final(self).wf(),
            final(self).tokens@ == old(self).tokens@,
            final(self).index >= old(self).index,
            (!(old(self).current_token.ttype == TokenType::Keyword(KeywordType::Let))
                && !(old(self).current_token.ttype == TokenType::Keyword(KeywordType::Return))
                && !(old(self).current_token.ttype == TokenType::Ident
                && old(self).peek_token.ttype == TokenType::Assign)) ==> match sp_expr_disp(
                old(self).tokens@,
                old(self).index as int,
                Precedence::Lowest,
                sp_disp_fuel(old(self).tokens@),
            ) {
                Some((d, j)) => (match r {
                    Some(s) => match s {
                        Statement::Expression { ref value, .. } => crate::ast::sp_display_expr(
                            *value,
                        ) == d,
                        _ => false,
                    },
                    None => false,
                }) && final(self).index == (if sp_kind_at(old(self).tokens@, j + 1)
                    == TokenType::Semicolon {
                    j + 1
                } else {
                    j
                }),
                None => true,
            },
            match r {
                Some(s) => match old(self).current_token.ttype {
                    TokenType::Keyword(KeywordType::Let) => s matches Statement::Let { .. },
                    TokenType::Keyword(KeywordType::Return) => s matches Statement::Return { .. },
                    _ => true,
                },
                None => true,
            },
            ({
                let a = sp_atom(old(self).current_token);
                a is Some && sp_idle(old(self).peek_token.ttype, Precedence::Lowest) ==> (match r {
                    Some(s) => match s {
                        Statement::Expression { ref value, .. } => a == Some(*value),
                        _ => false,
                    },
                    None => false,
                }) && final(self).index == (if old(self).peek_token.ttype == TokenType::Semicolon {
                    old(self).index + 1
                } else {
                    old(self).index as int
                })
            }),
        decreases self.tokens@.len() - self.index, 8int,
    {
        match self.current_token.ttype {
            TokenType::Keyword(KeywordType::Let) => self.parse_let_statement(),
            TokenType::Keyword(KeywordType::Return) => self.parse_return_statement(),
            TokenType::Ident => {
                if matches!(self.peek_token.ttype, TokenType::Assign) {
                    self.parse_reassign_statement()
                } else {
                    self.parse_expression_statement()
                }
            },
            _ => self.parse_expression_statement(),
        }
    }

    /// Parses `let [kind] name = expression [;]`; the optional leading
    /// primitive-kind word is kept as metadata only.
    pub(crate) fn parse_let_statement(&mut self) -> (r: Option<Statement>)
        requires
            old(self).wf(),
        ensures
            final(self).wf(),
            final(self).tokens@ == old(self).tokens@,
            final(self).index >= old(self).index,
            ({
                let k: int = match old(self).peek_token.ttype {
                    TokenType::Keyword(KeywordType::Primitive(_)) => 1int,
                    _ => 0int,
                };
                let np = old(self).index + k + 1;
                &&& (sp_kind_at(old(self).tokens@, np) != TokenType::Ident ==> r is None)
                &&& (sp_kind_at(old(self).tokens@, np + 1) != TokenType::Assign ==> r is None)
                &&& match r {
                    Some(s) => match s {
                        Statement::Let { ref name, ref value_kind, .. } => {
                            &&& *value_kind == (match old(self).peek_token.ttype {
                                TokenType::Keyword(KeywordType::Primitive(p)) => Some(p),
                                _ => None,
                            })
                            &&& 0 <= np < old(self).tokens@.len()
                            &&& name.token == old(self).tokens@[np]
                            &&& name.value == old(self).tokens@[np].literal
                        },
                        _ => false,
                    },
                    None => true,
                }
            }),
        decreases self.tokens@.len() - self.index, 7int,
    {
        let value_kind: Option<PrimitiveKind> = match self.peek_token.ttype {
            TokenType::Keyword(KeywordType::Primitive(p)) => Some(p),
            _ => None,
        };
        if value_kind.is_some() {
            self.next_token();
        }
        if !self.expect_peek(TokenType::Ident) {
            return None;
        }
        let name = Identifier {
            token: self.current_token.duplicate(),
            value: self.current_token.literal.clone(),
        };
        if !self.expect_peek(TokenType::Assign) {
            return None;
        }
        self.next_token();
        let value = match self.parse_expression(Precedence::Lowest) {
            Some(v) => v,
            None => {
                return None;
            },
        };
        if matches!(self.peek_token.ttype, TokenType::Semicolon) {
            self.next_token();
        }
        Some(
            Statement::Let { token: self.current_token.duplicate(), name, value, value_kind },
        )
    }

    /// Parses `name = expression [;]`.
    pub(crate) fn parse_reassign_statement(&mut self) -> (r: Option<Statement>)
        requires
            old(self).wf(),
        ensures
            final(self).wf(),
            final(self).tokens@ == old(self).tokens@,
            final(self).index >= old(self).index,
            match r {
                Some(s) => s matches Statement::ReAssign { ref name, .. } && name.token == old(self).current_token && name.value == old(self).current_token.literal,
                None => true,
            },
            old(self).peek_token.ttype != TokenType::Assign ==> r is None,
        decreases self.tokens@.len() - self.index, 7int,
    {
        let name = Identifier {
            token: self.current_token.duplicate(),
            value: self.current_token.literal.clone(),
        };
        if !self.expect_peek(TokenType::Assign) {
            return None;
        }
        self.next_token();
        let value = match self.parse_expression(Precedence::Lowest) {
            Some(v) => v,
            None => {
                return None;
            },
        };
        if matches!(self.peek_token.ttype, TokenType::Semicolon) {
            self.next_token();
        }
        Some(Statement::ReAssign { token: self.current_token.duplicate(), name, value })
    }

    /// Parses `return expression [;]`.
    pub(crate) fn parse_return_statement(&mut self) -> (r: Option<Statement>)
        requires
            old(self).wf(),
        ensures
            final(self).wf(),
            final(self).tokens@ == old(self).tokens@,
            final(self).index >= old(self).index,
            match r {
                Some(s) => s matches Statement::Return { token, .. } && token == old(self).current_token,
                None => true,
            },
        decreases self.tokens@.len() - self.index, 7int,
    {
        let token = self.current_token.duplicate();
        self.next_token();
        let value = match self.parse_expression(Precedence::Lowest) {
            Some(v) => v,
            None => {
                return None;
            },
        };
        if matches!(self.peek_token.ttype, TokenType::Semicolon) {
            self.next_token();
        }
        Some(Statement::Return { token, value })
    }

    /// Parses a bare expression statement, consuming a trailing `;` if
    /// present.
    pub(crate) fn parse_expression_statement(&mut self) -> (r: Option<Statement>)
        requires
            old(self).wf(),
        ensures
            final(self).wf(),
            final(self).tokens@ == old(self).tokens@,
            final(self).index >= old(self).index,
            match sp_expr_disp(
                old(self).tokens@,
                old(self).index as int,
                Precedence::Lowest,
                sp_disp_fuel(old(self).tokens@),
            ) {
                Some((d, j)) => (match r {
                    Some(s) => match s {
                        Statement::Expression { ref value, .. } => crate::ast::sp_display_expr(
                            *value,
                        ) == d,
                        _ => false,
                    },
                    None => false,
                }) && final(self).index == (if sp_kind_at(old(self).tokens@, j + 1)
                    == TokenType::Semicolon {
                    j + 1
                } else {
                    j
                }),
                None => true,
            },
            match r {
                Some(s) => s matches Statement::Expression { .. },
                None => true,
            },
            ({
                let a = sp_atom(old(self).current_token);
                a is Some && sp_idle(old(self).peek_token.ttype, Precedence::Lowest) ==> (match r {
                    Some(s) => match s {
                        Statement::Expression { ref value, .. } => a == Some(*value),
                        _ => false,
                    },
                    None => false,
                }) && final(self).index == (if old(self).peek_token.ttype == TokenType::Semicolon {
                    old(self).index + 1
                } else {
                    old(self).index as int
                })
            }),
        decreases self.tokens@.len() - self.index, 7int,
    {
        let expr = self.parse_expression(Precedence::Lowest);
        if matches!(self.peek_token.ttype, TokenType::Semicolon) {
            self.next_token();
        }
        match expr {
            Some(value) => Some(
                Statement::Expression { token: self.current_token.duplicate(), value },
            ),
            None => None,
        }
    }

    /// Parses the statements of a `{ ... }` block, starting on the
    /// opening brace and stopping at the closing brace or end of input.
    #[verifier::loop_isolation(false)]
    pub(crate) fn parse_block_statement(&mut self) -> (r: BlockStatement)
        requires
            old(self).wf(),
            old(self).current_token.ttype != TokenType::Eof,
        ensures
            final(self).wf(),
            final(self).tokens@ == old(self).tokens@,
            final(self).index >= old(self).index,
            sp_kind_at(old(self).tokens@, old(self).index + 1) == TokenType::RBrace ==> r@.len()
                == 0,
        decreases self.tokens@.len() - self.index, 8int,
    {
        self.next_token();
        let mut block: Vec<Statement> = Vec::new();
        while !matches!(self.current_token.ttype, TokenType::RBrace) && !matches!(
            self.current_token.ttype,
            TokenType::Eof,
        )
            invariant
                self.wf(),
                self.tokens@ == old(self).tokens@,
                self.index > old(self).index,
                sp_kind_at(old(self).tokens@, old(self).index + 1) == TokenType::RBrace
                    ==> self.index == old(self).index + 1 && block@.len() == 0,
            decreases self.tokens@.len() - self.index,
        {
            let ghost i0 = self.index;
            let stmt = self.parse_statement();
            if let Some(stmt) = stmt {
                block.push(stmt);
            }
            proof {
                assert(self.current_token.ttype == self.tokens@[self.index as int].ttype);
            }
            self.next_token();
            proof {
                assert(self.index > i0);
            }
        }
        block
    }

    /// Pratt expression parsing: a prefix rule for the token under the
    /// cursor, then infix rules for as long as the peeked operator binds
    /// tighter than `precedence`.
    #[verifier::loop_isolation(false)]
    pub(crate) fn parse_expression(&mut self, precedence: Precedence) -> (r: Option<Expression>)
        requires
            old(self).wf(),
        ensures
            final(self).wf(),
            final(self).tokens@ == old(self).tokens@,
            final(self).index >= old(self).index,
            ({
                let a = sp_atom(old(self).current_token);
                a is Some && sp_idle(old(self).peek_token.ttype, precedence) ==> r == a && *final(self) == *old(self)
            }),
            r is Some ==> sp_idle(final(self).peek_token.ttype, precedence),
            match sp_expr_disp(
                old(self).tokens@,
                old(self).index as int,
                precedence,
                sp_disp_fuel(old(self).tokens@),
            ) {
                Some((d, j)) => (match r {
                    Some(e) => crate::ast::sp_display_expr(e) == d,
                    None => false,
                }) && final(self).index == j,
                None => true,
            },
        decreases self.tokens@.len() - self.index, 6int,
    {
        let mut left: Expression = match self.current_token.ttype {
            TokenType::Ident => {
                match self.parse_identifier() {
                    Some(v) => v,
                    None => {
                        return None;
                    },
                }
            },
            TokenType::String => {
                match self.parse_string_literal() {
                    Some(v) => v,
                    None => {
                        return None;
                    },
                }
            },
            TokenType::Number => {
                match self.parse_integer_literal() {
                    Some(v) => v,
                    None => {
                        return None;
                    },
                }
            },
            TokenType::Bang | TokenType::Sub => {
                match self.parse_prefix_expression() {
                    Some(v) => v,
                    None => {
                        proof {
                            let t = old(self).tokens@;
                            let i0 = old(self).index as int;
                            let fl = sp_disp_fuel(t);
                            if sp_expr_disp(t, i0 + 1, Precedence::Prefix, (fl - 1) as nat)
                                is Some {
                                lemma_disp_mono(
                                    t,
                                    i0 + 1,
                                    Precedence::Prefix,
                                    (fl - 1) as nat,
                                    fl,
                                );
                            }
                        }
                        return None;
                    },
                }
            },
            TokenType::Keyword(KeywordType::True) | TokenType::Keyword(KeywordType::False) => {
                match self.parse_boolean() {
                    Some(v) => v,
                    None => {
                        return None;
                    },
                }
            },
            TokenType::LBrace => {
                match self.parse_hash_expr() {
                    Some(v) => v,
                    None => {
                        return None;
                    },
                }
            },
            TokenType::LParen => {
                match self.parse_group_expr() {
                    Some(v) => v,
                    None => {
                        proof {
                            let t = old(self).tokens@;
                            let i0 = old(self).index as int;
                            let fl = sp_disp_fuel(t);
                            if sp_expr_disp(t, i0 + 1, Precedence::Lowest, (fl - 1) as nat)
                                is Some {
                                lemma_disp_mono(
                                    t,
                                    i0 + 1,
                                    Precedence::Lowest,
                                    (fl - 1) as nat,
                                    fl,
                                );
                            }
                        }
                        return None;
                    },
                }
            },
            TokenType::LBracket => {
                match self.parse_array_literal() {
                    Some(v) => v,
                    None => {
                        return None;
                    },
                }
            },
            TokenType::Keyword(KeywordType::If) => {
                match self.parse_if_expr() {
                    Some(v) => v,
                    None => {
                        return None;
                    },
                }
            },
            TokenType::Keyword(KeywordType::Fn) => {
                match self.parse_fn_literal() {
                    Some(v) => v,
                    None => {
                        return None;
                    },
                }
            },
            _ => {
                return None;
            },
        };
        proof {
            let t = old(self).tokens@;
            let i0 = old(self).index as int;
            let fl = sp_disp_fuel(t);
            let goal = sp_expr_disp(t, i0, precedence, fl);
            if goal is Some {
                assert(fl >= 8);
                match t[i0].ttype {
                    TokenType::Bang | TokenType::Sub => {
                        let inner = sp_expr_disp(t, i0 + 1, Precedence::Prefix, (fl - 1) as nat);
                        assert(inner is Some);
                        let (d1, j1) = inner.unwrap();
                        lemma_disp_mono(t, i0 + 1, Precedence::Prefix, (fl - 1) as nat, fl);
                        assert(crate::ast::sp_display_expr(left) == seq!['('] + t[i0].literal@ + d1
                            + seq![')']);
                        lemma_climb_mono(
                            t,
                            j1,
                            precedence,
                            seq!['('] + t[i0].literal@ + d1 + seq![')'],
                            (fl - 1) as nat,
                            fl,
                        );
                    },
                    TokenType::LParen => {
                        let inner = sp_expr_disp(t, i0 + 1, Precedence::Lowest, (fl - 1) as nat);
                        assert(inner is Some);
                        let (d1, j1) = inner.unwrap();
                        assert(sp_kind_at(t, j1 + 1) == TokenType::RParen);
                        lemma_disp_mono(t, i0 + 1, Precedence::Lowest, (fl - 1) as nat, fl);
                        assert(crate::ast::sp_display_expr(left) == d1);
                        lemma_climb_mono(t, j1 + 1, precedence, d1, (fl - 1) as nat, fl);
                    },
                    TokenType::Number => {
                        assert(sp_atom_disp(t[i0]) is Some);
                        let d1 = sp_atom_disp(t[i0]).unwrap();
                        let v = sp_digits_val(t[i0].literal@);
                        assert(v <= i64::MAX as nat);
                        assert((v as i64) >= 0 && (v as i64) as nat == v);
                        assert(left == Expression::Literal(Literal::Integer(v as i64)));
                        assert(crate::ast::sp_display_expr(left) == crate::ast::sp_display_literal(
                            Literal::Integer(v as i64),
                        ));
                        assert(crate::ast::sp_display_literal(Literal::Integer(v as i64))
                            == crate::ast::sp_display_i64(v as i64));
                        assert(crate::ast::sp_display_i64(v as i64) == crate::ast::sp_dec_digits(
                            v,
                        ));
                        lemma_climb_mono(t, i0, precedence, d1, (fl - 1) as nat, fl);
                    },
                    TokenType::Ident => {
                        let d1 = sp_atom_disp(t[i0]).unwrap();
                        assert(left == Expression::Identifier(
                            Identifier { token: t[i0], value: t[i0].literal },
                        ));
                        assert(crate::ast::sp_display_expr(left) == t[i0].literal@);
                        lemma_climb_mono(t, i0, precedence, d1, (fl - 1) as nat, fl);
                    },
                    TokenType::String => {
                        let d1 = sp_atom_disp(t[i0]).unwrap();
                        assert(crate::ast::sp_display_expr(left) == crate::ast::sp_display_literal(
                            Literal::String(t[i0].literal),
                        ));
                        lemma_climb_mono(t, i0, precedence, d1, (fl - 1) as nat, fl);
                    },
                    _ => {
                        assert(sp_atom_disp(t[i0]) is Some);
                        let d1 = sp_atom_disp(t[i0]).unwrap();
                        assert(t[i0].ttype == TokenType::Keyword(KeywordType::True) || t[i0].ttype
                            == TokenType::Keyword(KeywordType::False));
                        let b = t[i0].ttype == TokenType::Keyword(KeywordType::True);
                        assert(left == Expression::Literal(Literal::Boolean(b)));
                        assert(crate::ast::sp_display_expr(left) == crate::ast::sp_display_literal(
                            Literal::Boolean(b),
                        ));
                        assert(crate::ast::sp_display_expr(left) == d1);
                        lemma_climb_mono(t, i0, precedence, d1, (fl - 1) as nat, fl);
                    },
                }
            }
        }
        while !matches!(self.peek_token.ttype, TokenType::Semicolon) && prec_rank(precedence)
            < prec_rank(self.peek_prec())
            invariant
                self.wf(),
                self.tokens@ == old(self).tokens@,
                self.index >= old(self).index,
                ({
                    let a = sp_atom(old(self).current_token);
                    a is Some && sp_idle(old(self).peek_token.ttype, precedence) ==> *self == *old(self)
                        && a == Some(left)
                }),
                ({
                    let goal = sp_expr_disp(
                        old(self).tokens@,
                        old(self).index as int,
                        precedence,
                        sp_disp_fuel(old(self).tokens@),
                    );
                    goal is Some ==> sp_climb_disp(
                        self.tokens@,
                        self.index as int,
                        precedence,
                        crate::ast::sp_display_expr(left),
                        sp_disp_fuel(old(self).tokens@),
                    ) == goal
                }),
            decreases self.tokens@.len() - self.index,
        {
            let ghost i0 = self.index;
            let ghost t = old(self).tokens@;
            let ghost fl = sp_disp_fuel(t);
            let ghost goal = sp_expr_disp(t, old(self).index as int, precedence, fl);
            let ghost jcur = self.index as int;
            let ghost dl = crate::ast::sp_display_expr(left);
            proof {
                assert(sp_prec_rank(sp_token_precedence(TokenType::Eof)) == 0);
                assert(self.peek_token.ttype != TokenType::Eof);
                assert(self.index + 1 < self.tokens@.len());
                if goal is Some {
                    let k = sp_kind_at(t, jcur + 1);
                    assert(k == self.peek_token.ttype);
                    assert(!sp_idle(k, precedence));
                    assert(sp_is_binary(k));
                    let inner = sp_expr_disp(
                        t,
                        jcur + 2,
                        sp_token_precedence(k),
                        (fl - 1) as nat,
                    );
                    assert(inner is Some);
                    lemma_disp_mono(t, jcur + 2, sp_token_precedence(k), (fl - 1) as nat, fl);
                    let (rd, j2) = inner.unwrap();
                    lemma_climb_mono(
                        t,
                        j2,
                        precedence,
                        seq!['('] + dl + seq![' '] + t[jcur + 1].literal@ + seq![' '] + rd + seq![
                            ')',
                        ],
                        (fl - 1) as nat,
                        fl,
                    );
                }
            }
            self.next_token();
            let step = match self.current_token.ttype {
                TokenType::Add | TokenType::Assign | TokenType::Div | TokenType::Gt
                    | TokenType::Lt | TokenType::Mul | TokenType::NotEq | TokenType::Eq
                    | TokenType::Sub => self.parse_infix_expression(left),
                TokenType::LParen => self.parse_fn_call(left),
                TokenType::LBracket => self.parse_index_expression(left),
                TokenType::Period => self.parse_dot_notation(left),
                other => {
                    proof {
                        assert(sp_prec_rank(sp_token_precedence(self.current_token.ttype)) == 0);
                        assert(false);
                    }
                    return Some(left);
                },
            };
            left = match step {
                Some(v) => v,
                None => {
                    return None;
                },
            };
        }
        Some(left)
    }

    /// Parses an identifier expression from the token under the cursor.
    pub(crate) fn parse_identifier(&mut self) -> (r: Option<Expression>)
        requires
            old(self).wf(),
        ensures
            final(self).wf(),
            final(self).tokens@ == old(self).tokens@,
            final(self).index >= old(self).index,
            *final(self) == *old(self),
            r == Some(
                Expression::Identifier(
                    Identifier {
                        token: old(self).current_token,
                        value: old(self).current_token.literal,
                    },
                ),
            ),
        decreases self.tokens@.len() - self.index, 5int,
    {
        Some(
            Expression::Identifier(
                Identifier {
                    token: self.current_token.duplicate(),
                    value: self.current_token.literal.clone(),
                },
            ),
        )
    }

    /// Parses a string literal from the token under the cursor.
    pub(crate) fn parse_string_literal(&mut self) -> (r: Option<Expression>)
        requires
            old(self).wf(),
        ensures
            final(self).wf(),
            final(self).tokens@ == old(self).tokens@,
            final(self).index >= old(self).index,
            *final(self) == *old(self),
            r == Some(Expression::Literal(Literal::String(old(self).current_token.literal))),
        decreases self.tokens@.len() - self.index, 5int,
    {
        Some(Expression::Literal(Literal::String(self.current_token.literal.clone())))
    }

    /// Parses an integer literal; a digit run that does not fit a
    /// 64-bit signed integer (or is not all ASCII digits) is malformed.
    pub(crate) fn parse_integer_literal(&mut self) -> (r: Option<Expression>)
        requires
            old(self).wf(),
        ensures
            final(self).wf(),
            final(self).tokens@ == old(self).tokens@,
            final(self).index >= old(self).index,
            *final(self) == *old(self),
            old(self).current_token.ttype == TokenType::Number ==> r == sp_atom(
                old(self).current_token,
            ),
        decreases self.tokens@.len() - self.index, 5int,
    {
        match parse_i64(self.current_token.literal.as_str()) {
            Some(v) => Some(Expression::Literal(Literal::Integer(v))),
            None => None,
        }
    }

    /// Parses `true` or `false` from the token under the cursor.
    pub(crate) fn parse_boolean(&mut self) -> (r: Option<Expression>)
        requires
            old(self).wf(),
        ensures
            final(self).wf(),
            final(self).tokens@ == old(self).tokens@,
            final(self).index >= old(self).index,
            *final(self) == *old(self),
            r == Some(
                Expression::Literal(
                    Literal::Boolean(
                        old(self).current_token.ttype == TokenType::Keyword(KeywordType::True),
                    ),
                ),
            ),
        decreases self.tokens@.len() - self.index, 5int,
    {
        Some(
            Expression::Literal(
                Literal::Boolean(
                    matches!(self.current_token.ttype, TokenType::Keyword(KeywordType::True)),
                ),
            ),
        )
    }

    /// Parses a unary `!` or `-` expression.
    pub(crate) fn parse_prefix_expression(&mut self) -> (r: Option<Expression>)
        requires
            old(self).wf(),
            old(self).current_token.ttype != TokenType::Eof,
        ensures
            final(self).wf(),
            final(self).tokens@ == old(self).tokens@,
            final(self).index >= old(self).index,
            match sp_expr_disp(
                old(self).tokens@,
                old(self).index + 1,
                Precedence::Prefix,
                sp_disp_fuel(old(self).tokens@),
            ) {
                Some((d, j)) => (match r {
                    Some(e) => crate::ast::sp_display_expr(e) == seq!['('] + old(
                        self,
                    ).current_token.literal@ + d + seq![')'],
                    None => false,
                }) && final(self).index == j,
                None => true,
            },
            r is Some ==> sp_idle(final(self).peek_token.ttype, Precedence::Prefix),
            match r {
                Some(e) => match e {
                    Expression::Prefix { ref operator, .. } => *operator == old(self).current_token.literal,
                    _ => false,
                },
                None => true,
            },
        decreases self.tokens@.len() - self.index, 5int,
    {
        let operator = self.current_token.literal.clone();
        self.next_token();
        let right = match self.parse_expression(Precedence::Prefix) {
            Some(v) => v,
            None => {
                return None;
            },
        };
        Some(
            Expression::Prefix {
                token: self.current_token.duplicate(),
                operator,
                right: Box::new(right),
            },
        )
    }

    /// Parses the right-hand side of a binary operator that is under
    /// the cursor.
    pub(crate) fn parse_infix_expression(&mut self, left: Expression) -> (r: Option<Expression>)
        requires
            old(self).wf(),
            old(self).current_token.ttype != TokenType::Eof,
        ensures
            final(self).wf(),
            final(self).tokens@ == old(self).tokens@,
            final(self).index >= old(self).index,
            match sp_expr_disp(
                old(self).tokens@,
                old(self).index + 1,
                sp_token_precedence(old(self).current_token.ttype),
                sp_disp_fuel(old(self).tokens@),
            ) {
                Some((d, j)) => (match r {
                    Some(e) => crate::ast::sp_display_expr(e) == seq!['(']
                        + crate::ast::sp_display_expr(left) + seq![' '] + old(
                        self,
                    ).current_token.literal@ + seq![' '] + d + seq![')'],
                    None => false,
                }) && final(self).index == j,
                None => true,
            },
            r is Some ==> sp_idle(
                final(self).peek_token.ttype,
                sp_token_precedence(old(self).current_token.ttype),
            ),
            match r {
                Some(e) => match e {
                    Expression::Infix { left: ref l, ref operator, .. } => **l == left && *operator
                        == old(self).current_token.literal,
                    _ => false,
                },
                None => true,
            },
        decreases self.tokens@.len() - self.index, 5int,
    {
        let operator = self.current_token.literal.clone();
        let precedence = self.cur_precedence();
        self.next_token();
        let right = match self.parse_expression(precedence) {
            Some(v) => v,
            None => {
                return None;
            },
        };
        Some(
            Expression::Infix {
                token: self.current_token.duplicate(),
                left: Box::new(left),
                operator,
                right: Box::new(right),
            },
        )
    }

    /// Parses `( expression )`.
    pub(crate) fn parse_group_expr(&mut self) -> (r: Option<Expression>)
        requires
            old(self).wf(),
            old(self).current_token.ttype != TokenType::Eof,
        ensures
            final(self).wf(),
            final(self).tokens@ == old(self).tokens@,
            final(self).index >= old(self).index,
            match sp_expr_disp(
                old(self).tokens@,
                old(self).index + 1,
                Precedence::Lowest,
                sp_disp_fuel(old(self).tokens@),
            ) {
                Some((d, j)) => if sp_kind_at(old(self).tokens@, j + 1) == TokenType::RParen {
                    (match r {
                        Some(e) => crate::ast::sp_display_expr(e) == d,
                        None => false,
                    }) && final(self).index == j + 1
                } else {
                    true
                },
                None => true,
            },
            ({
                let a = sp_atom(old(self).peek_token);
                a is Some && sp_kind_at(old(self).tokens@, old(self).index + 2)
                    == TokenType::RParen ==> r == a && final(self).index == old(self).index + 2
            }),
        decreases self.tokens@.len() - self.index, 5int,
    {
        self.next_token();
        let expr = self.parse_expression(Precedence::Lowest);
        if !self.expect_peek(TokenType::RParen) {
            return None;
        }
        expr
    }

    /// Parses `if condition { ... } [else { ... }]`; the condition may
    /// also be parenthesized.
    pub(crate) fn parse_if_expr(&mut self) -> (r: Option<Expression>)
        requires
            old(self).wf(),
            old(self).current_token.ttype != TokenType::Eof,
        ensures
            final(self).wf(),
            final(self).tokens@ == old(self).tokens@,
            final(self).index >= old(self).index,
            match r {
                Some(e) => e matches Expression::If { token, .. } && token == old(self).current_token,
                None => true,
            },
        decreases self.tokens@.len() - self.index, 5int,
    {
        let token = self.current_token.duplicate();
        self.next_token();
        let condition = match self.parse_expression(Precedence::Lowest) {
            Some(v) => v,
            None => {
                return None;
            },
        };
        if !self.expect_peek(TokenType::LBrace) {
            return None;
        }
        let consequence = self.parse_block_statement();
        let mut alternative: Option<BlockStatement> = None;
        if matches!(self.peek_token.ttype, TokenType::Keyword(KeywordType::Else)) {
            self.next_token();
            if !self.expect_peek(TokenType::LBrace) {
                return None;
            }
            alternative = Some(self.parse_block_statement());
        }
        Some(
            Expression::If {
                token,
                condition: Box::new(condition),
                consequence: Box::new(consequence),
                alternative: match alternative {
                    Some(a) => Some(Box::new(a)),
                    None => None,
                },
            },
        )
    }

    /// Parses `fn (params) { ... }` (the keyword may also be spelled
    /// `function`).
    pub(crate) fn parse_fn_literal(&mut self) -> (r: Option<Expression>)
        requires
            old(self).wf(),
        ensures
            final(self).wf(),
            final(self).tokens@ == old(self).tokens@,
            final(self).index >= old(self).index,
            match r {
                Some(e) => e matches Expression::FunctionLiteral { token, .. } && token == old(self).current_token,
                None => true,
            },
            old(self).peek_token.ttype != TokenType::LParen ==> r is None,
        decreases self.tokens@.len() - self.index, 5int,
    {
        let token = self.current_token.duplicate();
        if !self.expect_peek(TokenType::LParen) {
            return None;
        }
        let parameters = self.parse_fn_parameters();
        if !self.expect_peek(TokenType::LBrace) {
            return None;
        }
        let body = self.parse_block_statement();
        Some(
            Expression::FunctionLiteral {
                token,
                parameters: Rc::new(parameters),
                body: Rc::new(body),
            },
        )
    }

    /// Parses a comma-separated parameter list up to the closing
    /// parenthesis; a malformed list comes back empty.
    #[verifier::loop_isolation(false)]
    pub(crate) fn parse_fn_parameters(&mut self) -> (r: Vec<Identifier>)
        requires
            old(self).wf(),
        ensures
            final(self).wf(),
            final(self).tokens@ == old(self).tokens@,
            final(self).index >= old(self).index,
            old(self).peek_token.ttype == TokenType::RParen ==> r@.len() == 0 && final(self).index == old(self).index + 1,
        decreases self.tokens@.len() - self.index, 4int,
    {
        let mut identifiers: Vec<Identifier> = Vec::new();
        if matches!(self.peek_token.ttype, TokenType::RParen) {
            self.next_token();
            return identifiers;
        }
        self.next_token();
        identifiers.push(
            Identifier {
                token: self.current_token.duplicate(),
                value: self.current_token.literal.clone(),
            },
        );
        while matches!(self.peek_token.ttype, TokenType::Comma)
            invariant
                self.wf(),
                self.tokens@ == old(self).tokens@,
                self.index >= old(self).index,
            decreases self.tokens@.len() - self.index,
        {
            proof {
                assert(self.peek_token.ttype != TokenType::Eof);
                assert(self.index + 1 < self.tokens@.len());
            }
            self.next_token();
            self.next_token();
            identifiers.push(
                Identifier {
                    token: self.current_token.duplicate(),
                    value: self.current_token.literal.clone(),
                },
            );
        }
        if !self.expect_peek(TokenType::RParen) {
            return Vec::new();
        }
        identifiers
    }

    /// Parses `callee(args)` with the cursor on the opening parenthesis.
    pub(crate) fn parse_fn_call(&mut self, function: Expression) -> (r: Option<Expression>)
        requires
            old(self).wf(),
            old(self).current_token.ttype != TokenType::Eof,
        ensures
            final(self).wf(),
            final(self).tokens@ == old(self).tokens@,
            final(self).index >= old(self).index,
            match r {
                Some(e) => match e {
                    Expression::FunctionCall { function: ref f, .. } => **f == function,
                    _ => false,
                },
                None => true,
            },
        decreases self.tokens@.len() - self.index, 5int,
    {
        let token = self.current_token.duplicate();
        let arguments = match self.parse_fn_arguments() {
            Some(a) => a,
            None => {
                return None;
            },
        };
        Some(Expression::FunctionCall { token, function: Box::new(function), arguments })
    }

    /// Parses a comma-separated argument list up to the closing
    /// parenthesis.
    #[verifier::loop_isolation(false)]
    pub(crate) fn parse_fn_arguments(&mut self) -> (r: Option<Vec<Expression>>)
        requires
            old(self).wf(),
            old(self).current_token.ttype != TokenType::Eof,
        ensures
            final(self).wf(),
            final(self).tokens@ == old(self).tokens@,
            final(self).index >= old(self).index,
            old(self).peek_token.ttype == TokenType::RParen ==> (match r {
                Some(args) => args@.len() == 0,
                None => false,
            }) && final(self).index == old(self).index + 1,
        decreases self.tokens@.len() - self.index, 4int,
    {
        let mut args: Vec<Expression> = Vec::new();
        if matches!(self.peek_token.ttype, TokenType::RParen) {
            self.next_token();
            return Some(args);
        }
        self.next_token();
        match self.parse_expression(Precedence::Lowest) {
            Some(v) => {
                args.push(v);
            },
            None => {
                return None;
            },
        }
        while matches!(self.peek_token.ttype, TokenType::Comma)
            invariant
                self.wf(),
                self.tokens@ == old(self).tokens@,
                self.index > old(self).index,
            decreases self.tokens@.len() - self.index,
        {
            proof {
                assert(self.peek_token.ttype != TokenType::Eof);
                assert(self.index + 1 < self.tokens@.len());
            }
            self.next_token();
            self.next_token();
            match self.parse_expression(Precedence::Lowest) {
                Some(v) => {
                    args.push(v);
                },
                None => {
                    return None;
                },
            }
        }
        if !self.expect_peek(TokenType::RParen) {
            return Some(Vec::new());
        }
        Some(args)
    }

    /// Parses `[ elements ]` as an array literal.
    pub(crate) fn parse_array_literal(&mut self) -> (r: Option<Expression>)
        requires
            old(self).wf(),
            old(self).current_token.ttype != TokenType::Eof,
        ensures
            final(self).wf(),
            final(self).tokens@ == old(self).tokens@,
            final(self).index >= old(self).index,
            match r {
                Some(e) => e matches Expression::Literal(Literal::Array(_)),
                None => true,
            },
            old(self).peek_token.ttype == TokenType::RBracket ==> (match r {
                Some(e) => e matches Expression::Literal(Literal::Array(es)) && es@.len() == 0,
                None => false,
            }) && final(self).index == old(self).index + 1,
        decreases self.tokens@.len() - self.index, 5int,
    {
        match self.parse_array_elements() {
            Some(es) => Some(Expression::Literal(Literal::Array(es))),
            None => None,
        }
    }

    /// Parses a comma-separated element list up to the closing bracket;
    /// a malformed list comes back empty.
    #[verifier::loop_isolation(false)]
    pub(crate) fn parse_array_elements(&mut self) -> (r: Option<Vec<Expression>>)
        requires
            old(self).wf(),
            old(self).current_token.ttype != TokenType::Eof,
        ensures
            final(self).wf(),
            final(self).tokens@ == old(self).tokens@,
            final(self).index >= old(self).index,
            old(self).peek_token.ttype == TokenType::RBracket ==> (match r {
                Some(es) => es@.len() == 0,
                None => false,
            }) && final(self).index == old(self).index + 1,
        decreases self.tokens@.len() - self.index, 4int,
    {
        let mut elements: Vec<Expression> = Vec::new();
        if matches!(self.peek_token.ttype, TokenType::RBracket) {
            self.next_token();
            return Some(elements);
        }
        self.next_token();
        match self.parse_expression(Precedence::Lowest) {
            Some(v) => {
                elements.push(v);
            },
            None => {
                return None;
            },
        }
        while matches!(self.peek_token.ttype, TokenType::Comma)
            invariant
                self.wf(),
                self.tokens@ == old(self).tokens@,
                self.index > old(self).index,
            decreases self.tokens@.len() - self.index,
        {
            proof {
                assert(self.peek_token.ttype != TokenType::Eof);
                assert(self.index + 1 < self.tokens@.len());
            }
            self.next_token();
            self.next_token();
            match self.parse_expression(Precedence::Lowest) {
                Some(v) => {
                    elements.push(v);
                },
                None => {
                    return None;
                },
            }
        }
        if !self.expect_peek(TokenType::RBracket) {
            return Some(Vec::new());
        }
        Some(elements)
    }

    /// Parses `{ key: value, ... }` as a hash literal; a trailing comma
    /// is tolerated.
    #[verifier::loop_isolation(false)]
    pub(crate) fn parse_hash_expr(&mut self) -> (r: Option<Expression>)
        requires
            old(self).wf(),
            old(self).current_token.ttype != TokenType::Eof,
        ensures
            final(self).wf(),
            final(self).tokens@ == old(self).tokens@,
            final(self).index >= old(self).index,
            match r {
                Some(e) => e matches Expression::Literal(Literal::Hash(_)),
                None => true,
            },
            old(self).peek_token.ttype == TokenType::RBrace ==> (match r {
                Some(e) => e matches Expression::Literal(Literal::Hash(ps)) && ps@.len() == 0,
                None => false,
            }) && final(self).index == old(self).index + 1,
        decreases self.tokens@.len() - self.index, 5int,
    {
        let mut pairs: Vec<(Expression, Expression)> = Vec::new();
        while !matches!(self.peek_token.ttype, TokenType::RBrace)
            invariant
                self.wf(),
                self.tokens@ == old(self).tokens@,
                self.index >= old(self).index,
                old(self).peek_token.ttype == TokenType::RBrace ==> self.index == old(self).index
                    && pairs@.len() == 0,
            decreases self.tokens@.len() - self.index,
        {
            let ghost i0 = self.index;
            if matches!(self.peek_token.ttype, TokenType::Eof) {
                return None;
            }
            proof {
                assert(self.index + 1 < self.tokens@.len());
            }
            self.next_token();
            let key = match self.parse_expression(Precedence::Lowest) {
                Some(v) => v,
                None => {
                    return None;
                },
            };
            if !self.expect_peek(TokenType::Colon) {
                return None;
            }
            self.next_token();
            let value = match self.parse_expression(Precedence::Lowest) {
                Some(v) => v,
                None => {
                    return None;
                },
            };
            pairs.push((key, value));
            if !matches!(self.peek_token.ttype, TokenType::RBrace) && !self.expect_peek(
                TokenType::Comma,
            ) {
                return None;
            }
            proof {
                assert(self.index > i0);
            }
        }
        if !self.expect_peek(TokenType::RBrace) {
            return None;
        }
        Some(Expression::Literal(Literal::Hash(pairs)))
    }

    /// Parses `collection[index]` with the cursor on the opening
    /// bracket.
    pub(crate) fn parse_index_expression(&mut self, left: Expression) -> (r: Option<Expression>)
        requires
            old(self).wf(),
            old(self).current_token.ttype != TokenType::Eof,
        ensures
            final(self).wf(),
            final(self).tokens@ == old(self).tokens@,
            final(self).index >= old(self).index,
            match r {
                Some(e) => match e {
                    Expression::IndexExpression { left: ref l, .. } => **l == left,
                    _ => false,
                },
                None => true,
            },
        decreases self.tokens@.len() - self.index, 5int,
    {
        self.next_token();
        let index = match self.parse_expression(Precedence::Lowest) {
            Some(v) => v,
            None => {
                return None;
            },
        };
        if !self.expect_peek(TokenType::RBracket) {
            return None;
        }
        Some(
            Expression::IndexExpression {
                token: self.current_token.duplicate(),
                left: Box::new(left),
                index: Box::new(index),
            },
        )
    }

    /// Parses `left.right` with the cursor on the period.
    pub(crate) fn parse_dot_notation(&mut self, left: Expression) -> (r: Option<Expression>)
        requires
            old(self).wf(),
            old(self).current_token.ttype != TokenType::Eof,
        ensures
            final(self).wf(),
            final(self).tokens@ == old(self).tokens@,
            final(self).index >= old(self).index,
            match r {
                Some(e) => match e {
                    Expression::DotNotation { left: ref l, .. } => **l == left,
                    _ => false,
                },
                None => true,
            },
        decreases self.tokens@.len() - self.index, 5int,
    {
        self.next_token();
        let right = match self.parse_expression(Precedence::Dot) {
            Some(v) => v,
            None => {
                return None;
            },
        };
        Some(
            Expression::DotNotation {
                token: self.current_token.duplicate(),
                left: Box::new(left),
                right: Box::new(right),
            },
        )
    }
}

/// The numeric value of a decimal digit run.
pub open spec fn sp_digits_val(s: Seq<char>) -> nat
    decreases s.len(),
{
    if s.len() == 0 {
        0
    } else {
        (sp_digits_val(s.drop_last()) * 10 + (s.last() as int - '0' as int)) as nat
    }
}

/// Whether every character is an ASCII decimal digit.
pub open spec fn sp_all_digits(s: Seq<char>) -> bool {
    forall|i: int| 0 <= i < s.len() ==> '0' <= #[trigger] s[i] && s[i] <= '9'
}

/// Reads a decimal digit run as a signed 64-bit integer: the run must
/// be nonempty, all ASCII digits, and fit; otherwise `None`.
#[verifier::loop_isolation(false)]
pub fn parse_i64(s: &str) -> (r: Option<i64>)
    ensures
        match r {
            Some(v) => s@.len() > 0 && sp_all_digits(s@) && v >= 0 && v as nat == sp_digits_val(
                s@,
            ),
            None => s@.len() == 0 || !sp_all_digits(s@) || sp_digits_val(s@) > i64::MAX as nat,
        },
{
    let n = s.unicode_len();
    if n == 0 {
        return None;
    }
    let mut acc: i64 = 0;
    let mut i: usize = 0;
    while i < n
        invariant
            i <= n,
            n == s@.len(),
            sp_all_digits(s@.subrange(0, i as int)),
            acc >= 0,
            acc as nat == sp_digits_val(s@.subrange(0, i as int)),
        decreases n - i,
    {
        let c = s.get_char(i);
        if !('0' <= c && c <= '9') {
            return None;
        }
        let d: i64 = (c as u32 as i64) - ('0' as u32 as i64);
        let next = match acc.checked_mul(10) {
            Some(m) => {
                match m.checked_add(d) {
                    Some(v) => v,
                    None => {
                        proof {
                            assert(s@.subrange(0, i + 1 as int).drop_last() =~= s@.subrange(
                                0,
                                i as int,
                            ));
                            if sp_all_digits(s@) {
                                lemma_digits_val_prefix_bound(s@, i + 1 as int);
                            }
                        }
                        return None;
                    },
                }
            },
            None => {
                proof {
                    assert(s@.subrange(0, i + 1 as int).drop_last() =~= s@.subrange(0, i as int));
                    if sp_all_digits(s@) {
                        lemma_digits_val_prefix_bound(s@, i + 1 as int);
                    }
                }
                return None;
            },
        };
        proof {
            assert(s@.subrange(0, i + 1 as int).drop_last() =~= s@.subrange(0, i as int));
            assert(s@.subrange(0, i + 1 as int).last() == s@[i as int]);
        }
        acc = next;
        i = i + 1;
    }
    proof {
        assert(s@.subrange(0, n as int) =~= s@);
    }
    Some(acc)
}

/// A digit run's value is at least the value of any of its prefixes, so
/// an overflow while scanning left to right means the whole run
/// overflows.
proof fn lemma_digits_val_prefix_bound(s: Seq<char>, k: int)
    requires
        0 <= k <= s.len(),
        sp_all_digits(s),
    ensures
        sp_digits_val(s) >= sp_digits_val(s.subrange(0, k)),
    decreases s.len() - k,
{
    if k < s.len() {
        lemma_digits_val_prefix_bound(s, k + 1);
        assert(s.subrange(0, k + 1).drop_last() =~= s.subrange(0, k));
        assert(sp_digits_val(s.subrange(0, k + 1)) >= sp_digits_val(s.subrange(0, k)));
    } else {
        assert(s.subrange(0, s.len() as int) =~= s);
    }
}


/// Law: the numeric atoms of the display form round-trip. The decimal
/// rendering of a nonnegative integer consists of digits only and reads
/// back as the same value.
pub proof fn lemma_display_digits_roundtrip(v: i64)
    requires
        v >= 0,
    ensures
        sp_all_digits(crate::ast::sp_display_i64(v)),
        sp_digits_val(crate::ast::sp_display_i64(v)) == v,
{
    lemma_dec_digits_read_back(v as nat);
}

proof fn lemma_dec_digits_read_back(n: nat)
    ensures
        sp_all_digits(crate::ast::sp_dec_digits(n)),
        sp_digits_val(crate::ast::sp_dec_digits(n)) == n,
    decreases n,
{
    let ds = crate::ast::sp_dec_digits(n);
    if n < 10 {
        assert(ds =~= seq![crate::ast::sp_digit(n)]);
        assert('0' <= crate::ast::sp_digit(n) && crate::ast::sp_digit(n) <= '9');
        assert(crate::ast::sp_digit(n) as int - '0' as int == n);
        assert(ds.drop_last() =~= Seq::<char>::empty());
        assert(ds.last() == crate::ast::sp_digit(n));
        assert(sp_digits_val(Seq::<char>::empty()) == 0);
        assert(sp_digits_val(ds) == n);
    } else {
        lemma_dec_digits_read_back(n / 10);
        let hd = crate::ast::sp_dec_digits(n / 10);
        assert(ds =~= hd.push(crate::ast::sp_digit(n % 10)));
        assert(ds.drop_last() =~= hd);
        assert(ds.last() == crate::ast::sp_digit(n % 10));
        assert('0' <= crate::ast::sp_digit(n % 10) && crate::ast::sp_digit(n % 10) <= '9');
        assert(crate::ast::sp_digit(n % 10) as int - '0' as int == n % 10);
        assert(forall|i: int|
            0 <= i < ds.len() ==> '0' <= #[trigger] ds[i] && ds[i] <= '9') by {
            assert(forall|i: int| 0 <= i < hd.len() ==> '0' <= #[trigger] hd[i] && hd[i] <= '9');
            assert(forall|i: int| 0 <= i < hd.len() ==> ds[i] == hd[i]);
        }
        assert(sp_digits_val(ds) == sp_digits_val(hd) * 10 + n % 10);
        assert(sp_digits_val(hd) * 10 + n % 10 == n) by {
            assert(sp_digits_val(hd) == n / 10);
            assert(n / 10 * 10 + n % 10 == n) by (nonlinear_arith);
        }
    }
}


/// The display form an atomic token's expression will print as, if the
/// token is atomic.
pub open spec fn sp_atom_disp(t: Token) -> Option<Seq<char>> {
    match t.ttype {
        TokenType::Ident => Some(t.literal@),
        TokenType::String => Some(t.literal@),
        TokenType::Number => if t.literal@.len() > 0 && sp_all_digits(t.literal@)
            && sp_digits_val(t.literal@) <= i64::MAX as nat {
            Some(crate::ast::sp_dec_digits(sp_digits_val(t.literal@)))
        } else {
            None
        },
        TokenType::Keyword(KeywordType::True) => Some("true"@),
        TokenType::Keyword(KeywordType::False) => Some("false"@),
        _ => None,
    }
}

/// Whether a token kind is one of the binary operators the climb
/// handles through [`Expression::Infix`].
pub open spec fn sp_is_binary(k: TokenType) -> bool {
    match k {
        TokenType::Add | TokenType::Assign | TokenType::Div | TokenType::Gt | TokenType::Lt
            | TokenType::Mul | TokenType::NotEq | TokenType::Eq | TokenType::Sub => true,
        _ => false,
    }
}

/// The display form and end cursor of the expression parsed from `i` at
/// precedence `prec`, for the core grammar of atoms, unary `!`/`-`,
/// parenthesized grouping and the binary operators. `None` makes no
/// claim: the form is outside this core grammar, malformed, or `fuel`
/// (a bound on nesting depth) is exhausted.
pub open spec fn sp_expr_disp(t: Seq<Token>, i: int, prec: Precedence, fuel: nat) -> Option<
    (Seq<char>, int),
>
    decreases fuel, 1int,
{
    if fuel == 0 {
        None
    } else {
        let head = if 0 <= i < t.len() {
            match sp_atom_disp(t[i]) {
                Some(d) => Some((d, i)),
                None => {
                    if t[i].ttype == TokenType::Bang || t[i].ttype == TokenType::Sub {
                        match sp_expr_disp(t, i + 1, Precedence::Prefix, (fuel - 1) as nat) {
                            Some((d, j)) => Some((seq!['('] + t[i].literal@ + d + seq![')'], j)),
                            None => None,
                        }
                    } else if t[i].ttype == TokenType::LParen {
                        match sp_expr_disp(t, i + 1, Precedence::Lowest, (fuel - 1) as nat) {
                            Some((d, j)) => if sp_kind_at(t, j + 1) == TokenType::RParen {
                                Some((d, j + 1))
                            } else {
                                None
                            },
                            None => None,
                        }
                    } else {
                        None
                    }
                },
            }
        } else {
            None
        };
        match head {
            Some((d, j)) => sp_climb_disp(t, j, prec, d, (fuel - 1) as nat),
            None => None,
        }
    }
}

/// The operator climb on display forms: while the token after `j` is a
/// binary operator binding tighter than `prec`, wrap the display so far
/// with it and the right operand parsed at the operator's own
/// precedence.
pub open spec fn sp_climb_disp(t: Seq<Token>, j: int, prec: Precedence, d: Seq<char>, fuel: nat) -> Option<
    (Seq<char>, int),
>
    decreases fuel, 0int,
{
    if fuel == 0 {
        None
    } else {
        let k = sp_kind_at(t, j + 1);
        if sp_idle(k, prec) {
            Some((d, j))
        } else if sp_is_binary(k) && 0 <= j + 1 < t.len() {
            match sp_expr_disp(t, j + 2, sp_token_precedence(k), (fuel - 1) as nat) {
                Some((rd, j2)) => sp_climb_disp(
                    t,
                    j2,
                    prec,
                    seq!['('] + d + seq![' '] + t[j + 1].literal@ + seq![' '] + rd + seq![')'],
                    (fuel - 1) as nat,
                ),
                None => None,
            }
        } else {
            None
        }
    }
}

/// Enough nesting budget for any parse within the buffer.
pub open spec fn sp_disp_fuel(t: Seq<Token>) -> nat {
    (4 * t.len() + 8) as nat
}

/// More fuel never changes a defined core parse.
pub proof fn lemma_disp_mono(t: Seq<Token>, i: int, prec: Precedence, f1: nat, f2: nat)
    requires
        f1 <= f2,
        sp_expr_disp(t, i, prec, f1) is Some,
    ensures
        sp_expr_disp(t, i, prec, f2) == sp_expr_disp(t, i, prec, f1),
    decreases f1, 1int,
{
    if 0 <= i < t.len() && sp_atom_disp(t[i]) is None {
        if t[i].ttype == TokenType::Bang || t[i].ttype == TokenType::Sub || t[i].ttype
            == TokenType::LParen {
            let p2 = if t[i].ttype == TokenType::LParen {
                Precedence::Lowest
            } else {
                Precedence::Prefix
            };
            lemma_disp_mono(t, i + 1, p2, (f1 - 1) as nat, (f2 - 1) as nat);
        }
    }
    match sp_expr_disp(t, i, prec, f1) {
        Some(_) => {
            if 0 <= i < t.len() {
                match sp_atom_disp(t[i]) {
                    Some(d) => {
                        lemma_climb_mono(t, i, prec, d, (f1 - 1) as nat, (f2 - 1) as nat);
                    },
                    None => {
                        if t[i].ttype == TokenType::Bang || t[i].ttype == TokenType::Sub {
                            match sp_expr_disp(t, i + 1, Precedence::Prefix, (f1 - 1) as nat) {
                                Some((d, j)) => {
                                    lemma_climb_mono(
                                        t,
                                        j,
                                        prec,
                                        seq!['('] + t[i].literal@ + d + seq![')'],
                                        (f1 - 1) as nat,
                                        (f2 - 1) as nat,
                                    );
                                },
                                None => {},
                            }
                        } else if t[i].ttype == TokenType::LParen {
                            match sp_expr_disp(t, i + 1, Precedence::Lowest, (f1 - 1) as nat) {
                                Some((d, j)) => {
                                    lemma_climb_mono(
                                        t,
                                        j + 1,
                                        prec,
                                        d,
                                        (f1 - 1) as nat,
                                        (f2 - 1) as nat,
                                    );
                                },
                                None => {},
                            }
                        }
                    },
                }
            }
        },
        None => {},
    }
}

/// More fuel never changes a defined climb.
pub proof fn lemma_climb_mono(
    t: Seq<Token>,
    j: int,
    prec: Precedence,
    d: Seq<char>,
    f1: nat,
    f2: nat,
)
    requires
        f1 <= f2,
        sp_climb_disp(t, j, prec, d, f1) is Some,
    ensures
        sp_climb_disp(t, j, prec, d, f2) == sp_climb_disp(t, j, prec, d, f1),
    decreases f1, 0int,
{
    let k = sp_kind_at(t, j + 1);
    if !sp_idle(k, prec) && sp_is_binary(k) && 0 <= j + 1 < t.len() {
        match sp_expr_disp(t, j + 2, sp_token_precedence(k), (f1 - 1) as nat) {
            Some((rd, j2)) => {
                lemma_disp_mono(
                    t,
                    j + 2,
                    sp_token_precedence(k),
                    (f1 - 1) as nat,
                    (f2 - 1) as nat,
                );
                lemma_climb_mono(
                    t,
                    j2,
                    prec,
                    seq!['('] + d + seq![' '] + t[j + 1].literal@ + seq![' '] + rd + seq![')'],
                    (f1 - 1) as nat,
                    (f2 - 1) as nat,
                );
            },
            None => {},
        }
    }
}

} // verus!
