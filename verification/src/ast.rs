//! The abstract syntax tree: expressions, statements and their canonical
//! display forms.
//!
//! Every node keeps the token at which it was parsed, for diagnostics.
//! The display form is specified by the `sp_display_*` functions and the
//! executable printers are proved to produce exactly those strings.

use std::rc::Rc;
use vstd::prelude::*;
use vstd::string::*;

use crate::text::push_char;
use crate::token::{PrimitiveKind, Token};

verus! {

broadcast use vstd::std_specs::vec::axiom_vec_index_decreases;

/// A name appearing in the source, with the token it came from.
#[derive(Debug, PartialEq, Eq)]
pub struct Identifier {
    pub token: Token,
    pub value: String,
}

/// A literal: an integer, a boolean, a string, an array of expressions,
/// or a hash of key-value expression pairs in source order.
#[derive(Debug, PartialEq, Eq)]
pub enum Literal {
    Integer(i64),
    Boolean(bool),
    String(String),
    Array(Vec<Expression>),
    Hash(Vec<(Expression, Expression)>),
}

/// An expression node.
#[derive(Debug, PartialEq, Eq)]
pub enum Expression {
    Identifier(Identifier),
    Literal(Literal),
    Prefix { token: Token, operator: String, right: Box<Expression> },
    Infix { token: Token, left: Box<Expression>, operator: String, right: Box<Expression> },
    If {
        token: Token,
        condition: Box<Expression>,
        consequence: Box<BlockStatement>,
        alternative: Option<Box<BlockStatement>>,
    },
    FunctionLiteral { token: Token, parameters: Rc<Vec<Identifier>>, body: Rc<BlockStatement> },
    FunctionCall { token: Token, function: Box<Expression>, arguments: Vec<Expression> },
    IndexExpression { token: Token, left: Box<Expression>, index: Box<Expression> },
    DotNotation { token: Token, left: Box<Expression>, right: Box<Expression> },
}

/// A statement node. The `value_kind` of a `let` is the optional
/// primitive-kind annotation, kept as metadata only.
#[derive(Debug, PartialEq, Eq)]
pub enum Statement {
    Let { token: Token, name: Identifier, value: Expression, value_kind: Option<PrimitiveKind> },
    ReAssign { token: Token, name: Identifier, value: Expression },
    Return { token: Token, value: Expression },
    Expression { token: Token, value: Expression },
}

/// A block: an ordered sequence of statements.
pub type BlockStatement = Vec<Statement>;

/// A whole program: its top-level statements in order.
pub type Program = BlockStatement;

// ---------------------------------------------------------------------
// Display forms
// ---------------------------------------------------------------------

/// The decimal digit character for `d` (which must be below ten).
pub open spec fn sp_digit(d: nat) -> char {
    if d == 0 {
        '0'
    } else if d == 1 {
        '1'
    } else if d == 2 {
        '2'
    } else if d == 3 {
        '3'
    } else if d == 4 {
        '4'
    } else if d == 5 {
        '5'
    } else if d == 6 {
        '6'
    } else if d == 7 {
        '7'
    } else if d == 8 {
        '8'
    } else {
        '9'
    }
}

/// The decimal digits of `n`, most significant first.
pub open spec fn sp_dec_digits(n: nat) -> Seq<char>
    decreases n,
{
    if n < 10 {
        seq![sp_digit(n)]
    } else {
        sp_dec_digits(n / 10).push(sp_digit(n % 10))
    }
}

/// The decimal display of a signed integer.
pub open spec fn sp_display_i64(v: i64) -> Seq<char> {
    if v < 0 {
        seq!['-'] + sp_dec_digits((-(v as int)) as nat)
    } else {
        sp_dec_digits(v as nat)
    }
}

/// Joins already-rendered pieces with a comma and a space.
pub open spec fn sp_join(rs: Seq<Seq<char>>) -> Seq<char>
    decreases rs.len(),
{
    if rs.len() == 0 {
        Seq::empty()
    } else if rs.len() == 1 {
        rs[0]
    } else {
        rs[0] + ", "@ + sp_join(rs.drop_first())
    }
}

/// Extending a joined list by one more piece appends a separator first,
/// unless the list was empty.
pub proof fn lemma_join_push(rs: Seq<Seq<char>>, x: Seq<char>)
    ensures
        sp_join(rs.push(x)) == if rs.len() == 0 {
            x
        } else {
            sp_join(rs) + ", "@ + x
        },
    decreases rs.len(),
{
    if rs.len() == 0 {
        assert(rs.push(x)[0] == x);
        assert(sp_join(rs.push(x)) == x);
    } else if rs.len() == 1 {
        assert(rs.push(x).drop_first() =~= seq![x]);
        assert(rs.push(x)[0] == rs[0]);
        assert(sp_join(seq![x]) == x);
        assert(sp_join(rs.push(x)) == rs[0] + ", "@ + x);
    } else {
        assert(rs.push(x).drop_first() =~= rs.drop_first().push(x));
        lemma_join_push(rs.drop_first(), x);
        assert(sp_join(rs) + ", "@ + x =~= rs[0] + ", "@ + (sp_join(rs.drop_first()) + ", "@
            + x));
    }
}

/// The display form of an expression: the canonical, fully
/// parenthesized rendering that the parser tests compare against.
pub open spec fn sp_display_expr(e: Expression) -> Seq<char>
    decreases e, 0int,
{
    match e {
        Expression::Identifier(id) => id.value@,
        Expression::Literal(l) => sp_display_literal(l),
        Expression::Prefix { operator, right, .. } => seq!['('] + operator@ + sp_display_expr(
            *right,
        ) + seq![')'],
        Expression::Infix { left, operator, right, .. } => seq!['('] + sp_display_expr(*left) + seq![
            ' ',
        ] + operator@ + seq![' '] + sp_display_expr(*right) + seq![')'],
        Expression::If { condition, consequence, alternative, .. } => {
            let head = seq!['('] + sp_display_expr(*condition) + " {"@ + sp_debug_block(
                (*consequence)@,
            ) + seq!['}'];
            match alternative {
                Some(alt) => head + " else "@ + sp_debug_block((*alt)@) + seq![')'],
                None => head,
            }
        },
        Expression::FunctionLiteral { parameters, body, .. } => "fn("@ + sp_join(
            sp_renders_idents(parameters@),
        ) + ") {"@ + sp_debug_block((*body)@) + seq!['}'],
        Expression::FunctionCall { function, arguments, .. } => sp_display_expr(*function) + seq![
            '(',
        ] + sp_join(sp_renders_exprs(arguments@)) + seq![')'],
        Expression::IndexExpression { left, index, .. } => seq!['('] + sp_display_expr(*left)
            + seq!['['] + sp_display_expr(*index) + "])"@,
        Expression::DotNotation { left, right, .. } => seq!['('] + sp_display_expr(*left) + seq![
            '.',
        ] + sp_display_expr(*right) + seq![')'],
    }
}

/// The display form of a literal. Strings render without quotes; arrays
/// and hashes render their elements comma-separated.
pub open spec fn sp_display_literal(l: Literal) -> Seq<char>
    decreases l, 0int,
{
    match l {
        Literal::Integer(v) => sp_display_i64(v),
        Literal::Boolean(b) => if b {
            "true"@
        } else {
            "false"@
        },
        Literal::String(s) => s@,
        Literal::Array(es) => seq!['['] + sp_join(sp_renders_exprs(es@)) + seq![']'],
        Literal::Hash(ps) => seq!['{'] + sp_join(sp_renders_pairs(ps@)) + seq!['}'],
    }
}

/// The renderings of a list of expressions.
pub open spec fn sp_renders_exprs(es: Seq<Expression>) -> Seq<Seq<char>>
    decreases es, 0int,
{
    if es.len() == 0 {
        Seq::empty()
    } else {
        sp_renders_exprs(es.drop_last()).push(sp_display_expr(es.last()))
    }
}

/// The renderings of a list of key-value pairs, each as `key: value`.
pub open spec fn sp_renders_pairs(ps: Seq<(Expression, Expression)>) -> Seq<Seq<char>>
    decreases ps, 0int,
{
    if ps.len() == 0 {
        Seq::empty()
    } else {
        sp_renders_pairs(ps.drop_last()).push(
            sp_display_expr(ps.last().0) + ": "@ + sp_display_expr(ps.last().1),
        )
    }
}

/// The renderings of a parameter list.
pub open spec fn sp_renders_idents(ids: Seq<Identifier>) -> Seq<Seq<char>>
    decreases ids.len(),
{
    if ids.len() == 0 {
        Seq::empty()
    } else {
        sp_renders_idents(ids.drop_last()).push(ids.last().value@)
    }
}

/// The debug form of a statement, as the block renderer prints it.
pub open spec fn sp_debug_stmt(s: Statement) -> Seq<char>
    decreases s, 0int,
{
    match s {
        Statement::Let { name, value, .. } => "let "@ + name.value@ + " = "@ + sp_display_expr(
            value,
        ) + ") "@,
        Statement::Return { value, .. } => "return "@ + sp_display_expr(value) + seq![';'],
        Statement::Expression { value, .. } => sp_display_expr(value),
        Statement::ReAssign { name, value, .. } => "reassign "@ + name.value@ + " = "@
            + sp_display_expr(value),
    }
}

/// The renderings of the statements of a block.
pub open spec fn sp_renders_stmts(b: Seq<Statement>) -> Seq<Seq<char>>
    decreases b, 0int,
{
    if b.len() == 0 {
        Seq::empty()
    } else {
        sp_renders_stmts(b.drop_last()).push(sp_debug_stmt(b.last()))
    }
}

/// The debug form of a block: its statements, comma-separated, between
/// square brackets.
pub open spec fn sp_debug_block(b: Seq<Statement>) -> Seq<char>
    decreases b, 1int,
{
    seq!['['] + sp_join(sp_renders_stmts(b)) + seq![']']
}

/// Appends the decimal digits of `n`, most significant first.
pub fn push_dec_u64(out: &mut String, n: u64)
    ensures
        final(out)@ == old(out)@ + sp_dec_digits(n as nat),
    decreases n,
{
    if n >= 10 {
        push_dec_u64(out, n / 10);
        let d = n % 10;
        push_char(out, digit_char(d));
    } else {
        push_char(out, digit_char(n));
        proof {
            assert(old(out)@ + sp_dec_digits(n as nat) =~= old(out)@.push(sp_digit(n as nat)));
        }
    }
}

/// The digit character for `d`, which must be below ten.
fn digit_char(d: u64) -> (c: char)
    requires
        d < 10,
    ensures
        c == sp_digit(d as nat),
{
    if d == 0 {
        '0'
    } else if d == 1 {
        '1'
    } else if d == 2 {
        '2'
    } else if d == 3 {
        '3'
    } else if d == 4 {
        '4'
    } else if d == 5 {
        '5'
    } else if d == 6 {
        '6'
    } else if d == 7 {
        '7'
    } else if d == 8 {
        '8'
    } else {
        '9'
    }
}

/// Appends the decimal display of a signed integer.
pub fn push_i64(out: &mut String, v: i64)
    ensures
        final(out)@ == old(out)@ + sp_display_i64(v),
{
    if v < 0 {
        push_char(out, '-');
        let mag: u64 = ((-(v + 1)) as u64) + 1;
        proof {
            assert(mag as int == -(v as int));
            assert(old(out)@.push('-') =~= old(out)@ + seq!['-']);
        }
        push_dec_u64(out, mag);
        proof {
            assert((old(out)@ + seq!['-']) + sp_dec_digits(mag as nat) =~= old(out)@ + (seq!['-']
                + sp_dec_digits(mag as nat)));
        }
    } else {
        push_dec_u64(out, v as u64);
    }
}

impl Identifier {
    /// An identical copy.
    pub fn duplicate(&self) -> (r: Identifier)
        ensures
            r == *self,
    {
        Identifier { token: self.token.duplicate(), value: self.value.clone() }
    }
}

impl Expression {
    /// The canonical display form; decides [`sp_display_expr`].
    pub fn to_display_string(&self) -> (s: String)
        ensures
            s@ == sp_display_expr(*self),
    {
        let mut out = String::new();
        push_expr(&mut out, self);
        proof {
            assert(Seq::<char>::empty() + sp_display_expr(*self) =~= sp_display_expr(*self));
        }
        out
    }
}

/// Appends the display form of an expression.
pub fn push_expr(out: &mut String, e: &Expression)
    ensures
        final(out)@ == old(out)@ + sp_display_expr(*e),
    decreases *e, 2int,
{
    match e {
        Expression::Identifier(id) => {
            out.append(id.value.as_str());
        },
        Expression::Literal(l) => {
            push_literal(out, l);
        },
        Expression::Prefix { operator, right, .. } => {
            push_char(out, '(');
            out.append(operator.as_str());
            push_expr(out, right);
            push_char(out, ')');
        },
        Expression::Infix { left, operator, right, .. } => {
            push_char(out, '(');
            push_expr(out, left);
            push_char(out, ' ');
            out.append(operator.as_str());
            push_char(out, ' ');
            push_expr(out, right);
            push_char(out, ')');
        },
        Expression::If { condition, consequence, alternative, .. } => {
            push_char(out, '(');
            push_expr(out, condition);
            out.append(" {");
            push_block(out, consequence);
            push_char(out, '}');
            match alternative {
                Some(alt) => {
                    out.append(" else ");
                    push_block(out, alt);
                    push_char(out, ')');
                },
                None => {},
            }
        },
        Expression::FunctionLiteral { parameters, body, .. } => {
            out.append("fn(");
            push_ident_list(out, parameters);
            out.append(") {");
            push_block(out, body);
            push_char(out, '}');
        },
        Expression::FunctionCall { function, arguments, .. } => {
            push_expr(out, function);
            push_char(out, '(');
            push_expr_list(out, arguments);
            push_char(out, ')');
        },
        Expression::IndexExpression { left, index, .. } => {
            push_char(out, '(');
            push_expr(out, left);
            push_char(out, '[');
            push_expr(out, index);
            out.append("])");
        },
        Expression::DotNotation { left, right, .. } => {
            push_char(out, '(');
            push_expr(out, left);
            push_char(out, '.');
            push_expr(out, right);
            push_char(out, ')');
        },
    }
}

/// Appends the display form of a literal.
fn push_literal(out: &mut String, l: &Literal)
    ensures
        final(out)@ == old(out)@ + sp_display_literal(*l),
    decreases *l, 2int,
{
    match l {
        Literal::Integer(v) => {
            push_i64(out, *v);
        },
        Literal::Boolean(b) => {
            if *b {
                out.append("true");
            } else {
                out.append("false");
            }
        },
        Literal::String(s) => {
            out.append(s.as_str());
        },
        Literal::Array(es) => {
            push_char(out, '[');
            push_expr_list(out, es);
            push_char(out, ']');
        },
        Literal::Hash(ps) => {
            push_char(out, '{');
            push_pair_list(out, ps);
            push_char(out, '}');
        },
    }
}

/// Appends a comma-separated expression list.
fn push_expr_list(out: &mut String, es: &Vec<Expression>)
    ensures
        final(out)@ == old(out)@ + sp_join(sp_renders_exprs(es@)),
    decreases es@, 1int,
{
    let mut i: usize = 0;
    while i < es.len()
        invariant
            i <= es.len(),
            out@ == old(out)@ + sp_join(sp_renders_exprs(es@.subrange(0, i as int))),
        decreases es@.len() - i,
    {
        let ghost pre = es@.subrange(0, i as int);
        if i > 0 {
            out.append(", ");
        }
        push_expr(out, &es[i]);
        proof {
            assert(es@.subrange(0, i + 1 as int).drop_last() =~= pre);
            assert(es@.subrange(0, i + 1 as int).last() == es@[i as int]);
            lemma_join_push(sp_renders_exprs(pre), sp_display_expr(es@[i as int]));
            if i == 0 {
                assert(sp_renders_exprs(pre).len() == 0);
            }
        }
        i = i + 1;
    }
    proof {
        assert(es@.subrange(0, es@.len() as int) =~= es@);
    }
}

/// Appends a comma-separated `key: value` pair list.
fn push_pair_list(out: &mut String, ps: &Vec<(Expression, Expression)>)
    ensures
        final(out)@ == old(out)@ + sp_join(sp_renders_pairs(ps@)),
    decreases ps@, 1int,
{
    let mut i: usize = 0;
    while i < ps.len()
        invariant
            i <= ps.len(),
            out@ == old(out)@ + sp_join(sp_renders_pairs(ps@.subrange(0, i as int))),
        decreases ps@.len() - i,
    {
        let ghost pre = ps@.subrange(0, i as int);
        if i > 0 {
            out.append(", ");
        }
        push_expr(out, &ps[i].0);
        out.append(": ");
        push_expr(out, &ps[i].1);
        proof {
            assert(ps@.subrange(0, i + 1 as int).drop_last() =~= pre);
            assert(ps@.subrange(0, i + 1 as int).last() == ps@[i as int]);
            lemma_join_push(
                sp_renders_pairs(pre),
                sp_display_expr(ps@[i as int].0) + ": "@ + sp_display_expr(ps@[i as int].1),
            );
            if i == 0 {
                assert(sp_renders_pairs(pre).len() == 0);
            }
        }
        i = i + 1;
    }
    proof {
        assert(ps@.subrange(0, ps@.len() as int) =~= ps@);
    }
}

/// Appends a comma-separated parameter list.
fn push_ident_list(out: &mut String, ids: &Vec<Identifier>)
    ensures
        final(out)@ == old(out)@ + sp_join(sp_renders_idents(ids@)),
{
    let mut i: usize = 0;
    while i < ids.len()
        invariant
            i <= ids.len(),
            out@ == old(out)@ + sp_join(sp_renders_idents(ids@.subrange(0, i as int))),
        decreases ids@.len() - i,
    {
        let ghost pre = ids@.subrange(0, i as int);
        if i > 0 {
            out.append(", ");
        }
        out.append(ids[i].value.as_str());
        proof {
            assert(ids@.subrange(0, i + 1 as int).drop_last() =~= pre);
            assert(ids@.subrange(0, i + 1 as int).last() == ids@[i as int]);
            lemma_join_push(sp_renders_idents(pre), ids@[i as int].value@);
            if i == 0 {
                assert(sp_renders_idents(pre).len() == 0);
            }
        }
        i = i + 1;
    }
    proof {
        assert(ids@.subrange(0, ids@.len() as int) =~= ids@);
    }
}

/// Appends the debug form of one statement.
pub fn push_stmt(out: &mut String, s: &Statement)
    ensures
        final(out)@ == old(out)@ + sp_debug_stmt(*s),
    decreases *s, 2int,
{
    match s {
        Statement::Let { name, value, .. } => {
            out.append("let ");
            out.append(name.value.as_str());
            out.append(" = ");
            push_expr(out, value);
            out.append(") ");
        },
        Statement::Return { value, .. } => {
            out.append("return ");
            push_expr(out, value);
            push_char(out, ';');
        },
        Statement::Expression { value, .. } => {
            push_expr(out, value);
        },
        Statement::ReAssign { name, value, .. } => {
            out.append("reassign ");
            out.append(name.value.as_str());
            out.append(" = ");
            push_expr(out, value);
        },
    }
}

/// Appends the debug form of a block: `[stmt, stmt]`.
pub fn push_block(out: &mut String, b: &Vec<Statement>)
    ensures
        final(out)@ == old(out)@ + sp_debug_block(b@),
    decreases b@, 1int,
{
    push_char(out, '[');
    let mut i: usize = 0;
    while i < b.len()
        invariant
            i <= b.len(),
            out@ == old(out)@ + seq!['['] + sp_join(sp_renders_stmts(b@.subrange(0, i as int))),
        decreases b@.len() - i,
    {
        let ghost pre = b@.subrange(0, i as int);
        if i > 0 {
            out.append(", ");
        }
        push_stmt(out, &b[i]);
        proof {
            assert(b@.subrange(0, i + 1 as int).drop_last() =~= pre);
            assert(b@.subrange(0, i + 1 as int).last() == b@[i as int]);
            lemma_join_push(sp_renders_stmts(pre), sp_debug_stmt(b@[i as int]));
            if i == 0 {
                assert(sp_renders_stmts(pre).len() == 0);
            }
        }
        i = i + 1;
    }
    push_char(out, ']');
    proof {
        assert(b@.subrange(0, b@.len() as int) =~= b@);
    }
}


} // verus!
