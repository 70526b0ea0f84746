//! The evaluator: walks the syntax tree and produces runtime values,
//! threading the environment and the two control signals (`Return` and
//! `Error`) through ordinary returns.
//!
//! Inside a block an `Error` aborts the remaining statements; at the top
//! level it is reported on the output channel and evaluation continues
//! with the next statement. A `Return` signal unwinds to the nearest
//! function call (or to the whole program) and unwraps to its payload.

use std::rc::Rc;
use vstd::prelude::*;
use vstd::string::*;

use crate::ast::{Expression, Literal, Program, Statement};
use crate::builtin::{
    apply_builtin, builtin_named, dot_str_builtins, sp_builtin_named, sp_dot_property, sp_err_msg,
    sp_first_result, sp_len_result, sp_pop_result, sp_push_result, sp_str_obj, DotBuiltinKind,
};
use crate::env::{sp_lookup, Env};
use crate::object::{push_obj, Builtin, Object};
use crate::text::{push_char, rc_clone, str_eq};

verus! {

/// How many nested function calls an evaluation may make before it is
/// stopped with a clean `Error` object. Verified code cannot be allowed
/// to exhaust the native stack, so unbounded call nesting is cut off at
/// this generous depth; programs within it behave as if no bound
/// existed.
pub const MAX_CALL_DEPTH: u64 = 1000;

/// Truncating 64-bit division, quotient widened to the integers;
/// meaningful for a nonzero divisor.
pub open spec fn sp_i64_div(x: i64, d: i64) -> int {
    if x == 0 {
        0
    } else if x > 0 && d > 0 {
        x as int / d as int
    } else if x < 0 && d < 0 {
        ((x as int * -1) / (d as int * -1))
    } else if x < 0 {
        ((x as int * -1) / d as int) * -1
    } else {
        (x as int / (d as int * -1)) * -1
    }
}

/// What an integer-integer infix operator yields: wrapping `+ - *`,
/// truncating `/` (division by zero is an error, and the one overflowing
/// quotient wraps), the four comparisons, and an error naming any other
/// operator.
pub open spec fn sp_int_infix(l: i64, op: Seq<char>, rv: i64, r: Object) -> bool {
    if op == "+"@ {
        r == Object::Integer(vstd::wrapping::i64_specs::wrapping_add(l, rv))
    } else if op == "-"@ {
        r == Object::Integer(vstd::wrapping::i64_specs::wrapping_sub(l, rv))
    } else if op == "*"@ {
        r == Object::Integer(vstd::wrapping::i64_specs::wrapping_mul(l, rv))
    } else if op == "/"@ {
        if rv == 0 {
            sp_err_msg(r, "Division by zero"@)
        } else if i64::MIN <= sp_i64_div(l, rv) <= i64::MAX {
            r == Object::Integer(sp_i64_div(l, rv) as i64)
        } else {
            r == Object::Integer(i64::MIN)
        }
    } else if op == "<"@ {
        r == Object::Boolean(l < rv)
    } else if op == ">"@ {
        r == Object::Boolean(l > rv)
    } else if op == "=="@ {
        r == Object::Boolean(l == rv)
    } else if op == "!="@ {
        r == Object::Boolean(l != rv)
    } else {
        sp_err_msg(r, "Invalid operator: "@ + op)
    }
}

/// What a boolean-boolean infix operator yields.
pub open spec fn sp_bool_infix(l: bool, op: Seq<char>, rv: bool, r: Object) -> bool {
    if op == "=="@ {
        r == Object::Boolean(l == rv)
    } else if op == "!="@ {
        r == Object::Boolean(l != rv)
    } else {
        sp_err_msg(r, "Invalid operator: "@ + op)
    }
}

/// What a string-string infix operator yields: `+` concatenates,
/// `==`/`!=` compare by content.
pub open spec fn sp_string_infix(l: Seq<char>, op: Seq<char>, rv: Seq<char>, r: Object) -> bool {
    if op == "+"@ {
        sp_str_obj(r, l + rv)
    } else if op == "=="@ {
        r == Object::Boolean(l == rv)
    } else if op == "!="@ {
        r == Object::Boolean(l != rv)
    } else {
        sp_err_msg(r, "Invalid operator: "@ + op)
    }
}

/// Indexing an array: negative indices count from the end, and any
/// index outside the array after that adjustment yields `Null`, never
/// an error.
pub open spec fn sp_array_index(es: Seq<Object>, idx: int) -> Object {
    if 0 <= idx < es.len() {
        es[idx]
    } else if idx < 0 && 0 <= es.len() + idx {
        es[es.len() + idx]
    } else {
        Object::Null
    }
}

/// Indexing a string, over characters, with the same index rules as
/// arrays; a hit yields a one-character string.
pub open spec fn sp_string_index(s: Seq<char>, idx: int, r: Object) -> bool {
    if 0 <= idx < s.len() {
        sp_str_obj(r, seq![s[idx]])
    } else if idx < 0 && 0 <= s.len() + idx {
        sp_str_obj(r, seq![s[s.len() + idx]])
    } else {
        r == Object::Null
    }
}

/// Looking a string key up in a hash: the first pair whose key is a
/// string with those characters wins; a missing key yields `Null`.
pub open spec fn sp_hash_lookup(ps: Seq<(Object, Object)>, k: Seq<char>) -> Object
    decreases ps.len(),
{
    if ps.len() == 0 {
        Object::Null
    } else if match ps[0].0 {
        Object::String(s) => s@ == k,
        _ => false,
    } {
        ps[0].1
    } else {
        sp_hash_lookup(ps.drop_first(), k)
    }
}

/// The integer a constant expression evaluates to, if `e` is one:
/// integer literals, `-` prefixes, and the four arithmetic operators
/// over constant operands, with the evaluator's wrapping and truncating
/// semantics. Division by a constant zero is not constant (it is an
/// error at run time).
pub open spec fn sp_as_int(e: Expression) -> Option<i64>
    decreases e,
{
    match e {
        Expression::Literal(Literal::Integer(v)) => Some(v),
        Expression::Prefix { ref operator, ref right, .. } => if operator@ == "-"@ {
            match sp_as_int(**right) {
                Some(v) => Some(vstd::wrapping::i64_specs::wrapping_sub(0, v)),
                None => None,
            }
        } else {
            None
        },
        Expression::Infix { ref left, ref operator, ref right, .. } => match (
            sp_as_int(**left),
            sp_as_int(**right),
        ) {
            (Some(a), Some(b)) => if operator@ == "+"@ {
                Some(vstd::wrapping::i64_specs::wrapping_add(a, b))
            } else if operator@ == "-"@ {
                Some(vstd::wrapping::i64_specs::wrapping_sub(a, b))
            } else if operator@ == "*"@ {
                Some(vstd::wrapping::i64_specs::wrapping_mul(a, b))
            } else if operator@ == "/"@ {
                if b == 0 {
                    None
                } else if i64::MIN <= sp_i64_div(a, b) <= i64::MAX {
                    Some(sp_i64_div(a, b) as i64)
                } else {
                    Some(i64::MIN)
                }
            } else {
                None
            },
            _ => None,
        },
        _ => None,
    }
}

/// The values of a list of integer-literal expressions; `None` when any
/// element is something else.
pub open spec fn sp_int_literal_values(es: Seq<Expression>) -> Option<Seq<Object>>
    decreases es.len(),
{
    if es.len() == 0 {
        Some(Seq::empty())
    } else {
        match sp_int_literal_values(es.drop_last()) {
            Some(pre) => match sp_as_int(es.last()) {
                Some(v) => Some(pre.push(Object::Integer(v))),
                None => None,
            },
            None => None,
        }
    }
}

proof fn lemma_int_values_of_prefix(es: Seq<Expression>, k: int)
    requires
        0 <= k <= es.len(),
        sp_int_literal_values(es) is Some,
    ensures
        sp_int_literal_values(es.subrange(0, k)) is Some,
    decreases es.len(),
{
    if k == es.len() {
        assert(es.subrange(0, k) =~= es);
    } else {
        assert(es.len() > 0);
        assert(es.subrange(0, k) =~= es.drop_last().subrange(0, k));
        lemma_int_values_of_prefix(es.drop_last(), k);
    }
}

proof fn lemma_int_literal_values(es: Seq<Expression>)
    ensures
        match sp_int_literal_values(es) {
            Some(vals) => vals.len() == es.len() && forall|i: int|
                0 <= i < es.len() ==> sp_as_int(#[trigger] es[i]) is Some && vals[i]
                    == Object::Integer(sp_as_int(es[i]).unwrap()),
            None => true,
        },
    decreases es.len(),
{
    if es.len() > 0 {
        lemma_int_literal_values(es.drop_last());
        match sp_int_literal_values(es) {
            Some(vals) => {
                let pre = sp_int_literal_values(es.drop_last()).unwrap();
                assert(vals == pre.push(Object::Integer(sp_as_int(es.last()).unwrap())));
                assert(forall|i: int|
                    0 <= i < es.len() - 1 ==> #[trigger] es[i] == es.drop_last()[i]);
                assert(forall|i: int| 0 <= i < es.len() - 1 ==> #[trigger] vals[i] == pre[i]);
            },
            None => {},
        }
    }
}

/// The object pairs of a hash literal whose keys are string literals
/// and whose values are integer, boolean or string literals; `None`
/// when any pair is something else.
pub open spec fn sp_literal_pairs(ps: Seq<(Expression, Expression)>) -> Option<
    Seq<(Object, Object)>,
>
    decreases ps.len(),
{
    if ps.len() == 0 {
        Some(Seq::empty())
    } else {
        match sp_literal_pairs(ps.drop_last()) {
            Some(pre) => match ps.last().0 {
                Expression::Literal(Literal::String(k)) => match sp_literal_value(ps.last().1) {
                    Some(v) => Some(pre.push((Object::String(k), v))),
                    None => None,
                },
                _ => None,
            },
            None => None,
        }
    }
}

proof fn lemma_literal_pairs_of_prefix(ps: Seq<(Expression, Expression)>, k: int)
    requires
        0 <= k <= ps.len(),
        sp_literal_pairs(ps) is Some,
    ensures
        sp_literal_pairs(ps.subrange(0, k)) is Some,
    decreases ps.len(),
{
    if k == ps.len() {
        assert(ps.subrange(0, k) =~= ps);
    } else {
        assert(ps.len() > 0);
        assert(ps.subrange(0, k) =~= ps.drop_last().subrange(0, k));
        lemma_literal_pairs_of_prefix(ps.drop_last(), k);
    }
}

proof fn lemma_literal_pairs(ps: Seq<(Expression, Expression)>)
    ensures
        match sp_literal_pairs(ps) {
            Some(vals) => vals.len() == ps.len() && forall|i: int|
                0 <= i < ps.len() ==> ((#[trigger] ps[i]).0 matches Expression::Literal(
                    Literal::String(_),
                ) && sp_literal_value(ps[i].1) is Some),
            None => true,
        },
    decreases ps.len(),
{
    if ps.len() > 0 {
        lemma_literal_pairs(ps.drop_last());
        match sp_literal_pairs(ps) {
            Some(vals) => {
                let pre = sp_literal_pairs(ps.drop_last()).unwrap();
                assert(forall|i: int|
                    0 <= i < ps.len() - 1 ==> #[trigger] ps[i] == ps.drop_last()[i]);
            },
            None => {},
        }
    }
}

/// The object a bare integer, boolean or string literal expression
/// denotes, if `e` is one.
pub open spec fn sp_literal_value(e: Expression) -> Option<Object> {
    match e {
        Expression::Literal(Literal::Integer(v)) => Some(Object::Integer(v)),
        Expression::Literal(Literal::Boolean(b)) => Some(Object::Boolean(b)),
        Expression::Literal(Literal::String(s)) => Some(Object::String(s)),
        _ => None,
    }
}

/// The object a literal, constant-integer or function-literal
/// expression denotes when evaluated with `scope` innermost; function
/// literals close over `scope`.
pub open spec fn sp_simple_value(e: Expression, scope: usize) -> Option<Object> {
    match e {
        Expression::FunctionLiteral { ref parameters, ref body, .. } => Some(
            Object::Function { parameters: *parameters, body: *body, env: scope },
        ),
        _ => match sp_as_int(e) {
            Some(v) => Some(Object::Integer(v)),
            None => sp_literal_value(e),
        },
    }
}

/// The value of a statement that is a bare literal or constant-integer
/// expression, if it is one.
pub open spec fn sp_stmt_literal_value(s: Statement) -> Option<Object> {
    match s {
        Statement::Expression { value, .. } => match sp_as_int(value) {
            Some(v) => Some(Object::Integer(v)),
            None => sp_literal_value(value),
        },
        _ => None,
    }
}

/// Whether every statement is a bare literal or constant-integer
/// expression.
pub open spec fn sp_all_literal_stmts(b: Seq<Statement>) -> bool {
    forall|k: int| 0 <= k < b.len() ==> sp_stmt_literal_value(#[trigger] b[k]) is Some
}

/// How one evaluation step may change the evaluator: the environment
/// stays well-formed, the innermost scope is restored, scopes are never
/// dropped, and the output only grows.
pub open spec fn sp_evolves(pre: Evaluator, post: Evaluator) -> bool {
    &&& post.envm().wf()
    &&& post.envm().cur() == pre.envm().cur()
    &&& post.envm().scope_count() >= pre.envm().scope_count()
    &&& pre.outm().is_prefix_of(post.outm())
}

proof fn lemma_prefix_trans<T>(a: Seq<T>, b: Seq<T>, c: Seq<T>)
    requires
        a.is_prefix_of(b),
        b.is_prefix_of(c),
    ensures
        a.is_prefix_of(c),
{
    assert(a =~= c.subrange(0, a.len() as int));
}

/// What evaluating an expression is pinned to, for the forms whose
/// outcome the contracts fix exactly: constant integer arithmetic of
/// any depth, the other literals (including arrays of constant shapes
/// and hashes of literal pairs), identifiers, function literals,
/// literal-operand prefix and infix operators, indexing constant
/// collections, if-expressions over literal conditions and literal
/// blocks, dot-notation on bound names, and built-in calls on
/// constant-integer arguments. `pre` and `post` are the evaluator before
/// and after; unpinned forms put no constraint on `r`.
pub open spec fn sp_expr_pinned(pre: Evaluator, post: Evaluator, e: Expression, r: Object) -> bool {
    &&& (match sp_as_int(e) {
        Some(v) => r == Object::Integer(v) && post == pre,
        None => true,
    })
    &&& match e {
        Expression::Literal(Literal::Integer(v)) => r == Object::Integer(v) && post == pre,
        Expression::Literal(Literal::Boolean(b)) => r == Object::Boolean(b) && post == pre,
        Expression::Literal(Literal::String(ref s)) => r == Object::String(*s) && post == pre,
        Expression::Literal(Literal::Array(ref es)) => match sp_int_literal_values(es@) {
            Some(vals) => match r {
                Object::Array(rs) => rs@ == vals,
                _ => false,
            },
            None => true,
        },
        Expression::Literal(Literal::Hash(ref ps)) => match sp_literal_pairs(ps@) {
            Some(vals) => match r {
                Object::Hash(rs) => rs@ == vals,
                _ => false,
            },
            None => true,
        },
        Expression::IndexExpression { ref left, ref index, .. } => match (
            &**left,
            sp_as_int(**index),
        ) {
            (Expression::Literal(Literal::Array(ref es)), Some(ix)) => match
                sp_int_literal_values(es@) {
                Some(vals) => r == sp_array_index(vals, ix as int),
                None => true,
            },
            (Expression::Literal(Literal::String(ref s)), Some(ix)) => sp_string_index(
                s@,
                ix as int,
                r,
            ),
            _ => true,
        },
        Expression::Prefix { ref operator, ref right, .. } => match sp_literal_value(
            **right,
        ) {
            Some(v) => {
                &&& (operator@ == "!"@ ==> (match v {
                    Object::Boolean(b) => r == Object::Boolean(!b),
                    _ => sp_err_msg(r, "Use ! prefix operator on booleans!"@),
                }))
                &&& (operator@ == "-"@ ==> (match v {
                    Object::Integer(n) => r == Object::Integer(
                        vstd::wrapping::i64_specs::wrapping_sub(0, n),
                    ),
                    _ => sp_err_msg(r, "Use - prefix operator on integers or floats"@),
                }))
            },
            None => true,
        },
        Expression::If { ref condition, ref consequence, ref alternative, .. } => match **condition {
            Expression::Literal(Literal::Boolean(b)) => {
                let blk = if b {
                    (**consequence)@
                } else {
                    match *alternative {
                        Some(ref alt) => (**alt)@,
                        None => Seq::empty(),
                    }
                };
                &&& (!b && alternative is None ==> r == Object::Null && post == pre)
                &&& ((b || alternative is Some) && blk.len() == 0 ==> r == Object::Empty
                    && post == pre)
                &&& ((b || alternative is Some) && blk.len() > 0 && sp_all_literal_stmts(
                    blk,
                ) ==> r == sp_stmt_literal_value(blk.last()).unwrap() && post == pre)
            },
            _ => true,
        },
        Expression::Identifier(ref id) => match sp_lookup(
            pre.envm().bindings_model(),
            pre.envm().parents_model(),
            pre.envm().cur(),
            id.value@,
        ) {
            Some(v) => r == v,
            None => match sp_builtin_named(id.value@) {
                Some(b) => r == Object::BuiltinFunction(b),
                None => sp_err_msg(
                    r,
                    "Identifier not found (eval_identifier): "@ + id.value@,
                ),
            },
        },
        Expression::DotNotation { ref left, ref right, .. } => match &**left {
            Expression::Identifier(ref id) => match sp_lookup(
                pre.envm().bindings_model(),
                pre.envm().parents_model(),
                pre.envm().cur(),
                id.value@,
            ) {
                Some(Object::Hash(ps)) => r == sp_hash_lookup(
                    ps@,
                    crate::ast::sp_display_expr(**right),
                ),
                Some(Object::String(s)) => match &**right {
                    Expression::Identifier(ref prop) => sp_dot_property(
                        s@,
                        prop.value@,
                        r,
                    ),
                    _ => true,
                },
                _ => true,
            },
            _ => true,
        },
        Expression::FunctionLiteral { ref parameters, ref body, .. } => r == (
            Object::Function {
                parameters: *parameters,
                body: *body,
                env: pre.envm().cur(),
            }) && post == pre,
        Expression::FunctionCall { ref function, ref arguments, .. } => match &**function {
            Expression::Identifier(ref id) => match sp_lookup(
                pre.envm().bindings_model(),
                pre.envm().parents_model(),
                pre.envm().cur(),
                id.value@,
            ) {
                None => match sp_builtin_named(id.value@) {
                    Some(b) => match sp_int_literal_values(arguments@) {
                        Some(vals) => match b {
                            Builtin::Len => sp_len_result(vals, r),
                            Builtin::First => sp_first_result(vals, r),
                            Builtin::Push => sp_push_result(vals, r),
                            Builtin::Pop => sp_pop_result(vals, r),
                            Builtin::Print | Builtin::Println => r == Object::Empty,
                            Builtin::Fprintln => true,
                        },
                        None => true,
                    },
                    None => true,
                },
                _ => true,
            },
            Expression::FunctionLiteral { ref parameters, .. } => (sp_int_literal_values(
                arguments@,
            ) is Some && parameters@.len() != arguments@.len()) ==> sp_err_msg(
                r,
                "Wrong number of arguments. Expected "@ + crate::ast::sp_dec_digits(
                    parameters@.len(),
                ) + ", got "@ + crate::ast::sp_dec_digits(arguments@.len()),
            ),
            _ => true,
        },
        Expression::Infix { ref left, ref operator, ref right, .. } => match (
            sp_as_int(**left),
            sp_as_int(**right),
        ) {
            (Some(a), Some(b)) => sp_int_infix(a, operator@, b, r),
            _ => match (&**left, &**right) {
                (
                    Expression::Literal(Literal::Boolean(a)),
                    Expression::Literal(Literal::Boolean(b)),
                ) => sp_bool_infix(*a, operator@, *b, r),
                (
                    Expression::Literal(Literal::String(ref a)),
                    Expression::Literal(Literal::String(ref b)),
                ) => sp_string_infix(a@, operator@, b@, r),
                _ => true,
            },
        },
        _ => true,
    }
}

/// The tree-walking evaluator: owns the environment chain and the lines
/// printed so far.
pub struct Evaluator {
    env: Env,
    output: Vec<String>,
}

impl Evaluator {
    /// The environment.
    pub closed spec fn envm(&self) -> Env {
        self.env
    }

    /// The lines printed so far.
    pub closed spec fn outm(&self) -> Seq<String> {
        self.output@
    }

    /// A fresh evaluator: an empty root environment and no output.
    pub fn new() -> (e: Evaluator)
        ensures
            e.envm().wf(),
            e.envm().bindings_model().len() == 0,
            e.envm().cur() == 0,
            e.outm().len() == 0,
    {
        Evaluator { env: Env::new(), output: Vec::new() }
    }

    /// An error object with the given message.
    pub fn new_error(&self, msg: &str) -> (r: Object)
        ensures
            sp_err_msg(r, msg@),
    {
        Object::Error(String::from_str(msg))
    }

    /// The lines printed so far by `print`, `println` and `fprintln`,
    /// and the error reports of top-level statements, in order.
    pub fn output(&self) -> (r: &Vec<String>)
        ensures
            r@ == self.outm(),
    {
        &self.output
    }

    /// Evaluates a whole program, statement by statement. A top-level
    /// `Return` stops evaluation and unwraps to its payload. A top-level
    /// `Error` is reported on the output channel, becomes the current
    /// result, and evaluation continues. The result is the last
    /// statement value that was not `Empty`, or `None` for a program
    /// that produced nothing. Skipping `Empty` values is deliberate: a
    /// trailing `let` does not erase the last printable value, which is
    /// what a read-evaluate-print loop wants from this entry point.
    #[verifier::loop_isolation(false)]
    pub fn eval(&mut self, program: &Program) -> (r: Option<Object>)
        requires
            old(self).envm().wf(),
        ensures
            sp_evolves(*old(self), *final(self)),
            program@.len() == 0 ==> r is None && *final(self) == *old(self),
            program@.len() > 0 && sp_all_literal_stmts(program@) ==> r == Some(
                sp_stmt_literal_value(program@.last()).unwrap(),
            ),
            program@.len() > 0 ==> match program@[0] {
                Statement::Return { ref value, .. } => match sp_literal_value(*value) {
                    Some(v) => r == Some(v),
                    None => true,
                },
                _ => true,
            },
            program@.len() == 1 ==> match program@[0] {
                Statement::Expression { ref value, .. } => match r {
                    Some(x) => sp_expr_pinned(*old(self), *final(self), *value, x) || (exists|
                        mid: Evaluator,
                        sig: Object,
                    |
                        #[trigger] sp_expr_pinned(*old(self), mid, *value, sig) && (match sig {
                            Object::Return(p) => *p == x,
                            _ => false,
                        })),
                    None => sp_expr_pinned(*old(self), *final(self), *value, Object::Empty),
                },
                _ => true,
            },
    {
        let mut result: Option<Object> = None;
        let mut i: usize = 0;
        while i < program.len()
            invariant
                i <= program.len(),
                self.envm().wf(),
                sp_evolves(*old(self), *self),
                i == 0 ==> *self == *old(self) && result is None,
                sp_all_literal_stmts(program@) ==> *self == *old(self) && (i > 0 ==> result
                    == Some(sp_stmt_literal_value(program@[i - 1]).unwrap())),
                (program@.len() > 0 && (match program@[0] {
                    Statement::Return { ref value, .. } => sp_literal_value(*value) is Some,
                    _ => false,
                })) ==> i == 0,
                (program@.len() == 1 && i == 1) ==> match program@[0] {
                    Statement::Expression { ref value, .. } => match result {
                        Some(x) => sp_expr_pinned(*old(self), *self, *value, x) || (exists|
                        mid: Evaluator,
                        sig: Object,
                    |
                        #[trigger] sp_expr_pinned(*old(self), mid, *value, sig) && (match sig {
                            Object::Return(p) => *p == x,
                            _ => false,
                        })),
                        None => sp_expr_pinned(*old(self), *self, *value, Object::Empty),
                    },
                    _ => true,
                },
            decreases program@.len() - i,
        {
            let ghost pre = *self;
            let v = self.eval_statement(&program[i], MAX_CALL_DEPTH);
            let ghost vsnap = v;
            proof {
                lemma_prefix_trans(old(self).outm(), pre.outm(), self.outm());
            }
            match v {
                Object::Return(x) => {
                    proof {
                        if program@.len() == 1 {
                            match program@[0] {
                                Statement::Expression { ref value, .. } => {
                                    assert(sp_expr_pinned(*old(self), *self, *value, vsnap));
                                },
                                _ => {},
                            }
                        }
                    }
                    return Some((*x).duplicate());
                },
                Object::Error(m) => {
                    let ghost pre2 = *self;
                    self.output.push(m.clone());
                    proof {
                        assert(pre2.outm().is_prefix_of(self.outm()));
                        lemma_prefix_trans(old(self).outm(), pre2.outm(), self.outm());
                    }
                    result = Some(Object::Error(m));
                },
                Object::Empty => {},
                other => {
                    result = Some(other);
                },
            }
            i = i + 1;
        }
        result
    }

    /// Evaluates one statement. `let` binds in the current scope;
    /// reassignment mutates the nearest enclosing binding and fails if
    /// the name is bound nowhere; `return` wraps its value in the
    /// `Return` signal; an expression statement yields its value. An
    /// `Error` from a subexpression is passed through unchanged.
    #[verifier::rlimit(30)]
    fn eval_statement(&mut self, stmt: &Statement, fuel: u64) -> (r: Object)
        requires
            old(self).envm().wf(),
        ensures
            sp_evolves(*old(self), *final(self)),
            match *stmt {
                Statement::Expression { ref value, .. } => sp_expr_pinned(
                    *old(self),
                    *final(self),
                    *value,
                    r,
                ),
                Statement::Let { ref name, ref value, .. } => match sp_simple_value(
                    *value,
                    old(self).envm().cur(),
                ) {
                    Some(v) => r == Object::Empty && final(self).envm().bindings_model()
                        == crate::env::sp_set(
                        old(self).envm().bindings_model(),
                        old(self).envm().cur(),
                        name.value@,
                        v,
                    ) && final(self).envm().parents_model() == old(self).envm().parents_model()
                        && final(self).outm() == old(self).outm(),
                    None => true,
                },
                Statement::ReAssign { ref name, ref value, .. } => match sp_simple_value(
                    *value,
                    old(self).envm().cur(),
                ) {
                    Some(v) => match crate::env::sp_owner(
                        old(self).envm().bindings_model(),
                        old(self).envm().parents_model(),
                        old(self).envm().cur(),
                        name.value@,
                    ) {
                        Some(g) => r == Object::Empty && final(self).envm().bindings_model()
                            == crate::env::sp_set(
                            old(self).envm().bindings_model(),
                            g,
                            name.value@,
                            v,
                        ) && final(self).envm().parents_model() == old(self).envm().parents_model() && final(self).outm() == old(self).outm(),
                        None => sp_err_msg(r, "Identifier not found: "@ + name.value@) && final(self).envm().bindings_model() == old(self).envm().bindings_model() && final(self).outm() == old(self).outm(),
                    },
                    None => true,
                },
                Statement::Return { ref value, .. } => match sp_simple_value(
                    *value,
                    old(self).envm().cur(),
                ) {
                    Some(v) => (match r {
                        Object::Return(x) => *x == v,
                        _ => false,
                    }) && *final(self) == *old(self),
                    None => true,
                },
            },
        decreases fuel, *stmt, 1int,
    {
        match stmt {
            Statement::Expression { value, .. } => self.eval_expression(value, fuel),
            Statement::Return { value, .. } => {
                let v = self.eval_expression(value, fuel);
                match v {
                    Object::Error(m) => Object::Error(m),
                    other => Object::Return(Rc::new(other)),
                }
            },
            Statement::Let { name, value, .. } => {
                let v = self.eval_expression(value, fuel);
                match v {
                    Object::Error(m) => Object::Error(m),
                    other => {
                        self.env.set(name.value.as_str(), other);
                        Object::Empty
                    },
                }
            },
            Statement::ReAssign { name, value, .. } => {
                let v = self.eval_expression(value, fuel);
                match v {
                    Object::Error(m) => Object::Error(m),
                    other => {
                        let found = self.env.reassign(name.value.as_str(), other);
                        if found {
                            Object::Empty
                        } else {
                            let mut msg = String::from_str("Identifier not found: ");
                            msg.append(name.value.as_str());
                            Object::Error(msg)
                        }
                    },
                }
            },
        }
    }

    /// Evaluates the statements of a block in order. A `Return` signal
    /// or an `Error` aborts the rest of the block and is passed up; the
    /// block's value is otherwise its last non-`Empty` statement value,
    /// or `Empty`.
    #[verifier::loop_isolation(false)]
    fn eval_block_statement(&mut self, stmts: &Vec<Statement>, fuel: u64) -> (r: Object)
        requires
            old(self).envm().wf(),
        ensures
            sp_evolves(*old(self), *final(self)),
            stmts@.len() == 0 ==> r == Object::Empty && *final(self) == *old(self),
            sp_all_literal_stmts(stmts@) && stmts@.len() > 0 ==> r == sp_stmt_literal_value(
                stmts@.last(),
            ).unwrap() && *final(self) == *old(self),
        decreases fuel, stmts@, 2int,
    {
        let mut result = Object::Empty;
        let mut i: usize = 0;
        while i < stmts.len()
            invariant
                i <= stmts.len(),
                self.envm().wf(),
                sp_evolves(*old(self), *self),
                sp_all_literal_stmts(stmts@) ==> *self == *old(self) && (i == 0 ==> result
                    == Object::Empty) && (i > 0 ==> result == sp_stmt_literal_value(
                    stmts@[i - 1],
                ).unwrap()),
            decreases stmts@.len() - i,
        {
            let ghost pre = *self;
            let v = self.eval_statement(&stmts[i], fuel);
            proof {
                lemma_prefix_trans(old(self).outm(), pre.outm(), self.outm());
            }
            match v {
                Object::Return(x) => {
                    return Object::Return(x);
                },
                Object::Error(m) => {
                    return Object::Error(m);
                },
                Object::Empty => {},
                other => {
                    result = other;
                },
            }
            i = i + 1;
        }
        result
    }

    /// Evaluates one expression. Literal integers, booleans and strings
    /// yield their values directly; identifiers resolve through the
    /// environment and then the built-in table; the composite forms are
    /// evaluated by the dedicated methods.
    fn eval_expression(&mut self, e: &Expression, fuel: u64) -> (r: Object)
        requires
            old(self).envm().wf(),
        ensures
            sp_evolves(*old(self), *final(self)),
            sp_expr_pinned(*old(self), *final(self), *e, r),
            match *e {
                Expression::FunctionCall { ref function, ref arguments, .. } => match &**function {
                    Expression::FunctionLiteral { ref parameters, ref body, .. } => (fuel > 0
                        && sp_int_literal_values(arguments@) is Some && parameters@.len()
                        == arguments@.len() && sp_all_literal_stmts((**body)@)) ==> r == (if (
                    **body)@.len() == 0 {
                        Object::Empty
                    } else {
                        sp_stmt_literal_value((**body)@.last()).unwrap()
                    }),
                    _ => true,
                },
                _ => true,
            },
        decreases fuel, *e, 1int,
    {
        match e {
            Expression::Literal(l) => self.eval_literal(l, fuel),
            Expression::Identifier(id) => self.eval_identifier(id),
            Expression::Prefix { .. } => self.eval_prefix_expression(e, fuel),
            Expression::Infix { .. } => self.eval_infix_expression(e, fuel),
            Expression::If { .. } => self.eval_if_expression(e, fuel),
            Expression::FunctionLiteral { parameters, body, .. } => Object::Function {
                parameters: rc_clone(parameters),
                body: rc_clone(body),
                env: self.env.current_scope(),
            },
            Expression::FunctionCall { .. } => self.eval_function_call(e, fuel),
            Expression::IndexExpression { .. } => self.eval_index_expression(e, fuel),
            Expression::DotNotation { .. } => self.eval_dot_notation(e, fuel),
        }
    }

    /// Resolves an identifier: the environment first, then the built-in
    /// table, then an error naming the identifier.
    fn eval_identifier(&mut self, id: &crate::ast::Identifier) -> (r: Object)
        requires
            old(self).envm().wf(),
        ensures
            *final(self) == *old(self),
            sp_evolves(*old(self), *final(self)),
            match sp_lookup(
                old(self).envm().bindings_model(),
                old(self).envm().parents_model(),
                old(self).envm().cur(),
                id.value@,
            ) {
                Some(v) => r == v,
                None => match sp_builtin_named(id.value@) {
                    Some(b) => r == Object::BuiltinFunction(b),
                    None => sp_err_msg(r, "Identifier not found (eval_identifier): "@ + id.value@),
                },
            },
    {
        match self.env.get(id.value.as_str()) {
            Some(v) => v,
            None => {
                match builtin_named(&id.value) {
                    Some(b) => Object::BuiltinFunction(b),
                    None => {
                        let mut msg = String::from_str("Identifier not found (eval_identifier): ");
                        msg.append(id.value.as_str());
                        Object::Error(msg)
                    },
                }
            },
        }
    }

    /// Evaluates a literal; arrays and hashes evaluate their parts
    /// eagerly, left to right, and a hash key that is not a string is a
    /// fatal error.
    #[verifier::loop_isolation(false)]
    fn eval_literal(&mut self, l: &Literal, fuel: u64) -> (r: Object)
        requires
            old(self).envm().wf(),
        ensures
            sp_evolves(*old(self), *final(self)),
            match *l {
                Literal::Integer(v) => r == Object::Integer(v) && *final(self) == *old(self),
                Literal::Boolean(b) => r == Object::Boolean(b) && *final(self) == *old(self),
                Literal::String(ref s) => r == Object::String(*s) && *final(self) == *old(self),
                Literal::Array(ref es) => match sp_int_literal_values(es@) {
                    Some(vals) => match r {
                        Object::Array(rs) => rs@ == vals,
                        _ => false,
                    },
                    None => true,
                },
                Literal::Hash(ref ps) => match sp_literal_pairs(ps@) {
                    Some(vals) => match r {
                        Object::Hash(rs) => rs@ == vals,
                        _ => false,
                    },
                    None => true,
                },
            },
        decreases fuel, *l, 0int,
    {
        match l {
            Literal::Integer(v) => Object::Integer(*v),
            Literal::Boolean(b) => Object::Boolean(*b),
            Literal::String(s) => Object::String(s.clone()),
            Literal::Array(es) => {
                let mut out: Vec<Object> = Vec::new();
                let mut i: usize = 0;
                while i < es.len()
                    invariant
                        i <= es.len(),
                        self.envm().wf(),
                        sp_evolves(*old(self), *self),
                        match sp_int_literal_values(es@.subrange(0, i as int)) {
                            Some(pre) => out@ == pre,
                            None => sp_int_literal_values(es@) is None,
                        },
                    decreases es@.len() - i,
                {
                    let ghost pre = *self;
                    let ghost prefix = es@.subrange(0, i as int);
                    let v = self.eval_expression(&es[i], fuel);
                    proof {
                        lemma_prefix_trans(old(self).outm(), pre.outm(), self.outm());
                        assert(es@.subrange(0, i + 1 as int).drop_last() =~= prefix);
                        assert(es@.subrange(0, i + 1 as int).last() == es@[i as int]);
                        if sp_int_literal_values(es@) is Some {
                            lemma_int_values_of_prefix(es@, i as int);
                            lemma_int_values_of_prefix(es@, i + 1 as int);
                            lemma_int_literal_values(es@);
                        }
                    }
                    match v {
                        Object::Error(m) => {
                            proof {
                                if sp_int_literal_values(es@) is Some {
                                    lemma_int_literal_values(es@);
                                    assert(sp_as_int(es@[i as int]) is Some);
                                    assert(false);
                                }
                            }
                            return Object::Error(m);
                        },
                        other => {
                            out.push(other);
                        },
                    }
                    i = i + 1;
                }
                proof {
                    assert(es@.subrange(0, es@.len() as int) =~= es@);
                }
                Object::Array(Rc::new(out))
            },
            Literal::Hash(ps) => {
                let mut out: Vec<(Object, Object)> = Vec::new();
                let mut i: usize = 0;
                while i < ps.len()
                    invariant
                        i <= ps.len(),
                        self.envm().wf(),
                        sp_evolves(*old(self), *self),
                        match sp_literal_pairs(ps@.subrange(0, i as int)) {
                            Some(pre) => out@ == pre,
                            None => sp_literal_pairs(ps@) is None,
                        },
                    decreases ps@.len() - i,
                {
                    let ghost pre = *self;
                    let ghost prefix = ps@.subrange(0, i as int);
                    let k = self.eval_expression(&ps[i].0, fuel);
                    proof {
                        lemma_prefix_trans(old(self).outm(), pre.outm(), self.outm());
                        assert(ps@.subrange(0, i + 1 as int).drop_last() =~= prefix);
                        assert(ps@.subrange(0, i + 1 as int).last() == ps@[i as int]);
                        if sp_literal_pairs(ps@) is Some {
                            lemma_literal_pairs_of_prefix(ps@, i as int);
                            lemma_literal_pairs_of_prefix(ps@, i + 1 as int);
                            lemma_literal_pairs(ps@);
                        }
                    }
                    let key = match k {
                        Object::Error(m) => {
                            proof {
                                if sp_literal_pairs(ps@) is Some {
                                    lemma_literal_pairs(ps@);
                                    assert(false);
                                }
                            }
                            return Object::Error(m);
                        },
                        Object::String(s) => Object::String(s),
                        _ => {
                            proof {
                                if sp_literal_pairs(ps@) is Some {
                                    lemma_literal_pairs(ps@);
                                    assert(false);
                                }
                            }
                            return self.new_error("Hash keys must be strings");
                        },
                    };
                    let ghost pre2 = *self;
                    let v = self.eval_expression(&ps[i].1, fuel);
                    proof {
                        lemma_prefix_trans(old(self).outm(), pre2.outm(), self.outm());
                    }
                    match v {
                        Object::Error(m) => {
                            proof {
                                if sp_literal_pairs(ps@) is Some {
                                    lemma_literal_pairs(ps@);
                                    assert(false);
                                }
                            }
                            return Object::Error(m);
                        },
                        other => {
                            out.push((key, other));
                        },
                    }
                    i = i + 1;
                }
                proof {
                    assert(ps@.subrange(0, ps@.len() as int) =~= ps@);
                }
                Object::Hash(Rc::new(out))
            },
        }
    }

    /// Evaluates a prefix expression: `!` negates a boolean, `-` negates
    /// an integer (wrapping at the minimum); any other operand type is a
    /// fatal error, and an `Error` operand passes through.
    fn eval_prefix_expression(&mut self, e: &Expression, fuel: u64) -> (r: Object)
        requires
            old(self).envm().wf(),
            e is Prefix,
        ensures
            sp_evolves(*old(self), *final(self)),
            match sp_as_int(*e) {
                Some(v) => r == Object::Integer(v) && *final(self) == *old(self),
                None => true,
            },
            match *e {
                Expression::Prefix { ref operator, ref right, .. } => match sp_literal_value(
                    **right,
                ) {
                    Some(v) => {
                        &&& (operator@ == "!"@ ==> (match v {
                            Object::Boolean(b) => r == Object::Boolean(!b),
                            _ => sp_err_msg(r, "Use ! prefix operator on booleans!"@),
                        }))
                        &&& (operator@ == "-"@ ==> (match v {
                            Object::Integer(n) => r == Object::Integer(
                                vstd::wrapping::i64_specs::wrapping_sub(0, n),
                            ),
                            _ => sp_err_msg(r, "Use - prefix operator on integers or floats"@),
                        }))
                    },
                    None => true,
                },
                _ => true,
            },
        decreases fuel, *e, 0int,
    {
        proof {
            reveal_strlit("!");
            reveal_strlit("-");
            assert("!"@[0] == '!');
            assert("-"@[0] == '-');
            assert("!"@ != "-"@);
        }
        match e {
            Expression::Prefix { operator, right, .. } => {
                let v = self.eval_expression(right, fuel);
                if let Object::Error(m) = v {
                    return Object::Error(m);
                }
                if str_eq(operator.as_str(), "!") {
                    eval_bang_prefix(v)
                } else if str_eq(operator.as_str(), "-") {
                    eval_minus_prefix(v)
                } else {
                    self.new_error("Invalid prefix operator")
                }
            },
            _ => Object::Empty,
        }
    }

    /// Evaluates an infix expression: both operands left to right, then
    /// dispatch on the pair of operand types; mixed or unsupported
    /// pairings are fatal errors, and an `Error` operand passes through.
    fn eval_infix_expression(&mut self, e: &Expression, fuel: u64) -> (r: Object)
        requires
            old(self).envm().wf(),
            e is Infix,
        ensures
            sp_evolves(*old(self), *final(self)),
            match sp_as_int(*e) {
                Some(v) => r == Object::Integer(v) && *final(self) == *old(self),
                None => true,
            },
            match *e {
                Expression::Infix { ref left, ref operator, ref right, .. } => match (
                    sp_as_int(**left),
                    sp_as_int(**right),
                ) {
                    (Some(a), Some(b)) => sp_int_infix(a, operator@, b, r),
                    _ => match (&**left, &**right) {
                        (
                            Expression::Literal(Literal::Boolean(a)),
                            Expression::Literal(Literal::Boolean(b)),
                        ) => sp_bool_infix(*a, operator@, *b, r),
                        (
                            Expression::Literal(Literal::String(ref a)),
                            Expression::Literal(Literal::String(ref b)),
                        ) => sp_string_infix(a@, operator@, b@, r),
                        _ => true,
                    },
                },
                _ => true,
            },
        decreases fuel, *e, 0int,
    {
        match e {
            Expression::Infix { left, operator, right, .. } => {
                let ghost pre = *self;
                let l = self.eval_expression(left, fuel);
                if let Object::Error(m) = l {
                    return Object::Error(m);
                }
                let ghost pre2 = *self;
                let rv = self.eval_expression(right, fuel);
                proof {
                    lemma_prefix_trans(old(self).outm(), pre2.outm(), self.outm());
                }
                if let Object::Error(m) = rv {
                    return Object::Error(m);
                }
                match (l, rv) {
                    (Object::Integer(a), Object::Integer(b)) => eval_integer_infix_expression(
                        a,
                        operator,
                        b,
                    ),
                    (Object::Boolean(a), Object::Boolean(b)) => eval_boolean_infix_expression(
                        a,
                        operator,
                        b,
                    ),
                    (Object::String(a), Object::String(b)) => eval_string_infix_expression(
                        &a,
                        operator,
                        &b,
                    ),
                    _ => self.new_error("Use infix operators on integers"),
                }
            },
            _ => Object::Empty,
        }
    }

    /// Evaluates an if-expression: the condition must be a boolean; the
    /// chosen block's value is the whole expression's value, and a
    /// missing alternative yields `Null`.
    fn eval_if_expression(&mut self, e: &Expression, fuel: u64) -> (r: Object)
        requires
            old(self).envm().wf(),
            e is If,
        ensures
            sp_evolves(*old(self), *final(self)),
            match *e {
                Expression::If { ref condition, ref consequence, ref alternative, .. } => match **condition {
                    Expression::Literal(Literal::Boolean(b)) => {
                        let blk = if b {
                            (**consequence)@
                        } else {
                            match *alternative {
                                Some(ref alt) => (**alt)@,
                                None => Seq::empty(),
                            }
                        };
                        &&& (!b && alternative is None ==> r == Object::Null && *final(self)
                            == *old(self))
                        &&& ((b || alternative is Some) && blk.len() == 0 ==> r == Object::Empty
                            && *final(self) == *old(self))
                        &&& ((b || alternative is Some) && blk.len() > 0 && sp_all_literal_stmts(
                            blk,
                        ) ==> r == sp_stmt_literal_value(blk.last()).unwrap() && *final(self)
                            == *old(self))
                    },
                    _ => true,
                },
                _ => true,
            },
        decreases fuel, *e, 0int,
    {
        match e {
            Expression::If { condition, consequence, alternative, .. } => {
                let ghost pre = *self;
                let c = self.eval_expression(condition, fuel);
                match c {
                    Object::Error(m) => Object::Error(m),
                    Object::Boolean(b) => {
                        let ghost pre2 = *self;
                        let r = if b {
                            self.eval_block_statement(consequence, fuel)
                        } else {
                            match alternative {
                                Some(alt) => self.eval_block_statement(alt, fuel),
                                None => Object::Null,
                            }
                        };
                        proof {
                            lemma_prefix_trans(old(self).outm(), pre2.outm(), self.outm());
                        }
                        r
                    },
                    _ => self.new_error("Use if conditionals on booleans"),
                }
            },
            _ => Object::Empty,
        }
    }

    /// Evaluates each argument expression in order, in the caller's
    /// environment; the first `Error` aborts the list.
    #[verifier::loop_isolation(false)]
    fn eval_expressions(&mut self, es: &Vec<Expression>, fuel: u64) -> (r: Result<
        Vec<Object>,
        Object,
    >)
        requires
            old(self).envm().wf(),
        ensures
            sp_evolves(*old(self), *final(self)),
            r is Ok ==> r.unwrap()@.len() == es@.len(),
            match sp_int_literal_values(es@) {
                Some(vals) => r matches Ok(out) && out@ == vals,
                None => true,
            },
        decreases fuel, es@, 0int,
    {
        let mut out: Vec<Object> = Vec::new();
        let mut i: usize = 0;
        while i < es.len()
            invariant
                i <= es.len(),
                out@.len() == i,
                self.envm().wf(),
                sp_evolves(*old(self), *self),
                match sp_int_literal_values(es@.subrange(0, i as int)) {
                    Some(pre) => out@ == pre,
                    None => sp_int_literal_values(es@) is None,
                },
            decreases es@.len() - i,
        {
            let ghost pre = *self;
            let ghost prefix = es@.subrange(0, i as int);
            let v = self.eval_expression(&es[i], fuel);
            proof {
                lemma_prefix_trans(old(self).outm(), pre.outm(), self.outm());
                assert(es@.subrange(0, i + 1 as int).drop_last() =~= prefix);
                assert(es@.subrange(0, i + 1 as int).last() == es@[i as int]);
                if sp_int_literal_values(es@) is Some {
                    lemma_int_values_of_prefix(es@, i as int);
                    lemma_int_values_of_prefix(es@, i + 1 as int);
                    lemma_int_literal_values(es@);
                }
            }
            match v {
                Object::Error(m) => {
                    proof {
                        if sp_int_literal_values(es@) is Some {
                            lemma_int_literal_values(es@);
                            assert(sp_as_int(es@[i as int]) is Some);
                            assert(false);
                        }
                    }
                    return Err(Object::Error(m));
                },
                other => {
                    out.push(other);
                },
            }
            i = i + 1;
        }
        proof {
            assert(es@.subrange(0, es@.len() as int) =~= es@);
        }
        Ok(out)
    }

    /// Evaluates a call: the callee must be a function or a built-in.
    /// For a function, the argument count must equal the parameter
    /// count; the parameters are bound in a fresh scope whose parent is
    /// the function's captured scope, the body runs there, and a
    /// `Return` from the body unwraps to the call's value. Deeper
    /// nesting than [`MAX_CALL_DEPTH`] is stopped with an error.
    #[verifier::loop_isolation(false)]
    fn eval_function_call(&mut self, e: &Expression, fuel: u64) -> (r: Object)
        requires
            old(self).envm().wf(),
            e is FunctionCall,
        ensures
            sp_evolves(*old(self), *final(self)),
            match *e {
                Expression::FunctionCall { ref function, ref arguments, .. } => match &**function {
                    Expression::Identifier(ref id) => match sp_lookup(
                        old(self).envm().bindings_model(),
                        old(self).envm().parents_model(),
                        old(self).envm().cur(),
                        id.value@,
                    ) {
                        None => match sp_builtin_named(id.value@) {
                            Some(b) => match sp_int_literal_values(arguments@) {
                                Some(vals) => match b {
                                    Builtin::Len => sp_len_result(vals, r),
                                    Builtin::First => sp_first_result(vals, r),
                                    Builtin::Push => sp_push_result(vals, r),
                                    Builtin::Pop => sp_pop_result(vals, r),
                                    Builtin::Print | Builtin::Println => r == Object::Empty,
                                    Builtin::Fprintln => true,
                                },
                                None => true,
                            },
                            None => true,
                        },
                        _ => true,
                    },
                    Expression::FunctionLiteral { ref parameters, ref body, .. } => {
                        &&& ((sp_int_literal_values(arguments@) is Some && parameters@.len()
                            != arguments@.len()) ==> sp_err_msg(
                            r,
                            "Wrong number of arguments. Expected "@ + crate::ast::sp_dec_digits(
                                parameters@.len(),
                            ) + ", got "@ + crate::ast::sp_dec_digits(arguments@.len()),
                        ))
                        &&& ((fuel > 0 && sp_int_literal_values(arguments@) is Some
                            && parameters@.len() == arguments@.len() && sp_all_literal_stmts(
                            (**body)@,
                        )) ==> r == (if (**body)@.len() == 0 {
                            Object::Empty
                        } else {
                            sp_stmt_literal_value((**body)@.last()).unwrap()
                        }))
                    },
                    _ => true,
                },
                _ => true,
            },
        decreases fuel, *e, 0int,
    {
        match e {
            Expression::FunctionCall { function, arguments, .. } => {
                let ghost pre0 = *self;
                let fobj = self.eval_expression(function, fuel);
                if let Object::Error(m) = fobj {
                    return Object::Error(m);
                }
                let ghost pre1 = *self;
                let args = match self.eval_expressions(arguments, fuel) {
                    Ok(v) => v,
                    Err(err) => {
                        proof {
                            lemma_prefix_trans(old(self).outm(), pre1.outm(), self.outm());
                        }
                        return err;
                    },
                };
                proof {
                    lemma_prefix_trans(old(self).outm(), pre1.outm(), self.outm());
                }
                match fobj {
                    Object::Function { parameters, body, env: captured } => {
                        if args.len() != parameters.len() {
                            let mut msg = String::from_str(
                                "Wrong number of arguments. Expected ",
                            );
                            crate::ast::push_dec_u64(&mut msg, parameters.len() as u64);
                            msg.append(", got ");
                            crate::ast::push_dec_u64(&mut msg, args.len() as u64);
                            return Object::Error(msg);
                        }
                        if fuel == 0 {
                            return self.new_error("Maximum recursion depth exceeded");
                        }
                        let saved = self.env.current_scope();
                        let child = self.env.extend(captured);
                        self.env.switch_to(child);
                        let mut i: usize = 0;
                        while i < parameters.len()
                            invariant
                                i <= parameters@.len(),
                                args@.len() == parameters@.len(),
                                self.envm().wf(),
                                saved < self.envm().scope_count(),
                                saved == old(self).envm().cur(),
                                self.envm().scope_count() >= old(self).envm().scope_count(),
                                old(self).outm().is_prefix_of(self.outm()),
                            decreases parameters@.len() - i,
                        {
                            self.env.set(parameters[i].value.as_str(), args[i].duplicate());
                            i = i + 1;
                        }
                        let ghost pre2 = *self;
                        let result = self.eval_block_statement(&body, fuel - 1);
                        proof {
                            lemma_prefix_trans(old(self).outm(), pre2.outm(), self.outm());
                        }
                        self.env.switch_to(saved);
                        match result {
                            Object::Return(x) => (*x).duplicate(),
                            other => other,
                        }
                    },
                    Object::BuiltinFunction(b) => {
                        let ghost pre2 = *self;
                        let r = apply_builtin(b, &args, &mut self.output);
                        proof {
                            assert(pre2.outm().is_prefix_of(self.outm()));
                            lemma_prefix_trans(old(self).outm(), pre2.outm(), self.outm());
                        }
                        r
                    },
                    other => {
                        let mut msg = String::from_str("Not a function: ");
                        push_obj(&mut msg, &other);
                        Object::Error(msg)
                    },
                }
            },
            _ => Object::Empty,
        }
    }

    /// Evaluates an index expression: arrays and strings by integer
    /// (negative counts from the end, out of range is `Null`), hashes by
    /// string key (`Null` when absent); any other pairing is a fatal
    /// error.
    fn eval_index_expression(&mut self, e: &Expression, fuel: u64) -> (r: Object)
        requires
            old(self).envm().wf(),
            e is IndexExpression,
        ensures
            sp_evolves(*old(self), *final(self)),
            match *e {
                Expression::IndexExpression { ref left, ref index, .. } => match (
                    &**left,
                    sp_as_int(**index),
                ) {
                    (Expression::Literal(Literal::Array(ref es)), Some(ix)) => match
                        sp_int_literal_values(es@) {
                        Some(vals) => r == sp_array_index(vals, ix as int),
                        None => true,
                    },
                    (Expression::Literal(Literal::String(ref s)), Some(ix)) => sp_string_index(
                        s@,
                        ix as int,
                        r,
                    ),
                    _ => true,
                },
                _ => true,
            },
        decreases fuel, *e, 0int,
    {
        match e {
            Expression::IndexExpression { left, index, .. } => {
                let l = self.eval_expression(left, fuel);
                if let Object::Error(m) = l {
                    return Object::Error(m);
                }
                let ghost pre = *self;
                let ix = self.eval_expression(index, fuel);
                proof {
                    lemma_prefix_trans(old(self).outm(), pre.outm(), self.outm());
                }
                if let Object::Error(m) = ix {
                    return Object::Error(m);
                }
                match (l, ix) {
                    (Object::Array(es), Object::Integer(i)) => array_index(&es, i),
                    (Object::String(s), Object::Integer(i)) => string_index(s.as_str(), i),
                    (Object::Hash(ps), Object::String(k)) => hash_index(&ps, k.as_str()),
                    _ => self.new_error("Use index expression on arrays or strings"),
                }
            },
            _ => Object::Empty,
        }
    }

    /// Evaluates dot-notation: on a hash, the right operand's display
    /// form is the key to look up; on a string, the right operand names
    /// one of the fixed string properties; anything else is a fatal
    /// error.
    fn eval_dot_notation(&mut self, e: &Expression, fuel: u64) -> (r: Object)
        requires
            old(self).envm().wf(),
            e is DotNotation,
        ensures
            sp_evolves(*old(self), *final(self)),
            match *e {
                Expression::DotNotation { ref left, ref right, .. } => match &**left {
                    Expression::Identifier(ref id) => match sp_lookup(
                        old(self).envm().bindings_model(),
                        old(self).envm().parents_model(),
                        old(self).envm().cur(),
                        id.value@,
                    ) {
                        Some(Object::Hash(ps)) => r == sp_hash_lookup(
                            ps@,
                            crate::ast::sp_display_expr(**right),
                        ),
                        Some(Object::String(s)) => match &**right {
                            Expression::Identifier(ref prop) => sp_dot_property(
                                s@,
                                prop.value@,
                                r,
                            ),
                            _ => true,
                        },
                        _ => true,
                    },
                    _ => true,
                },
                _ => true,
            },
        decreases fuel, *e, 0int,
    {
        match e {
            Expression::DotNotation { left, right, .. } => {
                let l = self.eval_expression(left, fuel);
                match l {
                    Object::Error(m) => Object::Error(m),
                    Object::Hash(ps) => {
                        let key = right.to_display_string();
                        hash_index(&ps, key.as_str())
                    },
                    Object::String(s) => {
                        let name: String = match &**right {
                            Expression::Identifier(id) => id.value.clone(),
                            Expression::FunctionCall { token, .. } => token.literal.clone(),
                            _ => {
                                return self.new_error("Use dot notation on strings");
                            },
                        };
                        match dot_str_builtins(s.as_str(), DotBuiltinKind::Property(name)) {
                            Some(o) => o,
                            None => Object::Null,
                        }
                    },
                    _ => self.new_error("Use dot notation properly"),
                }
            },
            _ => Object::Empty,
        }
    }
}

/// The `!` prefix operator: boolean negation; decides [`sp_bang`].
pub fn eval_bang_prefix(v: Object) -> (r: Object)
    ensures
        match v {
            Object::Boolean(b) => r == Object::Boolean(!b),
            _ => sp_err_msg(r, "Use ! prefix operator on booleans!"@),
        },
{
    match v {
        Object::Boolean(b) => Object::Boolean(!b),
        _ => Object::Error(String::from_str("Use ! prefix operator on booleans!")),
    }
}

/// The `-` prefix operator: integer negation, wrapping at the minimum.
pub fn eval_minus_prefix(v: Object) -> (r: Object)
    ensures
        match v {
            Object::Integer(n) => r == Object::Integer(
                vstd::wrapping::i64_specs::wrapping_sub(0, n),
            ),
            _ => sp_err_msg(r, "Use - prefix operator on integers or floats"@),
        },
{
    match v {
        Object::Integer(n) => Object::Integer((0 as i64).wrapping_sub(n)),
        _ => Object::Error(String::from_str("Use - prefix operator on integers or floats")),
    }
}

/// Integer-integer infix dispatch; decides [`sp_int_infix`].
pub fn eval_integer_infix_expression(left: i64, operator: &String, right: i64) -> (r: Object)
    ensures
        sp_int_infix(left, operator@, right, r),
{
    if str_eq(operator.as_str(), "+") {
        Object::Integer(left.wrapping_add(right))
    } else if str_eq(operator.as_str(), "-") {
        Object::Integer(left.wrapping_sub(right))
    } else if str_eq(operator.as_str(), "*") {
        Object::Integer(left.wrapping_mul(right))
    } else if str_eq(operator.as_str(), "/") {
        if right == 0 {
            Object::Error(String::from_str("Division by zero"))
        } else {
            match left.checked_div(right) {
                Some(q) => Object::Integer(q),
                None => Object::Integer(i64::MIN),
            }
        }
    } else if str_eq(operator.as_str(), "<") {
        Object::Boolean(left < right)
    } else if str_eq(operator.as_str(), ">") {
        Object::Boolean(left > right)
    } else if str_eq(operator.as_str(), "==") {
        Object::Boolean(left == right)
    } else if str_eq(operator.as_str(), "!=") {
        Object::Boolean(left != right)
    } else {
        let mut msg = String::from_str("Invalid operator: ");
        msg.append(operator.as_str());
        Object::Error(msg)
    }
}

/// Boolean-boolean infix dispatch; decides [`sp_bool_infix`].
pub fn eval_boolean_infix_expression(left: bool, operator: &String, right: bool) -> (r: Object)
    ensures
        sp_bool_infix(left, operator@, right, r),
{
    if str_eq(operator.as_str(), "==") {
        Object::Boolean(left == right)
    } else if str_eq(operator.as_str(), "!=") {
        Object::Boolean(left != right)
    } else {
        let mut msg = String::from_str("Invalid operator: ");
        msg.append(operator.as_str());
        Object::Error(msg)
    }
}

/// String-string infix dispatch; decides [`sp_string_infix`].
pub fn eval_string_infix_expression(left: &String, operator: &String, right: &String) -> (r:
    Object)
    ensures
        sp_string_infix(left@, operator@, right@, r),
{
    if str_eq(operator.as_str(), "+") {
        let mut s = left.clone();
        s.append(right.as_str());
        Object::String(s)
    } else if str_eq(operator.as_str(), "==") {
        Object::Boolean(str_eq(left.as_str(), right.as_str()))
    } else if str_eq(operator.as_str(), "!=") {
        Object::Boolean(!str_eq(left.as_str(), right.as_str()))
    } else {
        let mut msg = String::from_str("Invalid operator: ");
        msg.append(operator.as_str());
        Object::Error(msg)
    }
}

/// Array indexing; decides [`sp_array_index`].
pub fn array_index(es: &Vec<Object>, idx: i64) -> (r: Object)
    ensures
        r == sp_array_index(es@, idx as int),
{
    if idx >= 0 {
        let u = idx as u64;
        if u < es.len() as u64 {
            es[u as usize].duplicate()
        } else {
            Object::Null
        }
    } else {
        let mag: u64 = ((-(idx + 1)) as u64) + 1;
        if mag <= es.len() as u64 {
            let j: usize = (es.len() as u64 - mag) as usize;
            es[j].duplicate()
        } else {
            Object::Null
        }
    }
}

/// String indexing over characters; decides [`sp_string_index`].
pub fn string_index(s: &str, idx: i64) -> (r: Object)
    ensures
        sp_string_index(s@, idx as int, r),
{
    let n = s.unicode_len();
    let j: usize = if idx >= 0 {
        let u = idx as u64;
        if u < n as u64 {
            u as usize
        } else {
            return Object::Null;
        }
    } else {
        let mag: u64 = ((-(idx + 1)) as u64) + 1;
        if mag <= n as u64 {
            (n as u64 - mag) as usize
        } else {
            return Object::Null;
        }
    };
    let mut one = String::new();
    push_char(&mut one, s.get_char(j));
    Object::String(one)
}

/// Hash lookup by string key; decides [`sp_hash_lookup`].
#[verifier::loop_isolation(false)]
pub fn hash_index(ps: &Vec<(Object, Object)>, key: &str) -> (r: Object)
    ensures
        r == sp_hash_lookup(ps@, key@),
{
    let mut i: usize = 0;
    proof {
        assert(ps@.skip(0) =~= ps@);
    }
    while i < ps.len()
        invariant
            i <= ps.len(),
            sp_hash_lookup(ps@, key@) == sp_hash_lookup(ps@.skip(i as int), key@),
        decreases ps@.len() - i,
    {
        let hit = match &ps[i].0 {
            Object::String(k) => str_eq(k.as_str(), key),
            _ => false,
        };
        proof {
            assert(ps@.skip(i as int)[0] == ps@[i as int]);
            assert(ps@.skip(i as int).drop_first() =~= ps@.skip(i + 1 as int));
        }
        if hit {
            return ps[i].1.duplicate();
        }
        i = i + 1;
    }
    proof {
        assert(ps@.skip(ps@.len() as int) =~= Seq::<(Object, Object)>::empty());
    }
    Object::Null
}

} // verus!
