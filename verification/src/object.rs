//! The runtime value model: the tagged union the evaluator produces,
//! its canonical display form, and value-semantic copying.

use std::rc::Rc;
use vstd::prelude::*;
use vstd::string::*;

use crate::ast::{
    sp_debug_block, sp_display_i64, sp_join, push_block, push_i64, BlockStatement, Identifier,
};
use crate::text::{push_char, rc_clone};

verus! {

broadcast use vstd::std_specs::vec::axiom_vec_index_decreases;

/// A built-in function's identity. Dispatch happens in the evaluator.
#[derive(Clone, Copy, Debug, PartialEq, Eq, Structural)]
pub enum Builtin {
    Len,
    First,
    Push,
    Pop,
    Print,
    Println,
    Fprintln,
}

/// A runtime value. `Return` and `Error` are control-flow signals
/// threaded through ordinary returns, not values a program constructs
/// directly. `Empty` marks a statement that produced no usable value,
/// as distinct from the language's `Null`.
///
/// Aggregates and function bodies are held behind shared handles:
/// values are immutable once built, so sharing preserves the value
/// semantics of the source language while keeping copies exact.
#[derive(Debug, PartialEq, Eq)]
pub enum Object {
    Integer(i64),
    Boolean(bool),
    Null,
    Return(Rc<Object>),
    Error(String),
    Empty,
    Function { parameters: Rc<Vec<Identifier>>, body: Rc<BlockStatement>, env: usize },
    String(String),
    BuiltinFunction(Builtin),
    Array(Rc<Vec<Object>>),
    Hash(Rc<Vec<(Object, Object)>>),
}

/// The display form of an object: integers and booleans in their
/// literal form, strings raw, `null` for `Null`, a `Return` as its
/// payload, an `Error` as its message, arrays and hashes element-wise.
pub open spec fn sp_display_obj(o: Object) -> Seq<char>
    decreases o, 1int,
{
    match o {
        Object::Integer(v) => sp_display_i64(v),
        Object::Boolean(b) => if b {
            "true"@
        } else {
            "false"@
        },
        Object::Null => "null"@,
        Object::Return(inner) => sp_display_obj(*inner),
        Object::Error(m) => m@,
        Object::Empty => Seq::empty(),
        Object::Function { parameters, body, .. } => "fn("@ + sp_params_trailing(parameters@)
            + ") {\n"@ + sp_debug_block(body@) + "\n}"@,
        Object::String(s) => s@,
        Object::BuiltinFunction(_) => "builtin function"@,
        Object::Array(es) => seq!['['] + sp_join(sp_renders_objs(es@)) + seq![']'],
        Object::Hash(ps) => seq!['{'] + sp_join(sp_renders_obj_pairs(ps@)) + seq!['}'],
    }
}

/// Parameter names each followed by a comma and a space, as the
/// function display form prints them.
pub open spec fn sp_params_trailing(ids: Seq<Identifier>) -> Seq<char>
    decreases ids.len(),
{
    if ids.len() == 0 {
        Seq::empty()
    } else {
        sp_params_trailing(ids.drop_last()) + ids.last().value@ + ", "@
    }
}

/// The renderings of an object list.
pub open spec fn sp_renders_objs(os: Seq<Object>) -> Seq<Seq<char>>
    decreases os, 0int,
{
    if os.len() == 0 {
        Seq::empty()
    } else {
        sp_renders_objs(os.drop_last()).push(sp_display_obj(os.last()))
    }
}

/// The renderings of an object pair list, each as `key: value`.
pub open spec fn sp_renders_obj_pairs(ps: Seq<(Object, Object)>) -> Seq<Seq<char>>
    decreases ps, 0int,
{
    if ps.len() == 0 {
        Seq::empty()
    } else {
        sp_renders_obj_pairs(ps.drop_last()).push(
            sp_display_obj(ps.last().0) + ": "@ + sp_display_obj(ps.last().1),
        )
    }
}

/// The name of an object's runtime type, as error messages print it.
pub open spec fn sp_kind_name(o: Object) -> Seq<char> {
    match o {
        Object::Integer(_) => "Integer"@,
        Object::Boolean(_) => "Boolean"@,
        Object::Null => "Null"@,
        Object::Return(_) => "Return"@,
        Object::Error(_) => "Error"@,
        Object::Empty => "Empty"@,
        Object::Function { .. } => "Function"@,
        Object::String(_) => "String"@,
        Object::BuiltinFunction(_) => "BuiltinFunction"@,
        Object::Array(_) => "Array"@,
        Object::Hash(_) => "Hash"@,
    }
}

impl Object {
    /// An identical copy: primitives are copied, strings cloned, and
    /// aggregates shared by handle, so the copy equals the original.
    pub fn duplicate(&self) -> (r: Object)
        ensures
            r == *self,
    {
        match self {
            Object::Integer(v) => Object::Integer(*v),
            Object::Boolean(b) => Object::Boolean(*b),
            Object::Null => Object::Null,
            Object::Return(inner) => Object::Return(rc_clone(inner)),
            Object::Error(m) => Object::Error(m.clone()),
            Object::Empty => Object::Empty,
            Object::Function { parameters, body, env } => Object::Function {
                parameters: rc_clone(parameters),
                body: rc_clone(body),
                env: *env,
            },
            Object::String(s) => Object::String(s.clone()),
            Object::BuiltinFunction(b) => Object::BuiltinFunction(*b),
            Object::Array(es) => Object::Array(rc_clone(es)),
            Object::Hash(ps) => Object::Hash(rc_clone(ps)),
        }
    }

    /// The canonical display form; decides [`sp_display_obj`].
    pub fn display_string(&self) -> (s: String)
        ensures
            s@ == sp_display_obj(*self),
    {
        let mut out = String::new();
        push_obj(&mut out, self);
        proof {
            assert(Seq::<char>::empty() + sp_display_obj(*self) =~= sp_display_obj(*self));
        }
        out
    }

    /// The name of this value's runtime type; decides [`sp_kind_name`].
    pub fn kind_name(&self) -> (s: String)
        ensures
            s@ == sp_kind_name(*self),
    {
        match self {
            Object::Integer(_) => String::from_str("Integer"),
            Object::Boolean(_) => String::from_str("Boolean"),
            Object::Null => String::from_str("Null"),
            Object::Return(_) => String::from_str("Return"),
            Object::Error(_) => String::from_str("Error"),
            Object::Empty => String::from_str("Empty"),
            Object::Function { .. } => String::from_str("Function"),
            Object::String(_) => String::from_str("String"),
            Object::BuiltinFunction(_) => String::from_str("BuiltinFunction"),
            Object::Array(_) => String::from_str("Array"),
            Object::Hash(_) => String::from_str("Hash"),
        }
    }
}

/// Appends the display form of an object.
pub fn push_obj(out: &mut String, o: &Object)
    ensures
        final(out)@ == old(out)@ + sp_display_obj(*o),
    decreases *o, 1int,
{
    match o {
        Object::Integer(v) => {
            push_i64(out, *v);
        },
        Object::Boolean(b) => {
            if *b {
                out.append("true");
            } else {
                out.append("false");
            }
        },
        Object::Null => {
            out.append("null");
        },
        Object::Return(inner) => {
            push_obj(out, inner);
        },
        Object::Error(m) => {
            out.append(m.as_str());
        },
        Object::Empty => {
            proof {
                assert(old(out)@ + Seq::<char>::empty() =~= old(out)@);
            }
        },
        Object::Function { parameters, body, .. } => {
            out.append("fn(");
            push_params_trailing(out, parameters);
            out.append(") {\n");
            push_block(out, body);
            out.append("\n}");
        },
        Object::String(s) => {
            out.append(s.as_str());
        },
        Object::BuiltinFunction(_) => {
            out.append("builtin function");
        },
        Object::Array(es) => {
            push_char(out, '[');
            push_obj_list(out, es);
            push_char(out, ']');
        },
        Object::Hash(ps) => {
            push_char(out, '{');
            push_obj_pair_list(out, ps);
            push_char(out, '}');
        },
    }
}

/// Appends the parameter names, each followed by a comma and a space.
fn push_params_trailing(out: &mut String, ids: &Vec<Identifier>)
    ensures
        final(out)@ == old(out)@ + sp_params_trailing(ids@),
{
    let mut i: usize = 0;
    while i < ids.len()
        invariant
            i <= ids.len(),
            out@ == old(out)@ + sp_params_trailing(ids@.subrange(0, i as int)),
        decreases ids@.len() - i,
    {
        out.append(ids[i].value.as_str());
        out.append(", ");
        proof {
            assert(ids@.subrange(0, i + 1 as int).drop_last() =~= ids@.subrange(0, i as int));
            assert(ids@.subrange(0, i + 1 as int).last() == ids@[i as int]);
        }
        i = i + 1;
    }
    proof {
        assert(ids@.subrange(0, ids@.len() as int) =~= ids@);
    }
}

/// Appends a comma-separated object list.
fn push_obj_list(out: &mut String, os: &Vec<Object>)
    ensures
        final(out)@ == old(out)@ + sp_join(sp_renders_objs(os@)),
    decreases os@, 0int,
{
    let mut i: usize = 0;
    while i < os.len()
        invariant
            i <= os.len(),
            out@ == old(out)@ + sp_join(sp_renders_objs(os@.subrange(0, i as int))),
        decreases os@.len() - i,
    {
        let ghost pre = os@.subrange(0, i as int);
        if i > 0 {
            out.append(", ");
        }
        push_obj(out, &os[i]);
        proof {
            assert(os@.subrange(0, i + 1 as int).drop_last() =~= pre);
            assert(os@.subrange(0, i + 1 as int).last() == os@[i as int]);
            crate::ast::lemma_join_push(sp_renders_objs(pre), sp_display_obj(os@[i as int]));
            if i == 0 {
                assert(sp_renders_objs(pre).len() == 0);
            }
        }
        i = i + 1;
    }
    proof {
        assert(os@.subrange(0, os@.len() as int) =~= os@);
    }
}

/// Appends a comma-separated `key: value` object pair list.
fn push_obj_pair_list(out: &mut String, ps: &Vec<(Object, Object)>)
    ensures
        final(out)@ == old(out)@ + sp_join(sp_renders_obj_pairs(ps@)),
    decreases ps@, 0int,
{
    let mut i: usize = 0;
    while i < ps.len()
        invariant
            i <= ps.len(),
            out@ == old(out)@ + sp_join(sp_renders_obj_pairs(ps@.subrange(0, i as int))),
        decreases ps@.len() - i,
    {
        let ghost pre = ps@.subrange(0, i as int);
        if i > 0 {
            out.append(", ");
        }
        push_obj(out, &ps[i].0);
        out.append(": ");
        push_obj(out, &ps[i].1);
        proof {
            assert(ps@.subrange(0, i + 1 as int).drop_last() =~= pre);
            assert(ps@.subrange(0, i + 1 as int).last() == ps@[i as int]);
            crate::ast::lemma_join_push(
                sp_renders_obj_pairs(pre),
                sp_display_obj(ps@[i as int].0) + ": "@ + sp_display_obj(ps@[i as int].1),
            );
            if i == 0 {
                assert(sp_renders_obj_pairs(pre).len() == 0);
            }
        }
        i = i + 1;
    }
    proof {
        assert(ps@.subrange(0, ps@.len() as int) =~= ps@);
    }
}

} // verus!
