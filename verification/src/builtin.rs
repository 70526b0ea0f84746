//! The built-in functions and the string dot-properties: total functions
//! that never panic and report misuse as `Error` values.

use vstd::prelude::*;
use vstd::string::*;
use vstd::utf8::encode_utf8;

use crate::ast::sp_dec_digits;
use crate::object::{sp_display_obj, sp_kind_name, push_obj, Builtin, Object};
use crate::text::{
    char_alphabetic, char_lowercase, char_numeric, char_uppercase, is_alphabetic_char,
    is_alphanumeric_char, is_ascii_punctuation_char, is_lowercase_char, is_numeric_char,
    is_uppercase_char, is_whitespace_char, push_char, spec_ascii_punctuation, spec_whitespace,
    str_eq,
};

verus! {

/// How a dot-property on a string is being used. Only plain property
/// access exists; method-style calls are reserved.
pub enum DotBuiltinKind {
    Property(String),
}

/// `r` is the error object carrying exactly the message `msg`.
pub open spec fn sp_err_msg(r: Object, msg: Seq<char>) -> bool {
    match r {
        Object::Error(m) => m@ == msg,
        _ => false,
    }
}

/// `r` is the string object carrying exactly the characters `s`.
pub open spec fn sp_str_obj(r: Object, s: Seq<char>) -> bool {
    match r {
        Object::String(m) => m@ == s,
        _ => false,
    }
}

/// What each string dot-property yields on the string `s`; `None` for a
/// property that is answered by an `Error` object naming it.
///
/// `length` is the byte length; `chars` the characters as one-character
/// strings; `bytes` the characters as their scalar values; the `is_*`
/// predicates hold when every character satisfies the class or is
/// whitespace (`is_ascii` and `is_capitalized` aside); `is_capitalized`
/// looks at the first character and is false for the empty string.
pub open spec fn sp_dot_property(s: Seq<char>, name: Seq<char>, r: Object) -> bool {
    if name == "length"@ {
        r == Object::Integer(((encode_utf8(s).len() as usize) as i64))
    } else if name == "chars"@ {
        match r {
            Object::Array(es) => es@.len() == s.len() && forall|i: int|
                0 <= i < s.len() ==> #[trigger] sp_str_obj(es@[i], seq![s[i]]),
            _ => false,
        }
    } else if name == "bytes"@ {
        match r {
            Object::Array(es) => es@.len() == s.len() && forall|i: int|
                0 <= i < s.len() ==> es@[i] == Object::Integer(#[trigger] s[i] as i64),
            _ => false,
        }
    } else if name == "is_empty"@ {
        r == Object::Boolean(s.len() == 0)
    } else if name == "is_numeric"@ {
        r == Object::Boolean(
            forall|i: int| 0 <= i < s.len() ==> char_numeric(#[trigger] s[i]) || spec_whitespace(s[i]),
        )
    } else if name == "is_alpha"@ {
        r == Object::Boolean(
            forall|i: int|
                0 <= i < s.len() ==> char_alphabetic(#[trigger] s[i]) || spec_whitespace(s[i]),
        )
    } else if name == "is_alphanumeric"@ {
        r == Object::Boolean(
            forall|i: int|
                0 <= i < s.len() ==> char_alphabetic(#[trigger] s[i]) || char_numeric(s[i])
                    || spec_whitespace(s[i]),
        )
    } else if name == "is_ascii"@ {
        r == Object::Boolean(forall|i: int| 0 <= i < s.len() ==> (#[trigger] s[i]) < 128)
    } else if name == "is_capitalized"@ {
        r == Object::Boolean(s.len() > 0 && char_uppercase(s[0]))
    } else if name == "is_lowercase"@ {
        r == Object::Boolean(
            forall|i: int|
                0 <= i < s.len() ==> char_lowercase(#[trigger] s[i]) || spec_whitespace(s[i]),
        )
    } else if name == "is_uppercase"@ || name == "is_titlecase"@ {
        r == Object::Boolean(
            forall|i: int|
                0 <= i < s.len() ==> char_uppercase(#[trigger] s[i]) || spec_whitespace(s[i]),
        )
    } else if name == "is_whitespace"@ {
        r == Object::Boolean(forall|i: int| 0 <= i < s.len() ==> spec_whitespace(#[trigger] s[i]))
    } else if name == "is_punctuation"@ {
        r == Object::Boolean(
            forall|i: int|
                0 <= i < s.len() ==> spec_ascii_punctuation(#[trigger] s[i]) || spec_whitespace(
                    s[i],
                ),
        )
    } else {
        sp_err_msg(r, "No property named "@ + name)
    }
}

/// The characters of a string slice.
#[verifier::loop_isolation(false)]
pub fn str_chars(s: &str) -> (v: Vec<char>)
    ensures
        v@ == s@,
{
    let n = s.unicode_len();
    let mut v: Vec<char> = Vec::new();
    let mut i: usize = 0;
    while i < n
        invariant
            i <= n,
            n == s@.len(),
            v@ == s@.subrange(0, i as int),
        decreases n - i,
    {
        let c = s.get_char(i);
        v.push(c);
        proof {
            assert(s@.subrange(0, i + 1 as int) =~= s@.subrange(0, i as int).push(s@[i as int]));
        }
        i = i + 1;
    }
    proof {
        assert(s@.subrange(0, n as int) =~= s@);
    }
    v
}

/// The fixed table of string dot-properties, each a pure function of
/// the receiver string; an unknown property name yields an `Error`
/// object naming it. Decides [`sp_dot_property`].
#[verifier::loop_isolation(false)]
pub fn dot_str_builtins(string: &str, kind: DotBuiltinKind) -> (r: Option<Object>)
    ensures
        match kind {
            DotBuiltinKind::Property(name) => r is Some && sp_dot_property(
                string@,
                name@,
                r.unwrap(),
            ),
        },
{
    let DotBuiltinKind::Property(name) = kind;
    let cs = str_chars(string);
    if str_eq(name.as_str(), "length") {
        let n: usize = string.len();
        Some(Object::Integer(#[verifier::truncate] (n as i64)))
    } else if str_eq(name.as_str(), "chars") {
        let mut es: Vec<Object> = Vec::new();
        let mut i: usize = 0;
        while i < cs.len()
            invariant
                i <= cs.len(),
                cs@ == string@,
                es@.len() == i,
                forall|j: int| 0 <= j < i ==> #[trigger] sp_str_obj(es@[j], seq![string@[j]]),
            decreases cs@.len() - i,
        {
            let mut one = String::new();
            push_char(&mut one, cs[i]);
            es.push(Object::String(one));
            i = i + 1;
        }
        Some(Object::Array(std::rc::Rc::new(es)))
    } else if str_eq(name.as_str(), "bytes") {
        let mut es: Vec<Object> = Vec::new();
        let mut i: usize = 0;
        while i < cs.len()
            invariant
                i <= cs.len(),
                cs@ == string@,
                es@.len() == i,
                forall|j: int|
                    0 <= j < i ==> es@[j] == Object::Integer(#[trigger] string@[j] as i64),
            decreases cs@.len() - i,
        {
            let c = cs[i];
            es.push(Object::Integer(c as i64));
            i = i + 1;
        }
        Some(Object::Array(std::rc::Rc::new(es)))
    } else if str_eq(name.as_str(), "is_empty") {
        Some(Object::Boolean(string.is_empty()))
    } else if str_eq(name.as_str(), "is_numeric") {
        let mut ok = true;
        let mut i: usize = 0;
        while i < cs.len()
            invariant
                i <= cs.len(),
                cs@ == string@,
                ok == forall|j: int|
                    0 <= j < i ==> char_numeric(#[trigger] string@[j]) || spec_whitespace(
                        string@[j],
                    ),
            decreases cs@.len() - i,
        {
            let c = cs[i];
            if !(is_numeric_char(c) || is_whitespace_char(c)) {
                ok = false;
            }
            i = i + 1;
        }
        Some(Object::Boolean(ok))
    } else if str_eq(name.as_str(), "is_alpha") {
        let mut ok = true;
        let mut i: usize = 0;
        while i < cs.len()
            invariant
                i <= cs.len(),
                cs@ == string@,
                ok == forall|j: int|
                    0 <= j < i ==> char_alphabetic(#[trigger] string@[j]) || spec_whitespace(
                        string@[j],
                    ),
            decreases cs@.len() - i,
        {
            let c = cs[i];
            if !(is_alphabetic_char(c) || is_whitespace_char(c)) {
                ok = false;
            }
            i = i + 1;
        }
        Some(Object::Boolean(ok))
    } else if str_eq(name.as_str(), "is_alphanumeric") {
        let mut ok = true;
        let mut i: usize = 0;
        while i < cs.len()
            invariant
                i <= cs.len(),
                cs@ == string@,
                ok == forall|j: int|
                    0 <= j < i ==> char_alphabetic(#[trigger] string@[j]) || char_numeric(
                        string@[j],
                    ) || spec_whitespace(string@[j]),
            decreases cs@.len() - i,
        {
            let c = cs[i];
            if !(is_alphanumeric_char(c) || is_whitespace_char(c)) {
                ok = false;
            }
            i = i + 1;
        }
        Some(Object::Boolean(ok))
    } else if str_eq(name.as_str(), "is_ascii") {
        let mut ok = true;
        let mut i: usize = 0;
        while i < cs.len()
            invariant
                i <= cs.len(),
                cs@ == string@,
                ok == forall|j: int| 0 <= j < i ==> (#[trigger] string@[j]) < 128,
            decreases cs@.len() - i,
        {
            let c = cs[i];
            if !(c < 128 as char) {
                ok = false;
            }
            i = i + 1;
        }
        Some(Object::Boolean(ok))
    } else if str_eq(name.as_str(), "is_capitalized") {
        if cs.len() > 0 {
            Some(Object::Boolean(is_uppercase_char(cs[0])))
        } else {
            Some(Object::Boolean(false))
        }
    } else if str_eq(name.as_str(), "is_lowercase") {
        let mut ok = true;
        let mut i: usize = 0;
        while i < cs.len()
            invariant
                i <= cs.len(),
                cs@ == string@,
                ok == forall|j: int|
                    0 <= j < i ==> char_lowercase(#[trigger] string@[j]) || spec_whitespace(
                        string@[j],
                    ),
            decreases cs@.len() - i,
        {
            let c = cs[i];
            if !(is_lowercase_char(c) || is_whitespace_char(c)) {
                ok = false;
            }
            i = i + 1;
        }
        Some(Object::Boolean(ok))
    } else if str_eq(name.as_str(), "is_uppercase") || str_eq(name.as_str(), "is_titlecase") {
        let mut ok = true;
        let mut i: usize = 0;
        while i < cs.len()
            invariant
                i <= cs.len(),
                cs@ == string@,
                ok == forall|j: int|
                    0 <= j < i ==> char_uppercase(#[trigger] string@[j]) || spec_whitespace(
                        string@[j],
                    ),
            decreases cs@.len() - i,
        {
            let c = cs[i];
            if !(is_uppercase_char(c) || is_whitespace_char(c)) {
                ok = false;
            }
            i = i + 1;
        }
        Some(Object::Boolean(ok))
    } else if str_eq(name.as_str(), "is_whitespace") {
        let mut ok = true;
        let mut i: usize = 0;
        while i < cs.len()
            invariant
                i <= cs.len(),
                cs@ == string@,
                ok == forall|j: int| 0 <= j < i ==> spec_whitespace(#[trigger] string@[j]),
            decreases cs@.len() - i,
        {
            let c = cs[i];
            if !is_whitespace_char(c) {
                ok = false;
            }
            i = i + 1;
        }
        Some(Object::Boolean(ok))
    } else if str_eq(name.as_str(), "is_punctuation") {
        let mut ok = true;
        let mut i: usize = 0;
        while i < cs.len()
            invariant
                i <= cs.len(),
                cs@ == string@,
                ok == forall|j: int|
                    0 <= j < i ==> spec_ascii_punctuation(#[trigger] string@[j]) || spec_whitespace(
                        string@[j],
                    ),
            decreases cs@.len() - i,
        {
            let c = cs[i];
            if !(is_ascii_punctuation_char(c) || is_whitespace_char(c)) {
                ok = false;
            }
            i = i + 1;
        }
        Some(Object::Boolean(ok))
    } else {
        let mut m = String::from_str("No property named ");
        m.append(name.as_str());
        Some(Object::Error(m))
    }
}

/// Which built-in a name denotes, if any.
pub open spec fn sp_builtin_named(name: Seq<char>) -> Option<Builtin> {
    if name == "len"@ {
        Some(Builtin::Len)
    } else if name == "first"@ {
        Some(Builtin::First)
    } else if name == "push"@ {
        Some(Builtin::Push)
    } else if name == "pop"@ {
        Some(Builtin::Pop)
    } else if name == "print"@ {
        Some(Builtin::Print)
    } else if name == "println"@ {
        Some(Builtin::Println)
    } else if name == "fprintln"@ {
        Some(Builtin::Fprintln)
    } else {
        None
    }
}

/// Looks a name up in the fixed built-in table; decides
/// [`sp_builtin_named`].
pub fn builtin_named(name: &String) -> (r: Option<Builtin>)
    ensures
        r == sp_builtin_named(name@),
{
    if str_eq(name.as_str(), "len") {
        Some(Builtin::Len)
    } else if str_eq(name.as_str(), "first") {
        Some(Builtin::First)
    } else if str_eq(name.as_str(), "push") {
        Some(Builtin::Push)
    } else if str_eq(name.as_str(), "pop") {
        Some(Builtin::Pop)
    } else if str_eq(name.as_str(), "print") {
        Some(Builtin::Print)
    } else if str_eq(name.as_str(), "println") {
        Some(Builtin::Println)
    } else if str_eq(name.as_str(), "fprintln") {
        Some(Builtin::Fprintln)
    } else {
        None
    }
}

/// The arity error message: `Wrong number of arguments. Got N,
/// expected E`.
pub open spec fn sp_arity_msg(got: nat, expected: Seq<char>) -> Seq<char> {
    "Wrong number of arguments. Got "@ + sp_dec_digits(got) + ", expected "@ + expected
}

/// Builds the arity error object for `got` arguments.
fn arity_error(got: usize, expected: &str) -> (r: Object)
    ensures
        sp_err_msg(r, "Wrong number of arguments. Got "@ + sp_dec_digits(got as nat) + ", expected "@ + expected@),
{
    let mut m = String::from_str("Wrong number of arguments. Got ");
    crate::ast::push_dec_u64(&mut m, got as u64);
    m.append(", expected ");
    m.append(expected);
    Object::Error(m)
}

/// What `len` returns: the byte length of a string, the element count
/// of an array, and an `Error` naming the argument's type otherwise.
pub open spec fn sp_len_result(args: Seq<Object>, r: Object) -> bool {
    if args.len() != 1 {
        sp_err_msg(r, sp_arity_msg(args.len(), "1"@))
    } else {
        match args[0] {
            Object::String(s) => r == Object::Integer(((encode_utf8(s@).len() as usize) as i64)),
            Object::Array(es) => r == Object::Integer(es@.len() as i64),
            _ => sp_err_msg(r, "Argument to `len` not supported, got "@ + sp_kind_name(args[0])),
        }
    }
}

/// What `first` returns: the first element of an array or character of
/// a string, `Null` when empty, and an `Error` otherwise.
pub open spec fn sp_first_result(args: Seq<Object>, r: Object) -> bool {
    if args.len() != 1 {
        sp_err_msg(r, sp_arity_msg(args.len(), "1"@))
    } else {
        match args[0] {
            Object::Array(es) => if es@.len() > 0 {
                r == es@[0]
            } else {
                r == Object::Null
            },
            Object::String(s) => if s@.len() > 0 {
                sp_str_obj(r, seq![s@[0]])
            } else {
                r == Object::Null
            },
            _ => sp_err_msg(
                r,
                "Argument to `first` must be ARRAY, got "@ + sp_display_obj(args[0]),
            ),
        }
    }
}

/// What `push` returns: a new array with the element appended (the
/// argument array is not mutated), or an `Error`.
pub open spec fn sp_push_result(args: Seq<Object>, r: Object) -> bool {
    if args.len() != 2 {
        sp_err_msg(r, sp_arity_msg(args.len(), "2"@))
    } else {
        match args[0] {
            Object::Array(es) => match r {
                Object::Array(rs) => rs@ == es@.push(args[1]),
                _ => false,
            },
            _ => sp_err_msg(r, "Argument to `push` must be ARRAY, got "@ + sp_display_obj(args[0])),
        }
    }
}

/// What `pop` returns: a new array with the last element removed (the
/// empty array stays empty; the argument is not mutated), or an
/// `Error`.
pub open spec fn sp_pop_result(args: Seq<Object>, r: Object) -> bool {
    if args.len() != 1 {
        sp_err_msg(r, sp_arity_msg(args.len(), "1"@))
    } else {
        match args[0] {
            Object::Array(es) => match r {
                Object::Array(rs) => rs@ == if es@.len() > 0 {
                    es@.drop_last()
                } else {
                    es@
                },
                _ => false,
            },
            _ => sp_err_msg(r, "Argument to `pop` must be ARRAY, got "@ + sp_display_obj(args[0])),
        }
    }
}

/// The line `print` and `println` emit: every argument's display form,
/// each followed by one space.
pub open spec fn sp_args_spaced(args: Seq<Object>) -> Seq<char>
    decreases args,
{
    if args.len() == 0 {
        Seq::empty()
    } else {
        sp_args_spaced(args.drop_last()) + sp_display_obj(args.last()) + seq![' ']
    }
}

/// An identical copy of an object list.
#[verifier::loop_isolation(false)]
fn dup_objs(os: &Vec<Object>) -> (r: Vec<Object>)
    ensures
        r@ == os@,
{
    let mut out: Vec<Object> = Vec::new();
    let mut i: usize = 0;
    while i < os.len()
        invariant
            i <= os.len(),
            out@ == os@.subrange(0, i as int),
        decreases os@.len() - i,
    {
        out.push(os[i].duplicate());
        proof {
            assert(os@.subrange(0, i + 1 as int) =~= os@.subrange(0, i as int).push(
                os@[i as int],
            ));
        }
        i = i + 1;
    }
    proof {
        assert(os@.subrange(0, os@.len() as int) =~= os@);
    }
    out
}

/// Applies a built-in function to evaluated arguments. Lines printed by
/// `print`, `println` and `fprintln` are appended to `output`; every
/// other built-in leaves it unchanged.
pub fn apply_builtin(b: Builtin, args: &Vec<Object>, output: &mut Vec<String>) -> (r: Object)
    ensures
        match b {
            Builtin::Len => sp_len_result(args@, r) && final(output)@ == old(output)@,
            Builtin::First => sp_first_result(args@, r) && final(output)@ == old(output)@,
            Builtin::Push => sp_push_result(args@, r) && final(output)@ == old(output)@,
            Builtin::Pop => sp_pop_result(args@, r) && final(output)@ == old(output)@,
            Builtin::Print | Builtin::Println => r == Object::Empty && final(output)@.len() == old(
                output,
            )@.len() + 1 && final(output)@ == old(output)@.push(final(output)@.last())
                && final(output)@.last()@ == sp_args_spaced(args@),
            Builtin::Fprintln => final(output)@.len() >= old(output)@.len() && old(
                output,
            )@.is_prefix_of(final(output)@),
        },
{
    match b {
        Builtin::Len => builtin_len(args),
        Builtin::First => builtin_first(args),
        Builtin::Push => builtin_push(args),
        Builtin::Pop => builtin_pop(args),
        Builtin::Print => builtin_print(args, output),
        Builtin::Println => builtin_print(args, output),
        Builtin::Fprintln => builtin_fprintln(args, output),
    }
}

/// The `len` built-in; decides [`sp_len_result`].
fn builtin_len(args: &Vec<Object>) -> (r: Object)
    ensures
        sp_len_result(args@, r),
{
    if args.len() != 1 {
        return arity_error(args.len(), "1");
    }
    match &args[0] {
        Object::String(s) => {
            let n: usize = s.as_str().len();
            Object::Integer(#[verifier::truncate] (n as i64))
        },
        Object::Array(es) => {
            let n: usize = es.len();
            Object::Integer(#[verifier::truncate] (n as i64))
        },
        other => {
            let mut m = String::from_str("Argument to `len` not supported, got ");
            let kn = other.kind_name();
            m.append(kn.as_str());
            Object::Error(m)
        },
    }
}

/// The `first` built-in; decides [`sp_first_result`].
fn builtin_first(args: &Vec<Object>) -> (r: Object)
    ensures
        sp_first_result(args@, r),
{
    if args.len() != 1 {
        return arity_error(args.len(), "1");
    }
    match &args[0] {
        Object::Array(es) => {
            if es.len() > 0 {
                es[0].duplicate()
            } else {
                Object::Null
            }
        },
        Object::String(s) => {
            if s.as_str().unicode_len() > 0 {
                let mut one = String::new();
                push_char(&mut one, s.as_str().get_char(0));
                Object::String(one)
            } else {
                Object::Null
            }
        },
        other => {
            let mut m = String::from_str("Argument to `first` must be ARRAY, got ");
            push_obj(&mut m, other);
            Object::Error(m)
        },
    }
}

/// The `push` built-in; decides [`sp_push_result`].
fn builtin_push(args: &Vec<Object>) -> (r: Object)
    ensures
        sp_push_result(args@, r),
{
    if args.len() != 2 {
        return arity_error(args.len(), "2");
    }
    match &args[0] {
        Object::Array(es) => {
            let mut out = dup_objs(es);
            out.push(args[1].duplicate());
            Object::Array(std::rc::Rc::new(out))
        },
        other => {
            let mut m = String::from_str("Argument to `push` must be ARRAY, got ");
            push_obj(&mut m, other);
            Object::Error(m)
        },
    }
}

/// The `pop` built-in; decides [`sp_pop_result`].
fn builtin_pop(args: &Vec<Object>) -> (r: Object)
    ensures
        sp_pop_result(args@, r),
{
    if args.len() != 1 {
        return arity_error(args.len(), "1");
    }
    match &args[0] {
        Object::Array(es) => {
            let mut out = dup_objs(es);
            if out.len() > 0 {
                out.pop();
            }
            Object::Array(std::rc::Rc::new(out))
        },
        other => {
            let mut m = String::from_str("Argument to `pop` must be ARRAY, got ");
            push_obj(&mut m, other);
            Object::Error(m)
        },
    }
}

/// The `print`/`println` built-in: emits one line holding every
/// argument's display form, each followed by a space, and yields
/// `Empty`.
#[verifier::loop_isolation(false)]
fn builtin_print(args: &Vec<Object>, output: &mut Vec<String>) -> (r: Object)
    ensures
        r == Object::Empty,
        final(output)@.len() == old(output)@.len() + 1,
        final(output)@ == old(output)@.push(final(output)@.last()),
        final(output)@.last()@ == sp_args_spaced(args@),
{
    let mut line = String::new();
    let mut i: usize = 0;
    while i < args.len()
        invariant
            i <= args.len(),
            line@ == sp_args_spaced(args@.subrange(0, i as int)),
        decreases args@.len() - i,
    {
        push_obj(&mut line, &args[i]);
        push_char(&mut line, ' ');
        proof {
            assert(args@.subrange(0, i + 1 as int).drop_last() =~= args@.subrange(0, i as int));
            assert(args@.subrange(0, i + 1 as int).last() == args@[i as int]);
            assert(sp_args_spaced(args@.subrange(0, i as int)) + sp_display_obj(args@[i as int])
                + seq![' '] =~= (sp_args_spaced(args@.subrange(0, i as int)) + sp_display_obj(
                args@[i as int],
            )).push(' '));
        }
        i = i + 1;
    }
    proof {
        assert(args@.subrange(0, args@.len() as int) =~= args@);
    }
    output.push(line);
    Object::Empty
}

/// One step outcome of the `fprintln` format scan.
pub open spec fn sp_fprintln_scan(
    fmt: Seq<char>,
    args: Seq<Object>,
    i: int,
    argi: int,
    acc: Seq<char>,
) -> Result<Seq<char>, Seq<char>>
    decreases fmt.len() - i,
{
    if i < 0 || i >= fmt.len() {
        if argi < args.len() {
            Err("Too many arguments provided for format string"@)
        } else {
            Ok(acc)
        }
    } else if fmt[i] == '{' && i + 1 < fmt.len() && fmt[i + 1] == '}' {
        if argi < args.len() {
            sp_fprintln_scan(fmt, args, i + 2, argi + 1, acc + sp_display_obj(args[argi]))
        } else {
            Err("Not enough arguments provided for format string"@)
        }
    } else if fmt[i] == '}' {
        if i + 1 < fmt.len() && fmt[i + 1] == '}' {
            sp_fprintln_scan(fmt, args, i + 2, argi, acc.push('}'))
        } else {
            Err("Invalid format string: unmatched '}'"@)
        }
    } else {
        sp_fprintln_scan(fmt, args, i + 1, argi, acc.push(fmt[i]))
    }
}

/// What `fprintln` does: the first argument must be a string, whose
/// `{}` placeholders are replaced left to right by the display forms of
/// the remaining arguments (`}}` standing for a literal brace); the
/// argument count must match the placeholders exactly. On success the
/// line is emitted and the result is `Empty`; otherwise the result is
/// the `Error` the scan names and nothing is emitted.
#[verifier::loop_isolation(false)]
fn builtin_fprintln(args: &Vec<Object>, output: &mut Vec<String>) -> (r: Object)
    ensures
        final(output)@.len() >= old(output)@.len(),
        old(output)@.is_prefix_of(final(output)@),
        args@.len() == 0 ==> sp_err_msg(
            r,
            "fprintln requires at least one argument (format string)"@,
        ),
        args@.len() > 0 && !(args@[0] is String) ==> sp_err_msg(
            r,
            "First argument to fprintln must be a string"@,
        ),
        args@.len() > 0 && args@[0] is String ==> {
            let scan = sp_fprintln_scan(
                args@[0]->String_0@,
                args@,
                0,
                1,
                Seq::empty(),
            );
            match scan {
                Ok(line) => r == Object::Empty && final(output)@.len() == old(output)@.len() + 1
                    && final(output)@.last()@ == line,
                Err(msg) => sp_err_msg(r, msg) && final(output)@ == old(output)@,
            }
        },
{
    if args.len() == 0 {
        return Object::Error(
            String::from_str("fprintln requires at least one argument (format string)"),
        );
    }
    let fmt: Vec<char> = match &args[0] {
        Object::String(s) => str_chars(s.as_str()),
        _ => {
            return Object::Error(String::from_str("First argument to fprintln must be a string"));
        },
    };
    let ghost fmtseq = args@[0]->String_0@;
    let mut acc = String::new();
    let mut i: usize = 0;
    let mut argi: usize = 1;
    while i < fmt.len()
        invariant
            fmt@ == fmtseq,
            i <= fmt@.len(),
            1 <= argi <= args@.len(),
            sp_fprintln_scan(fmtseq, args@, 0, 1, Seq::empty()) == sp_fprintln_scan(
                fmtseq,
                args@,
                i as int,
                argi as int,
                acc@,
            ),
        decreases fmt@.len() - i,
    {
        let c = fmt[i];
        if c == '{' && i + 1 < fmt.len() && fmt[i + 1] == '}' {
            if argi < args.len() {
                push_obj(&mut acc, &args[argi]);
                i = i + 2;
                argi = argi + 1;
            } else {
                return Object::Error(
                    String::from_str("Not enough arguments provided for format string"),
                );
            }
        } else if c == '}' {
            if i + 1 < fmt.len() && fmt[i + 1] == '}' {
                push_char(&mut acc, '}');
                i = i + 2;
            } else {
                return Object::Error(String::from_str("Invalid format string: unmatched '}'"));
            }
        } else {
            push_char(&mut acc, c);
            i = i + 1;
        }
    }
    if argi < args.len() {
        return Object::Error(String::from_str("Too many arguments provided for format string"));
    }
    output.push(acc);
    Object::Empty
}

} // verus!
