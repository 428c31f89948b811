//! The list, atom and predicate functions of the core library.
use crate::types::environment::MalEnv;
use crate::types::error::{err, error, rv, ErrV, MalReturn, Res};
use crate::types::{dup_range, dup_vec, lemma_val, vals, Builtin, MalVal, Val};
use vstd::prelude::*;

verus! {

/// The names under which `register` binds the core functions.
pub open spec fn core_names() -> Seq<(Seq<char>, Builtin)> {
    seq![
        ("atom"@, Builtin::Atom),
        ("atom?"@, Builtin::IsAtom),
        ("concat"@, Builtin::Concat),
        ("cons"@, Builtin::Cons),
        ("count"@, Builtin::Count),
        ("deref"@, Builtin::Deref),
        ("empty?"@, Builtin::IsEmpty),
        ("first"@, Builtin::First),
        ("list"@, Builtin::List),
        ("list?"@, Builtin::IsList),
        ("macro?"@, Builtin::IsMacro),
        ("nth"@, Builtin::Nth),
        ("reset!"@, Builtin::Reset),
        ("rest"@, Builtin::Rest),
        ("swap!"@, Builtin::Swap),
        ("vec"@, Builtin::Vec),
        ("vector?"@, Builtin::IsVector),
    ]
}

/// The symbols after binding each name of `names` to its function, in order.
pub open spec fn bind_names(syms: Seq<(Seq<char>, Val)>, names: Seq<(Seq<char>, Builtin)>) -> Seq<
    (Seq<char>, Val),
>
    decreases names.len(),
{
    if names.len() == 0 {
        syms
    } else {
        bind_names(
            crate::types::map_insert(syms, names[0].0, Val::Function(names[0].1)),
            names.drop_first(),
        )
    }
}

/// Binds `name` to the built-in function `f` in frame `env`.
pub fn register_one(env: &mut MalEnv, name: &str, f: Builtin)
    ensures
        final(env).view().symbols == crate::types::map_insert(
            old(env).view().symbols,
            name@,
            Val::Function(f),
        ),
        final(env).outer == old(env).outer,
{
    env.set(name, MalVal::Function(f));
}

/// Binds the core functions in frame `env` under their names (see `core_names`).
pub fn register(env: &mut MalEnv)
    ensures
        final(env).view().symbols == bind_names(old(env).view().symbols, core_names()),
        final(env).outer == old(env).outer,
{
    let ghost s0 = env.view().symbols;
    register_one(env, "atom", Builtin::Atom);
    register_one(env, "atom?", Builtin::IsAtom);
    register_one(env, "concat", Builtin::Concat);
    register_one(env, "cons", Builtin::Cons);
    register_one(env, "count", Builtin::Count);
    register_one(env, "deref", Builtin::Deref);
    register_one(env, "empty?", Builtin::IsEmpty);
    register_one(env, "first", Builtin::First);
    register_one(env, "list", Builtin::List);
    register_one(env, "list?", Builtin::IsList);
    register_one(env, "macro?", Builtin::IsMacro);
    register_one(env, "nth", Builtin::Nth);
    register_one(env, "reset!", Builtin::Reset);
    register_one(env, "rest", Builtin::Rest);
    register_one(env, "swap!", Builtin::Swap);
    register_one(env, "vec", Builtin::Vec);
    register_one(env, "vector?", Builtin::IsVector);
    proof {
        reveal_with_fuel(bind_names, 18);
    }
}

/// `(list x ...)`: the list of the arguments.
pub open spec fn list_spec(args: Seq<Val>) -> Res {
    Ok(Val::List(args))
}

/// `(list? x)`: whether the first argument is a list.
pub open spec fn is_list_spec(args: Seq<Val>) -> Res {
    Ok(Val::Bool(args.len() > 0 && args[0] is List))
}

/// `(vector? x)`: whether the first argument is a vector.
pub open spec fn is_vector_spec(args: Seq<Val>) -> Res {
    Ok(Val::Bool(args.len() > 0 && args[0] is Vector))
}

/// `(empty? x)`: whether the first argument is an empty list or vector.
pub open spec fn is_empty_spec(args: Seq<Val>) -> Res {
    Ok(
        Val::Bool(
            args.len() > 0 && match args[0] {
                Val::List(l) => l.len() == 0,
                Val::Vector(l) => l.len() == 0,
                _ => false,
            },
        ),
    )
}

/// `(count x)`: the length of a list or vector, else 0.
pub open spec fn count_spec(args: Seq<Val>) -> Res {
    Ok(
        Val::Int(
            if args.len() > 0 {
                match args[0] {
                    Val::List(l) => l.len() as i64,
                    Val::Vector(l) => l.len() as i64,
                    _ => 0,
                }
            } else {
                0
            },
        ),
    )
}

/// `(atom? x)`: whether the first argument is an atom.
pub open spec fn is_atom_spec(args: Seq<Val>) -> Res {
    Ok(Val::Bool(args.len() > 0 && args[0] is Atom))
}

/// `(cons x seq)`: the list of `x` followed by the items of a list or vector.
pub open spec fn cons_spec(args: Seq<Val>) -> Res {
    if args.len() != 2 {
        err("cons expects two arguments"@)
    } else {
        match args[1] {
            Val::List(s) => Ok(Val::List(seq![args[0]] + s)),
            Val::Vector(s) => Ok(Val::List(seq![args[0]] + s)),
            _ => err("cons expects a list or a vector as second argument"@),
        }
    }
}

/// The items of the lists and vectors `args[i..]` after `acc`.
pub open spec fn concat_from(args: Seq<Val>, i: nat, acc: Seq<Val>) -> Res
    decreases args.len() - i,
{
    if i >= args.len() {
        Ok(Val::List(acc))
    } else {
        match args[i as int] {
            Val::List(s) => concat_from(args, i + 1, acc + s),
            Val::Vector(s) => concat_from(args, i + 1, acc + s),
            _ => err("concat expects lists as arguments"@),
        }
    }
}

/// `(concat seq ...)`: the list of the items of all arguments, which must be
/// lists or vectors.
pub open spec fn concat_spec(args: Seq<Val>) -> Res {
    concat_from(args, 0, Seq::empty())
}

/// `(vec seq)`: a vector of the items of a list; a vector as it is.
pub open spec fn vec_spec(args: Seq<Val>) -> Res {
    if args.len() != 1 {
        err("vec expects one argument"@)
    } else {
        match args[0] {
            Val::List(l) => Ok(Val::Vector(l)),
            Val::Vector(_) => Ok(args[0]),
            _ => err("vec expects a list as argument"@),
        }
    }
}

/// `(nth seq i)`: item `i` of a list or vector; `nil` for `nil`.
pub open spec fn nth_spec(args: Seq<Val>) -> Res {
    if args.len() != 2 {
        err("nth expects 2 arguments"@)
    } else {
        match args[1] {
            Val::Int(i) => match args[0] {
                Val::List(l) => if i < 0 || i >= l.len() {
                    err("index out of bounds"@)
                } else {
                    Ok(l[i as int])
                },
                Val::Vector(l) => if i < 0 || i >= l.len() {
                    err("index out of bounds"@)
                } else {
                    Ok(l[i as int])
                },
                Val::Nil => Ok(Val::Nil),
                _ => err("nth expects a list or a vector"@),
            },
            _ => err("nth expects an integer index"@),
        }
    }
}

/// `(first seq)`: the first item of a list or vector; `nil` when it is empty,
/// and for `nil`.
pub open spec fn first_spec(args: Seq<Val>) -> Res {
    if args.len() != 1 {
        err("first expects 1 arguments"@)
    } else {
        match args[0] {
            Val::List(l) => if l.len() == 0 || l[0] is Nil {
                Ok(Val::Nil)
            } else {
                Ok(l[0])
            },
            Val::Vector(l) => if l.len() == 0 || l[0] is Nil {
                Ok(Val::Nil)
            } else {
                Ok(l[0])
            },
            Val::Nil => Ok(Val::Nil),
            _ => err("first expects a list or a vector"@),
        }
    }
}

/// `(rest seq)`: the list of the items after the first; the empty list when the
/// sequence is empty or its first item is `nil`, and for `nil`.
pub open spec fn rest_spec(args: Seq<Val>) -> Res {
    if args.len() != 1 {
        err("rest expects 1 arguments"@)
    } else {
        match args[0] {
            Val::List(l) => if l.len() == 0 || l[0] is Nil {
                Ok(Val::List(Seq::empty()))
            } else {
                Ok(Val::List(l.subrange(1, l.len() as int)))
            },
            Val::Vector(l) => if l.len() == 0 || l[0] is Nil {
                Ok(Val::List(Seq::empty()))
            } else {
                Ok(Val::List(l.subrange(1, l.len() as int)))
            },
            Val::Nil => Ok(Val::List(Seq::empty())),
            _ => err("rest expects a list or a vector"@),
        }
    }
}

/// `(macro? x)`: whether the argument is a macro.
pub open spec fn is_macro_spec(args: Seq<Val>) -> Res {
    if args.len() != 1 {
        err("macro? expects one argument"@)
    } else {
        match args[0] {
            Val::Lambda { is_macro, .. } => Ok(Val::Bool(is_macro)),
            _ => Ok(Val::Bool(false)),
        }
    }
}


fn bool_val(b: bool) -> (r: MalReturn)
    ensures
        rv(r) == Ok::<Val, ErrV>(Val::Bool(b)),
{
    Ok(MalVal::Bool(b))
}

fn list_of(v: Vec<MalVal>) -> (r: MalReturn)
    ensures
        rv(r) == Ok::<Val, ErrV>(Val::List(vals(v@))),
{
    let l = MalVal::List(v);
    proof {
        lemma_val(l);
    }
    Ok(l)
}

/// `(list x ...)` (see `list_spec`).
pub fn list(args: &Vec<MalVal>) -> (r: MalReturn)
    ensures
        rv(r) == list_spec(vals(args@)),
{
    list_of(dup_vec(args))
}

/// `(list? x)` (see `is_list_spec`).
pub fn is_list(args: &Vec<MalVal>) -> (r: MalReturn)
    ensures
        rv(r) == is_list_spec(vals(args@)),
{
    bool_val(args.len() > 0 && args[0].is_list())
}

/// `(vector? x)` (see `is_vector_spec`).
pub fn is_vector(args: &Vec<MalVal>) -> (r: MalReturn)
    ensures
        rv(r) == is_vector_spec(vals(args@)),
{
    bool_val(args.len() > 0 && args[0].is_vector())
}

/// `(empty? x)` (see `is_empty_spec`).
pub fn is_empty(args: &Vec<MalVal>) -> (r: MalReturn)
    ensures
        rv(r) == is_empty_spec(vals(args@)),
{
    if args.len() == 0 {
        return bool_val(false);
    }
    proof {
        lemma_val(args@[0]);
    }
    match &args[0] {
        MalVal::List(l) => bool_val(l.len() == 0),
        MalVal::Vector(l) => bool_val(l.len() == 0),
        _ => bool_val(false),
    }
}

/// `(count x)` (see `count_spec`).
pub fn count(args: &Vec<MalVal>) -> (r: MalReturn)
    ensures
        rv(r) == count_spec(vals(args@)),
{
    if args.len() == 0 {
        return Ok(MalVal::Int(0));
    }
    proof {
        lemma_val(args@[0]);
    }
    match &args[0] {
        MalVal::List(l) => Ok(MalVal::Int(l.len() as i64)),
        MalVal::Vector(l) => Ok(MalVal::Int(l.len() as i64)),
        _ => Ok(MalVal::Int(0)),
    }
}

/// `(atom? x)` (see `is_atom_spec`).
pub fn is_atom(args: &Vec<MalVal>) -> (r: MalReturn)
    ensures
        rv(r) == is_atom_spec(vals(args@)),
{
    bool_val(args.len() > 0 && matches!(&args[0], MalVal::Atom(_)))
}

/// `(cons x seq)` (see `cons_spec`).
pub fn cons(args: &Vec<MalVal>) -> (r: MalReturn)
    ensures
        rv(r) == cons_spec(vals(args@)),
{
    if args.len() != 2 {
        return Err(error("cons expects two arguments"));
    }
    proof {
        lemma_val(args@[1]);
    }
    let seq = match &args[1] {
        MalVal::List(s) => s,
        MalVal::Vector(s) => s,
        _ => return Err(error("cons expects a list or a vector as second argument")),
    };
    let mut out: Vec<MalVal> = Vec::new();
    out.push(args[0].dup());
    let rest = dup_vec(seq);
    let ghost a = vals(out@);
    let mut rest = rest;
    out.append(&mut rest);
    assert(vals(out@) =~= seq![vals(args@)[0]] + vals(seq@));
    list_of(out)
}

/// `(concat seq ...)` (see `concat_spec`).
pub fn concat(args: &Vec<MalVal>) -> (r: MalReturn)
    ensures
        rv(r) == concat_spec(vals(args@)),
{
    let mut out: Vec<MalVal> = Vec::new();
    let mut i: usize = 0;
    assert(vals(out@) =~= Seq::<Val>::empty());
    while i < args.len()
        invariant
            i <= args@.len(),
            concat_spec(vals(args@)) == concat_from(vals(args@), i as nat, vals(out@)),
        decreases args@.len() - i,
    {
        proof {
            lemma_val(args@[i as int]);
        }
        let seq = match &args[i] {
            MalVal::List(s) => s,
            MalVal::Vector(s) => s,
            _ => return Err(error("concat expects lists as arguments")),
        };
        let ghost before = vals(out@);
        let mut more = dup_vec(seq);
        out.append(&mut more);
        assert(vals(out@) =~= before + vals(seq@));
        i = i + 1;
    }
    list_of(out)
}

/// `(vec seq)` (see `vec_spec`).
pub fn vec(args: &Vec<MalVal>) -> (r: MalReturn)
    ensures
        rv(r) == vec_spec(vals(args@)),
{
    if args.len() != 1 {
        return Err(error("vec expects one argument"));
    }
    proof {
        lemma_val(args@[0]);
    }
    match &args[0] {
        MalVal::List(l) => {
            let v = MalVal::Vector(dup_vec(l));
            proof {
                lemma_val(v);
            }
            Ok(v)
        },
        MalVal::Vector(_) => Ok(args[0].dup()),
        _ => Err(error("vec expects a list as argument")),
    }
}

/// `(nth seq i)` (see `nth_spec`).
pub fn nth(args: &Vec<MalVal>) -> (r: MalReturn)
    ensures
        rv(r) == nth_spec(vals(args@)),
{
    if args.len() != 2 {
        return Err(error("nth expects 2 arguments"));
    }
    let index = match &args[1] {
        MalVal::Int(i) => *i,
        _ => return Err(error("nth expects an integer index")),
    };
    proof {
        lemma_val(args@[0]);
    }
    match &args[0] {
        MalVal::List(l) => {
            if index < 0 || index as u64 >= l.len() as u64 {
                return Err(error("index out of bounds"));
            }
            Ok(l[index as usize].dup())
        },
        MalVal::Vector(l) => {
            if index < 0 || index as u64 >= l.len() as u64 {
                return Err(error("index out of bounds"));
            }
            Ok(l[index as usize].dup())
        },
        MalVal::Nil => Ok(MalVal::Nil),
        _ => Err(error("nth expects a list or a vector")),
    }
}

/// `(first seq)` (see `first_spec`).
pub fn first(args: &Vec<MalVal>) -> (r: MalReturn)
    ensures
        rv(r) == first_spec(vals(args@)),
{
    if args.len() != 1 {
        return Err(error("first expects 1 arguments"));
    }
    proof {
        lemma_val(args@[0]);
    }
    match &args[0] {
        MalVal::List(l) => {
            if l.len() == 0 || l[0].is_nil() {
                return Ok(MalVal::Nil);
            }
            Ok(l[0].dup())
        },
        MalVal::Vector(v) => {
            if v.len() == 0 || v[0].is_nil() {
                return Ok(MalVal::Nil);
            }
            Ok(v[0].dup())
        },
        MalVal::Nil => Ok(MalVal::Nil),
        _ => Err(error("first expects a list or a vector")),
    }
}

/// `(rest seq)` (see `rest_spec`).
pub fn rest(args: &Vec<MalVal>) -> (r: MalReturn)
    ensures
        rv(r) == rest_spec(vals(args@)),
{
    if args.len() != 1 {
        return Err(error("rest expects 1 arguments"));
    }
    proof {
        lemma_val(args@[0]);
    }
    match &args[0] {
        MalVal::List(l) => {
            if l.len() == 0 || l[0].is_nil() {
                let e: Vec<MalVal> = Vec::new();
                assert(vals(e@) =~= Seq::<Val>::empty());
                return list_of(e);
            }
            list_of(dup_range(l, 1, l.len()))
        },
        MalVal::Vector(v) => {
            if v.len() == 0 || v[0].is_nil() {
                let e: Vec<MalVal> = Vec::new();
                assert(vals(e@) =~= Seq::<Val>::empty());
                return list_of(e);
            }
            list_of(dup_range(v, 1, v.len()))
        },
        MalVal::Nil => {
            let e: Vec<MalVal> = Vec::new();
            assert(vals(e@) =~= Seq::<Val>::empty());
            list_of(e)
        },
        _ => Err(error("rest expects a list or a vector")),
    }
}

/// `(macro? x)` (see `is_macro_spec`).
pub fn is_macro(args: &Vec<MalVal>) -> (r: MalReturn)
    ensures
        rv(r) == is_macro_spec(vals(args@)),
{
    if args.len() != 1 {
        return Err(error("macro? expects one argument"));
    }
    proof {
        lemma_val(args@[0]);
    }
    if let MalVal::Lambda(l) = &args[0] {
        return bool_val(l.is_macro());
    }
    bool_val(false)
}

} // verus!
