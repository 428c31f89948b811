//! The built-in functions, quasiquotation and the top-level helpers.
pub mod core_fns;
pub mod math;
pub mod exceptions;
pub mod string;
pub mod time;

use crate::runtime::{file_lookup, FileRead, FileV, Runtime, St};
use crate::text::{owned, push_all};
use crate::types::error::{err, error, rv, ErrV, Halt, HaltV, MalError, MalReturn, Res};
use crate::types::{lemma_val, vals, MalVal, Val};
use crate::builtins::core_fns::{bind_names, core_names};
use crate::builtins::math::math_names;
use crate::builtins::string::string_names;
use crate::evaluation::{eval, eval_spec};
use crate::printer::{print, shown};
use crate::reader::{read_str, read_str_spec};
use crate::types::environment::{Frame, MalEnv};
use crate::types::Builtin;
use vstd::prelude::*;

verus! {

/// `(slurp path)`: the contents of the file at `path` as the host supplied them,
/// the error for a file the host could not open or read, or the request for the
/// file when the host has not supplied it yet.
pub open spec fn slurp_spec(st: St, args: Seq<Val>) -> Res {
    if args.len() > 1 {
        err("read-string expects only one string"@)
    } else if args.len() == 1 && args[0] is Str {
        let p = args[0]->Str_0;
        match file_lookup(st.files, p) {
            Some(FileV::Contents(c)) => Ok(Val::Str(c)),
            Some(FileV::OpenFailed) => err("Failed to open file "@ + p),
            Some(FileV::ReadFailed(m)) => err("Failed to read file "@ + p + ": "@ + m),
            None => Err(ErrV::Halt(HaltV::NeedFile(p))),
        }
    } else {
        err("slurp expects one argument of string type"@)
    }
}

/// `(slurp path)` (see `slurp_spec`).
pub fn slurp(rt: &Runtime, args: &Vec<MalVal>) -> (r: MalReturn)
    ensures
        rv(r) == slurp_spec(rt.view(), vals(args@)),
{
    if args.len() > 1 {
        return Err(error("read-string expects only one string"));
    }
    if args.len() == 1 {
        if let MalVal::Str(path) = &args[0] {
            return match rt.file_lookup(path.as_str()) {
                Some(FileRead::Contents(c)) => Ok(MalVal::Str(c.clone())),
                Some(FileRead::OpenFailed) => {
                    let mut m = owned("Failed to open file ");
                    push_all(&mut m, path.as_str());
                    Err(MalError::Error(m))
                },
                Some(FileRead::ReadFailed(e)) => {
                    let mut m = owned("Failed to read file ");
                    push_all(&mut m, path.as_str());
                    push_all(&mut m, ": ");
                    push_all(&mut m, e.as_str());
                    Err(MalError::Error(m))
                },
                None => Err(MalError::Halt(Halt::NeedFile(path.clone()))),
            };
        }
    }
    Err(error("slurp expects one argument of string type"))
}

/// Whether a value is the symbol `name`.
pub open spec fn is_sym(v: Val, name: Seq<char>) -> bool {
    v matches Val::Symbol(s) && s == name
}

/// Quasiquotation: `(unquote x)` gives `x`; a list `(a b ...)` gives a chain of
/// `cons` (or of `concat` for an item `(splice-unquote x)`); a vector gives `vec`
/// of that chain; a symbol or a map is quoted; anything else stays.
pub open spec fn qq(ast: Val) -> Val
    decreases ast, 0nat,
{
    match ast {
        Val::List(l) => if l.len() == 2 && is_sym(l[0], "unquote"@) {
            l[1]
        } else {
            Val::List(qq_items(l, 0))
        },
        Val::Symbol(_) => Val::List(seq![Val::Symbol("quote"@), ast]),
        Val::Hashmap(_) => Val::List(seq![Val::Symbol("quote"@), ast]),
        Val::Vector(l) => Val::List(seq![Val::Symbol("vec"@), Val::List(qq_items(l, 0))]),
        _ => ast,
    }
}

/// The chain built from the items `l[i..]`, innermost last.
pub open spec fn qq_items(l: Seq<Val>, i: nat) -> Seq<Val>
    decreases l, l.len() - i,
{
    if i >= l.len() {
        Seq::empty()
    } else {
        let rest = qq_items(l, i + 1);
        match l[i as int] {
            Val::List(s) => if s.len() == 2 && is_sym(s[0], "splice-unquote"@) {
                seq![Val::Symbol("concat"@), s[1], Val::List(rest)]
            } else {
                seq![Val::Symbol("cons"@), qq(l[i as int]), Val::List(rest)]
            },
            _ => seq![Val::Symbol("cons"@), qq(l[i as int]), Val::List(rest)],
        }
    }
}

fn sym(name: &str) -> (v: MalVal)
    ensures
        v.val() == Val::Symbol(name@),
{
    MalVal::Symbol(owned(name))
}

fn is_sym_exec(v: &MalVal, name: &str) -> (b: bool)
    ensures
        b == is_sym(v.val(), name@),
{
    match v {
        MalVal::Symbol(s) => crate::text::str_eq(s.as_str(), name),
        _ => false,
    }
}

fn list3(a: MalVal, b: MalVal, c: MalVal) -> (v: Vec<MalVal>)
    ensures
        vals(v@) == seq![a.val(), b.val(), c.val()],
{
    let mut v: Vec<MalVal> = Vec::new();
    v.push(a);
    v.push(b);
    v.push(c);
    assert(vals(v@) =~= seq![a.val(), b.val(), c.val()]);
    v
}

fn qq_iter(list: &Vec<MalVal>) -> (r: Vec<MalVal>)
    ensures
        vals(r@) == qq_items(vals(list@), 0),
    decreases vals(list@), 1nat,
{
    let mut new_list: Vec<MalVal> = Vec::new();
    let mut i = list.len();
    let ghost l = vals(list@);
    assert(vals(new_list@) =~= Seq::<Val>::empty());
    while i > 0
        invariant
            l == vals(list@),
            i <= list@.len(),
            vals(new_list@) == qq_items(l, i as nat),
        decreases i,
    {
        i = i - 1;
        let elt = &list[i];
        proof {
            lemma_val(*elt);
        }
        let prev = MalVal::List(new_list);
        proof {
            lemma_val(prev);
        }
        let mut spliced: Option<Vec<MalVal>> = None;
        if let MalVal::List(seq) = elt {
            if seq.len() == 2 && is_sym_exec(&seq[0], "splice-unquote") {
                spliced = Some(list3(sym("concat"), seq[1].dup(), prev.dup()));
            }
        }
        new_list = match spliced {
            Some(v) => v,
            None => {
                assert(decreases_to!(vals(list@) => vals(list@)[i as int]));
                let q = match quasiquote(elt) {
                    Ok(q) => q,
                    Err(_) => MalVal::Nil,
                };
                list3(sym("cons"), q, prev)
            },
        };
    }
    new_list
}

/// Quasiquotation of `ast` (see `qq`); it always succeeds.
pub fn quasiquote(ast: &MalVal) -> (r: MalReturn)
    ensures
        rv(r) == Ok::<Val, ErrV>(qq(ast.val())),
    decreases ast.val(), 0nat,
{
    proof {
        lemma_val(*ast);
    }
    let r = match ast {
        MalVal::List(l) => {
            if l.len() == 2 && is_sym_exec(&l[0], "unquote") {
                l[1].dup()
            } else {
                MalVal::List(qq_iter(l))
            }
        },
        MalVal::Symbol(_) => {
            let mut v: Vec<MalVal> = Vec::new();
            v.push(sym("quote"));
            v.push(ast.dup());
            assert(vals(v@) =~= seq![Val::Symbol("quote"@), ast.val()]);
            MalVal::List(v)
        },
        MalVal::Hashmap(_) => {
            let mut v: Vec<MalVal> = Vec::new();
            v.push(sym("quote"));
            v.push(ast.dup());
            assert(vals(v@) =~= seq![Val::Symbol("quote"@), ast.val()]);
            MalVal::List(v)
        },
        MalVal::Vector(l) => {
            let inner = MalVal::List(qq_iter(l));
            proof {
                lemma_val(inner);
            }
            let mut v: Vec<MalVal> = Vec::new();
            v.push(sym("vec"));
            v.push(inner);
            assert(vals(v@) =~= seq![Val::Symbol("vec"@), inner.val()]);
            MalVal::List(v)
        },
        _ => ast.dup(),
    };
    proof {
        lemma_val(r);
    }
    Ok(r)
}

/// The symbols of frame `syms` after binding the built-in functions: the core,
/// exception, string and arithmetic functions and `slurp`.
pub open spec fn with_builtins(syms: Seq<(Seq<char>, Val)>) -> Seq<(Seq<char>, Val)> {
    bind_names(
        bind_names(
            bind_names(
                bind_names(bind_names(syms, core_names()), seq![("throw"@, Builtin::Throw)]),
                string_names(),
            ),
            math_names(),
        ),
        seq![("slurp"@, Builtin::Slurp)],
    )
}

/// Reading `line` and evaluating it in frame `env`.
pub open spec fn re_spec(st: St, line: Seq<char>, env: usize, fuel: nat) -> (St, Res) {
    eval_spec(st, read_str_spec(line), env, fuel)
}

/// The state after `register`: the built-in functions bound in frame `env`, then
/// `not`, `load-file` and `cond` defined by evaluating their definitions there.
pub open spec fn registered(st: St, env: usize, fuel: nat) -> St {
    let s1 = if env < st.envs.len() {
        St {
            envs: st.envs.update(
                env as int,
                Frame { symbols: with_builtins(st.envs[env as int].symbols), outer: st.envs[env as int].outer },
            ),
            ..st
        }
    } else {
        st
    };
    let s2 = re_spec(s1, "(def! not (fn* (a) (if a false true)))"@, env, fuel).0;
    let s3 = re_spec(
        s2,
        "(def! load-file (fn* (f) (eval (read-string (str \"(do \" (slurp f) \"\nnil)\")))))"@,
        env,
        fuel,
    ).0;
    re_spec(
        s3,
        "(defmacro! cond (fn* (& xs) (if (> (count xs) 0) (list 'if (first xs) (if (> (count xs) 1) (nth xs 1) (throw \"odd number of forms to cond\")) (cons 'cond (rest (rest xs)))))))"@,
        env,
        fuel,
    ).0
}

/// Binds the built-in functions in frame `env` (see `with_builtins`).
fn bind_builtins(rt: &mut Runtime, env: usize)
    ensures
        env < old(rt).view().envs.len() ==> final(rt).view() == (St {
            envs: old(rt).view().envs.update(
                env as int,
                Frame {
                    symbols: with_builtins(old(rt).view().envs[env as int].symbols),
                    outer: old(rt).view().envs[env as int].outer,
                },
            ),
            ..old(rt).view()
        }),
        env >= old(rt).view().envs.len() ==> final(rt).view() == old(rt).view(),
{
    if env < rt.envs.len() {
        let mut e = MalEnv { symbols: rt.envs[env].symbols.dup(), outer: rt.envs[env].outer };
        core_fns::register(&mut e);
        exceptions::register(&mut e);
        string::register(&mut e);
        math::register(&mut e);
        core_fns::register_one(&mut e, "slurp", Builtin::Slurp);
        proof {
            reveal_with_fuel(bind_names, 2);
        }
        rt.envs.set(env, e);
        assert(rt.view().envs =~= old(rt).view().envs.update(
            env as int,
            Frame {
                symbols: with_builtins(old(rt).view().envs[env as int].symbols),
                outer: old(rt).view().envs[env as int].outer,
            },
        ));
    }
}

/// Binds the built-in functions in frame `env` of `rt` and defines `not`,
/// `load-file` and `cond` there, each evaluated with at most `fuel` steps (see
/// `registered`).
pub fn register(rt: &mut Runtime, env: usize, fuel: u64)
    ensures
        final(rt).view() == registered(old(rt).view(), env, fuel as nat),
{
    bind_builtins(rt, env);
    let _ = re("(def! not (fn* (a) (if a false true)))", env, rt, fuel);
    let _ = re(
        "(def! load-file (fn* (f) (eval (read-string (str \"(do \" (slurp f) \"\nnil)\")))))",
        env,
        rt,
        fuel,
    );
    let _ = re(
        "(defmacro! cond (fn* (& xs) (if (> (count xs) 0) (list 'if (first xs) (if (> (count xs) 1) (nth xs 1) (throw \"odd number of forms to cond\")) (cons 'cond (rest (rest xs)))))))",
        env,
        rt,
        fuel,
    );
}

/// Reads `line` and evaluates it in frame `env` with at most `fuel` steps.
pub fn re(line: &str, env: usize, rt: &mut Runtime, fuel: u64) -> (r: MalReturn)
    ensures
        (final(rt).view(), rv(r)) == re_spec(old(rt).view(), line@, env, fuel as nat),
{
    eval(read_str(line), env, rt, fuel)
}

/// Reads `line`, evaluates it in frame `env` with at most `fuel` steps, and gives
/// what the loop prints for the outcome and whether it goes on (see `shown`).
pub fn rep(line: &str, env: usize, rt: &mut Runtime, fuel: u64) -> (r: Option<(String, bool)>)
    ensures
        match shown(re_spec(old(rt).view(), line@, env, fuel as nat).1, final(rt).view().atoms) {
            Some((t, go_on)) => r matches Some((s, b)) && s@ == t && b == go_on,
            None => r is None,
        },
        final(rt).view() == re_spec(old(rt).view(), line@, env, fuel as nat).0,
{
    let out = re(line, env, rt, fuel);
    print(out, rt)
}

} // verus!
