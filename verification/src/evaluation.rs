//! Evaluation: the semantics of forms as spec functions, and the evaluator that
//! implements them.
use crate::builtins::core_fns::{
    concat, concat_spec, cons, cons_spec, count, count_spec, first, first_spec, is_atom,
    is_atom_spec, is_empty, is_empty_spec, is_list, is_list_spec, is_macro, is_macro_spec,
    is_vector, is_vector_spec, list, list_spec, nth, nth_spec, rest, rest_spec, vec_spec,
};
use crate::builtins::exceptions::{throw, throw_spec};
use crate::builtins::math::{arith_call, arith_call_spec, chain_holds, fn_cmp};
use crate::builtins::string::{
    pr_str, pr_str_spec, print_spec, print_values, read_string, read_string_spec, str, str_spec,
};
use crate::builtins::time::{time_ms, time_ms_spec};
use crate::builtins::{is_sym, qq, quasiquote, slurp, slurp_spec};
use crate::runtime::{emit, env_get, new_atom, push_frame, root_of, set_atom, set_sym, Runtime, St};
use crate::text::{owned, push_all, str_eq};
use crate::types::environment::{lookup, lookup_in, Frame, MalEnv};
use crate::types::error::{
    err, error, panic_error, panic_res, rv, ErrV, Halt, HaltV, MalError, MalReturn, Res,
};
use crate::types::lambda::{bind_ok, bind_syms, params_of, Lambda};
use crate::types::print::pr;
use crate::types::{atom_get, dup_range, lemma_val, map_insert, vals, Builtin, MalMap, MalVal, Val};
use vstd::prelude::*;

verus! {

/// What one step of evaluating a list gives: a finished outcome, or the form to
/// evaluate next in place of the list and the frame to evaluate it in.
pub enum Step {
    Done(Res),
    Continue(Val, usize),
}

/// An outcome that stops the evaluation for the host.
pub open spec fn halt(h: HaltV) -> Res {
    Err(ErrV::Halt(h))
}

/// Whether tracing is on in frame `env`: `DEBUG-EVAL` is `true`, or an integer,
/// string or list.
pub open spec fn debug_on(st: St, env: usize) -> bool {
    match lookup(st.envs, env as int, "DEBUG-EVAL"@) {
        Some(Val::Bool(d)) => d,
        Some(Val::Int(_)) => true,
        Some(Val::Str(_)) => true,
        Some(Val::List(_)) => true,
        _ => false,
    }
}

/// The readable text of a value, reading atoms from the state.
pub open spec fn text_of(st: St, v: Val) -> Option<Seq<char>> {
    pr(v, true, false, st.atoms, st.atoms.len())
}

/// The state after tracing `ast` (printing `EVAL: <ast>` when tracing is on);
/// `None` when its text never ends.
pub open spec fn trace(st: St, ast: Val, env: usize) -> Option<St> {
    if !debug_on(st, env) {
        Some(st)
    } else {
        match text_of(st, ast) {
            Some(t) => Some(emit(st, "EVAL: "@ + t)),
            None => None,
        }
    }
}

/// `false` and `nil` are false; every other value is true.
pub open spec fn falsy(v: Val) -> bool {
    v == Val::Bool(false) || v == Val::Nil
}

/// Evaluating `ast` in frame `env` with `fuel` steps: the state after and the
/// outcome. Each step first traces the form; a symbol is looked up, the items of a
/// vector and the values of a map are evaluated, a non-empty list is a special
/// form or a call (see `step_list`), anything else is its own value.
pub open spec fn ev(st: St, ast: Val, env: usize, fuel: nat) -> (St, Res)
    decreases fuel, 0nat, 0nat,
{
    if fuel == 0 {
        (st, halt(HaltV::OutOfFuel))
    } else {
        let f = (fuel - 1) as nat;
        match trace(st, ast, env) {
            None => (st, panic_res()),
            Some(st1) => match ast {
                Val::Symbol(k) => (st1, env_get(st1, env, k)),
                Val::Vector(items) => {
                    let (s2, r) = ev_seq(st1, items, 0, Seq::empty(), env, f);
                    match r {
                        Ok(vs) => (s2, Ok(Val::Vector(vs))),
                        Err(e) => (s2, Err(e)),
                    }
                },
                Val::Hashmap(es) => ev_map(st1, es, 0, Seq::empty(), env, f),
                Val::List(l) => if l.len() == 0 {
                    (st1, Ok(Val::List(Seq::empty())))
                } else {
                    let (s2, step) = step_list(st1, l, env, f);
                    match step {
                        Step::Done(r) => (s2, r),
                        Step::Continue(a, e) => ev(s2, a, e, f),
                    }
                },
                _ => (st1, Ok(ast)),
            },
        }
    }
}

/// Evaluating `items[i..]` in order after the values `acc`, stopping at the first error.
pub open spec fn ev_seq(st: St, items: Seq<Val>, i: nat, acc: Seq<Val>, env: usize, f: nat) -> (
    St,
    Result<Seq<Val>, ErrV>,
)
    decreases f, 1nat, items.len() - i,
{
    if i >= items.len() {
        (st, Ok(acc))
    } else {
        let (s1, r) = ev(st, items[i as int], env, f);
        match r {
            Ok(v) => ev_seq(s1, items, i + 1, acc.push(v), env, f),
            Err(e) => (s1, Err(e)),
        }
    }
}

/// Evaluating the values of the entries `es[i..]` into the map `acc`; an error
/// aborts the evaluation (a halt is passed on).
pub open spec fn ev_map(
    st: St,
    es: Seq<(Seq<char>, Val)>,
    i: nat,
    acc: Seq<(Seq<char>, Val)>,
    env: usize,
    f: nat,
) -> (St, Res)
    decreases f, 1nat, es.len() - i,
{
    if i >= es.len() {
        (st, Ok(Val::Hashmap(acc)))
    } else {
        let (s1, r) = ev(st, es[i as int].1, env, f);
        match r {
            Ok(v) => ev_map(s1, es, i + 1, map_insert(acc, es[i as int].0, v), env, f),
            Err(ErrV::Halt(h)) => (s1, Err(ErrV::Halt(h))),
            Err(_) => (s1, panic_res()),
        }
    }
}

/// Evaluating `items[i..end]` in order for their effects, stopping at the first error.
pub open spec fn ev_do(st: St, items: Seq<Val>, i: nat, end: nat, env: usize, f: nat) -> (St, Res)
    decreases f, 1nat, end - i,
{
    if i >= end || i >= items.len() {
        (st, Ok(Val::Nil))
    } else {
        let (s1, r) = ev(st, items[i as int], env, f);
        match r {
            Ok(_) => ev_do(s1, items, i + 1, end, env, f),
            Err(e) => (s1, Err(e)),
        }
    }
}

/// Binding the pairs `bs[i], bs[i + 1]`, ... of a `let*` in frame `env`: each
/// value is evaluated in `env` and bound under the readable text of its name. A
/// name without a value aborts.
pub open spec fn ev_let(st: St, bs: Seq<Val>, i: nat, env: usize, f: nat) -> (St, Res)
    decreases f, 1nat, bs.len() - i,
{
    if i >= bs.len() {
        (st, Ok(Val::Nil))
    } else if i + 1 >= bs.len() {
        (st, panic_res())
    } else {
        let (s1, r) = ev(st, bs[i + 1 as int], env, f);
        match r {
            Ok(v) => match text_of(s1, bs[i as int]) {
                Some(k) => ev_let(set_sym(s1, env, k, v), bs, i + 2, env, f),
                None => (s1, panic_res()),
            },
            Err(e) => (s1, Err(e)),
        }
    }
}

/// The frame of a call of a lambda closing over `cenv` with parameters `params`.
pub open spec fn call_frame(params: Seq<Val>, args: Seq<Val>, cenv: usize) -> Frame {
    Frame { symbols: bind_syms(params, args, 0, false, Seq::empty()), outer: Some(cenv) }
}

/// Applying a function value to arguments: a built-in runs (see `call_builtin`);
/// a lambda's body is evaluated in a new frame binding its parameters (an
/// argument list too short for them aborts); anything else is an error.
pub open spec fn apply_val(st: St, fv: Val, args: Seq<Val>, f: nat) -> (St, Res)
    decreases f, 2nat, 0nat,
{
    match fv {
        Val::Function(b) => call_builtin(st, b, args, f),
        Val::Lambda { ast, params, env, is_macro } => if bind_ok(params, args, 0, false) {
            ev(push_frame(st, call_frame(params, args, env)), *ast, st.envs.len() as usize, f)
        } else {
            (st, panic_res())
        },
        _ => (st, err("not a function"@)),
    }
}

/// Calling a built-in function.
pub open spec fn call_builtin(st: St, b: Builtin, args: Seq<Val>, f: nat) -> (St, Res)
    decreases f, 1nat, 0nat,
{
    match b {
        Builtin::Atom => if args.len() != 1 {
            (st, err("atom expects one argument"@))
        } else {
            (new_atom(st, args[0]), Ok(Val::Atom(st.atoms.len() as usize)))
        },
        Builtin::IsAtom => (st, is_atom_spec(args)),
        Builtin::Concat => (st, concat_spec(args)),
        Builtin::Cons => (st, cons_spec(args)),
        Builtin::Count => (st, count_spec(args)),
        Builtin::Deref => if args.len() != 1 {
            (st, err("deref expects one argument"@))
        } else {
            match args[0] {
                Val::Atom(i) => (st, Ok(atom_get(st.atoms, i))),
                _ => (st, err("deref expects an atom"@)),
            }
        },
        Builtin::IsEmpty => (st, is_empty_spec(args)),
        Builtin::First => (st, first_spec(args)),
        Builtin::List => (st, list_spec(args)),
        Builtin::IsList => (st, is_list_spec(args)),
        Builtin::IsMacro => (st, is_macro_spec(args)),
        Builtin::Nth => (st, nth_spec(args)),
        Builtin::Reset => if args.len() != 2 {
            (st, err("reset! expects two arguments"@))
        } else {
            match args[0] {
                Val::Atom(i) => (set_atom(st, i, args[1]), Ok(args[1])),
                _ => (st, err("reset! expects an atom"@)),
            }
        },
        Builtin::Rest => (st, rest_spec(args)),
        Builtin::Swap => if args.len() < 2 {
            (st, err("swap! expects at least two arguments"@))
        } else {
            match args[0] {
                Val::Atom(i) => if f == 0 {
                    (st, halt(HaltV::OutOfFuel))
                } else {
                    let (s1, r) = apply_val(
                        st,
                        args[1],
                        seq![atom_get(st.atoms, i)] + args.subrange(2, args.len() as int),
                        (f - 1) as nat,
                    );
                    match r {
                        Ok(nv) => (set_atom(s1, i, nv), Ok(nv)),
                        Err(e) => (s1, Err(e)),
                    }
                },
                _ => (st, err("swap! expects an atom"@)),
            }
        },
        Builtin::Vec => (st, vec_spec(args)),
        Builtin::IsVector => (st, is_vector_spec(args)),
        Builtin::Throw => (st, throw_spec(args)),
        Builtin::Add => (st, arith_call_spec(b, args)),
        Builtin::Sub => (st, arith_call_spec(b, args)),
        Builtin::Mul => (st, arith_call_spec(b, args)),
        Builtin::Div => (st, arith_call_spec(b, args)),
        Builtin::PrStr => (st, pr_str_spec(st, args)),
        Builtin::Str => (st, str_spec(st, args)),
        Builtin::Prn => print_spec(st, args, true),
        Builtin::Println => print_spec(st, args, false),
        Builtin::ReadString => (st, read_string_spec(args)),
        Builtin::Slurp => (st, slurp_spec(st, args)),
        Builtin::TimeMs => time_ms_spec(st, args),
        _ => match chain_holds(b, args, 0, st.atoms) {
            Some(x) => (st, Ok(Val::Bool(x))),
            None => (st, panic_res()),
        },
    }
}

/// The step after a `try*` caught `exc`: `(catch* name body)` evaluates `body` in
/// a new frame binding `name` to `exc`; a list of other length or whose first item
/// is not `catch*` and a non-list are handled as the messages say.
pub open spec fn catch_step(st: St, catch_ast: Val, exc: Val, env: usize) -> (St, Step) {
    match catch_ast {
        Val::List(s) => if s.len() != 3 {
            (st, Step::Done(err("catch* expects a list of three arguments"@)))
        } else if is_sym(s[0], "catch*"@) {
            match s[1] {
                Val::Symbol(name) => (
                    push_frame(st, Frame { symbols: map_insert(Seq::empty(), name, exc), outer: Some(env) }),
                    Step::Continue(s[2], st.envs.len() as usize),
                ),
                _ => (st, Step::Done(err("catch* expects a symbol as the first argument"@))),
            }
        } else {
            (st, Step::Done(Ok(s[0])))
        },
        _ => (st, Step::Done(err("catch* expects a list"@))),
    }
}

/// The special forms, and calls.
pub enum Form {
    Def,
    DefMacro,
    Let,
    Do,
    If,
    Fn,
    Eval,
    Quote,
    Quasiquote,
    Try,
    Call,
}

/// Which form a list with first item `head` is.
pub open spec fn form(head: Val) -> Form {
    if is_sym(head, "def!"@) {
        Form::Def
    } else if is_sym(head, "defmacro!"@) {
        Form::DefMacro
    } else if is_sym(head, "let*"@) {
        Form::Let
    } else if is_sym(head, "do"@) {
        Form::Do
    } else if is_sym(head, "if"@) {
        Form::If
    } else if is_sym(head, "fn*"@) {
        Form::Fn
    } else if is_sym(head, "eval"@) {
        Form::Eval
    } else if is_sym(head, "quote"@) {
        Form::Quote
    } else if is_sym(head, "quasiquote"@) {
        Form::Quasiquote
    } else if is_sym(head, "try*"@) {
        Form::Try
    } else {
        Form::Call
    }
}

/// One step of evaluating the non-empty list `l` in frame `env`, by its form. A
/// special form without the items it reads aborts.
pub open spec fn step_list(st: St, l: Seq<Val>, env: usize, f: nat) -> (St, Step)
    decreases f, 4nat, 0nat,
{
    match form(l[0]) {
        Form::Def => step_def(st, l, env, f),
        Form::DefMacro => step_defmacro(st, l, env, f),
        Form::Let => step_let(st, l, env, f),
        Form::Do => step_do(st, l, env, f),
        Form::If => step_if(st, l, env, f),
        Form::Fn => step_fn(st, l, env),
        Form::Eval => step_eval(st, l, env, f),
        Form::Quote => step_quote(st, l),
        Form::Quasiquote => step_quasiquote(st, l, env),
        Form::Try => step_try(st, l, env, f),
        Form::Call => step_call(st, l, env, f),
    }
}

/// `(def! name x)`: `x` is evaluated in the outermost frame and bound there under
/// the readable text of `name`.
pub open spec fn step_def(st: St, l: Seq<Val>, env: usize, f: nat) -> (St, Step)
    decreases f, 3nat, 0nat,
{
    if l.len() < 3 {
        (st, Step::Done(panic_res()))
    } else {
        let root = root_of(st.envs, env);
        let (s1, r) = ev(st, l[2], root, f);
        match r {
            Err(e) => (s1, Step::Done(Err(e))),
            Ok(v) => match text_of(s1, l[1]) {
                Some(k) => (set_sym(s1, root, k, v), Step::Done(Ok(v))),
                None => (s1, Step::Done(panic_res())),
            },
        }
    }
}

/// `(defmacro! name x)`: `x` must give a lambda; a macro with its body and
/// parameters, closing over `env`, is bound in `env`.
pub open spec fn step_defmacro(st: St, l: Seq<Val>, env: usize, f: nat) -> (St, Step)
    decreases f, 3nat, 0nat,
{
    if l.len() < 3 {
        (st, Step::Done(panic_res()))
    } else {
        let (s1, r) = ev(st, l[2], env, f);
        match r {
            Err(e) => (s1, Step::Done(Err(e))),
            Ok(Val::Lambda { ast, params, .. }) => {
                let m = Val::Lambda { ast, params, env, is_macro: true };
                match text_of(s1, l[1]) {
                    Some(k) => (set_sym(s1, env, k, m), Step::Done(Ok(m))),
                    None => (s1, Step::Done(panic_res())),
                }
            },
            Ok(_) => (s1, Step::Done(err("defmacro! expects a lambda"@))),
        }
    }
}

/// The bindings of a `let*`: the items of a list or vector.
pub open spec fn let_bindings(b: Val) -> Option<Seq<Val>> {
    match b {
        Val::List(bs) => Some(bs),
        Val::Vector(bs) => Some(bs),
        _ => None,
    }
}

/// `(let* bindings body)`: a new frame inside `env` receives the bindings, then
/// `body` is evaluated in it.
pub open spec fn step_let(st: St, l: Seq<Val>, env: usize, f: nat) -> (St, Step)
    decreases f, 3nat, 0nat,
{
    if l.len() < 3 {
        (st, Step::Done(panic_res()))
    } else {
        match let_bindings(l[1]) {
            Some(bs) => {
                let id = st.envs.len() as usize;
                let (s2, r) = ev_let(
                    push_frame(st, Frame { symbols: Seq::empty(), outer: Some(env) }),
                    bs,
                    0,
                    id,
                    f,
                );
                match r {
                    Ok(_) => (s2, Step::Continue(l[2], id)),
                    Err(e) => (s2, Step::Done(Err(e))),
                }
            },
            None => (st, Step::Done(err("let* bindings must be a list or vector"@))),
        }
    }
}

/// `(do x ... y)`: the items but the last are evaluated, then the last one.
pub open spec fn step_do(st: St, l: Seq<Val>, env: usize, f: nat) -> (St, Step)
    decreases f, 3nat, 0nat,
{
    let (s1, r) = ev_do(st, l, 1, (l.len() - 1) as nat, env, f);
    match r {
        Ok(_) => (s1, Step::Continue(l[l.len() - 1], env)),
        Err(e) => (s1, Step::Done(Err(e))),
    }
}

/// `(if c x y)`: `x` when `c` is true, else `y`, or `nil` without `y`.
pub open spec fn step_if(st: St, l: Seq<Val>, env: usize, f: nat) -> (St, Step)
    decreases f, 3nat, 0nat,
{
    if l.len() < 2 {
        (st, Step::Done(panic_res()))
    } else {
        let (s1, r) = ev(st, l[1], env, f);
        match r {
            Err(e) => (s1, Step::Done(Err(e))),
            Ok(c) => if falsy(c) {
                if l.len() == 4 {
                    (s1, Step::Continue(l[3], env))
                } else {
                    (s1, Step::Done(Ok(Val::Nil)))
                }
            } else if l.len() < 3 {
                (s1, Step::Done(panic_res()))
            } else {
                (s1, Step::Continue(l[2], env))
            },
        }
    }
}

/// `(fn* params body)`: a lambda closing over `env`.
pub open spec fn step_fn(st: St, l: Seq<Val>, env: usize) -> (St, Step) {
    if l.len() < 3 {
        (st, Step::Done(panic_res()))
    } else {
        (
            st,
            Step::Done(
                Ok(Val::Lambda { ast: Box::new(l[2]), params: params_of(l[1]), env, is_macro: false }),
            ),
        )
    }
}

/// `(eval x)`: the value of `x` is evaluated in the outermost frame.
pub open spec fn step_eval(st: St, l: Seq<Val>, env: usize, f: nat) -> (St, Step)
    decreases f, 3nat, 0nat,
{
    if l.len() < 2 {
        (st, Step::Done(panic_res()))
    } else {
        let (s1, r) = ev(st, l[1], env, f);
        match r {
            Ok(a) => (s1, Step::Continue(a, root_of(s1.envs, env))),
            Err(e) => (s1, Step::Done(Err(e))),
        }
    }
}

/// `(quote x)`: `x` itself.
pub open spec fn step_quote(st: St, l: Seq<Val>) -> (St, Step) {
    if l.len() < 2 {
        (st, Step::Done(panic_res()))
    } else {
        (st, Step::Done(Ok(l[1])))
    }
}

/// `(quasiquote x)`: the expansion of `x` (see `qq`) is evaluated.
pub open spec fn step_quasiquote(st: St, l: Seq<Val>, env: usize) -> (St, Step) {
    if l.len() < 2 {
        (st, Step::Done(panic_res()))
    } else {
        (st, Step::Continue(qq(l[1]), env))
    }
}

/// `(try* x (catch* name handler))`: the value of `x`, or, when it throws or
/// fails, the handler (see `catch_step`). `(try* x)` is `x`.
pub open spec fn step_try(st: St, l: Seq<Val>, env: usize, f: nat) -> (St, Step)
    decreases f, 3nat, 0nat,
{
    if l.len() < 3 {
        if l.len() < 2 {
            (st, Step::Done(panic_res()))
        } else {
            (st, Step::Continue(l[1], env))
        }
    } else {
        let (s1, r) = ev(st, l[1], env, f);
        match r {
            Ok(v) => (s1, Step::Done(Ok(v))),
            Err(ErrV::Halt(h)) => (s1, Step::Done(Err(ErrV::Halt(h)))),
            Err(ErrV::Exception(x)) => catch_step(s1, l[2], x, env),
            Err(ErrV::Error(m)) => catch_step(s1, l[2], Val::Str(m), env),
            Err(_) => (s1, Step::Done(err("try* expects a try* and catch* block"@))),
        }
    }
}

/// A call `(g x ...)`: `g` is evaluated; a built-in gets the values of the
/// arguments; a macro gets the arguments unevaluated and its result is evaluated
/// in place of the call; a lambda's body is evaluated in a new frame binding its
/// parameters to the values of the arguments; anything else is an error.
pub open spec fn step_call(st: St, l: Seq<Val>, env: usize, f: nat) -> (St, Step)
    decreases f, 3nat, 0nat,
{
    let (s1, r) = ev(st, l[0], env, f);
    match r {
        Err(e) => (s1, Step::Done(Err(e))),
        Ok(Val::Function(b)) => {
            let (s2, ar) = ev_seq(s1, l, 1, Seq::empty(), env, f);
            match ar {
                Err(e) => (s2, Step::Done(Err(e))),
                Ok(argv) => {
                    let (s3, x) = call_builtin(s2, b, argv, f);
                    (s3, Step::Done(x))
                },
            }
        },
        Ok(Val::Lambda { ast, params, env: cenv, is_macro }) => if is_macro {
            let (s2, x) = apply_val(
                s1,
                Val::Lambda { ast, params, env: cenv, is_macro },
                l.subrange(1, l.len() as int),
                f,
            );
            match x {
                Ok(a) => (s2, Step::Continue(a, env)),
                Err(e) => (s2, Step::Done(Err(e))),
            }
        } else {
            let (s2, ar) = ev_seq(s1, l, 1, Seq::empty(), env, f);
            match ar {
                Err(e) => (s2, Step::Done(Err(e))),
                Ok(argv) => if bind_ok(params, argv, 0, false) {
                    (
                        push_frame(s2, call_frame(params, argv, cenv)),
                        Step::Continue(*ast, s2.envs.len() as usize),
                    )
                } else {
                    (s2, Step::Done(panic_res()))
                },
            }
        },
        Ok(other) => match text_of(s1, other) {
            Some(t) => (s1, Step::Done(err("try to call a non-function: "@ + t))),
            None => (s1, Step::Done(panic_res())),
        },
    }
}

/// What one step of evaluating a list gives, as values: a finished outcome, or
/// the form to evaluate next and its frame.
pub enum Stepped {
    Done(MalReturn),
    Continue(MalVal, usize),
}

impl Stepped {
    pub open spec fn view(self) -> Step {
        match self {
            Stepped::Done(r) => Step::Done(rv(r)),
            Stepped::Continue(a, e) => Step::Continue(a.val(), e),
        }
    }
}

/// The model of the outcome of evaluating a sequence of forms.
pub open spec fn seq_rv(r: Result<Vec<MalVal>, MalError>) -> Result<Seq<Val>, ErrV> {
    match r {
        Ok(v) => Ok(vals(v@)),
        Err(e) => Err(e.view()),
    }
}

/// Which form a list with first item `head` is (see `form`).
pub fn form_of(head: &MalVal) -> (r: Form)
    ensures
        r == form(head.val()),
{
    match head {
        MalVal::Symbol(s) => {
            let s = s.as_str();
            if str_eq(s, "def!") {
                Form::Def
            } else if str_eq(s, "defmacro!") {
                Form::DefMacro
            } else if str_eq(s, "let*") {
                Form::Let
            } else if str_eq(s, "do") {
                Form::Do
            } else if str_eq(s, "if") {
                Form::If
            } else if str_eq(s, "fn*") {
                Form::Fn
            } else if str_eq(s, "eval") {
                Form::Eval
            } else if str_eq(s, "quote") {
                Form::Quote
            } else if str_eq(s, "quasiquote") {
                Form::Quasiquote
            } else if str_eq(s, "try*") {
                Form::Try
            } else {
                Form::Call
            }
        },
        _ => Form::Call,
    }
}

/// Whether `v` is `false` or `nil`.
fn is_falsy(v: &MalVal) -> (b: bool)
    ensures
        b == falsy(v.val()),
{
    match v {
        MalVal::Bool(b) => !*b,
        MalVal::Nil => true,
        _ => false,
    }
}

impl Runtime {
    /// Whether tracing is on in frame `env` (see `debug_on`).
    fn debug_on(&self, env: usize) -> (b: bool)
        ensures
            b == debug_on(self.view(), env),
    {
        match lookup_in(&self.envs, env, "DEBUG-EVAL") {
            Ok(MalVal::Bool(d)) => d,
            Ok(MalVal::Int(_)) => true,
            Ok(MalVal::Str(_)) => true,
            Ok(MalVal::List(_)) => true,
            _ => false,
        }
    }

    /// Traces `ast` (see `trace`); `false` when its text never ends.
    fn trace(&mut self, ast: &MalVal, env: usize) -> (ok: bool)
        ensures
            match trace(old(self).view(), ast.val(), env) {
                Some(s) => ok && final(self).view() == s,
                None => !ok && final(self).view() == old(self).view(),
            },
    {
        if !self.debug_on(env) {
            return true;
        }
        match ast.pr_str(true, &self.atoms) {
            Some(t) => {
                let mut line = owned("EVAL: ");
                push_all(&mut line, t.as_str());
                self.emit(line);
                true
            },
            None => false,
        }
    }

    /// The readable text of `v`, reading atoms from this runtime (see `text_of`).
    fn text(&self, v: &MalVal) -> (r: Option<String>)
        ensures
            match text_of(self.view(), v.val()) {
                Some(t) => r matches Some(s) && s@ == t,
                None => r is None,
            },
    {
        v.pr_str(true, &self.atoms)
    }

    /// Evaluates `ast` in frame `env` with at most `fuel` steps (see `ev`). A list
    /// form that continues with another form is evaluated in the same loop.
    pub fn evaluate(&mut self, ast: MalVal, env: usize, fuel: u64) -> (r: MalReturn)
        ensures
            (final(self).view(), rv(r)) == ev(old(self).view(), ast.val(), env, fuel as nat),
        decreases fuel, 0nat, 0nat,
    {
        let ghost goal = ev(old(self).view(), ast.val(), env, fuel as nat);
        let mut cur = ast;
        let mut at = env;
        let mut left = fuel;
        loop
            invariant
                left <= fuel,
                goal == ev(old(self).view(), ast.val(), env, fuel as nat),
                goal == ev(self.view(), cur.val(), at, left as nat),
            decreases left,
        {
            if left == 0 {
                return Err(MalError::Halt(Halt::OutOfFuel));
            }
            let f = left - 1;
            if !self.trace(&cur, at) {
                return Err(panic_error());
            }
            proof {
                lemma_val(cur);
            }
            match cur {
                MalVal::Symbol(k) => {
                    return lookup_in(&self.envs, at, k.as_str());
                },
                MalVal::Vector(items) => {
                    match self.eval_seq(&items, 0, at, f) {
                        Ok(vs) => {
                            let v = MalVal::Vector(vs);
                            proof {
                                lemma_val(v);
                            }
                            return Ok(v);
                        },
                        Err(e) => {
                            return Err(e);
                        },
                    }
                },
                MalVal::Hashmap(m) => {
                    return self.eval_map(&m, at, f);
                },
                MalVal::List(l) => {
                    if l.len() == 0 {
                        let v = MalVal::List(Vec::new());
                        proof {
                            lemma_val(v);
                            assert(vals(Seq::<MalVal>::empty()) =~= Seq::<Val>::empty());
                        }
                        return Ok(v);
                    }
                    match self.step_list(&l, at, f) {
                        Stepped::Done(r) => {
                            return r;
                        },
                        Stepped::Continue(a, e) => {
                            cur = a;
                            at = e;
                            left = f;
                        },
                    }
                },
                other => {
                    return Ok(other);
                },
            }
        }
    }

    /// Evaluates `items[from..]` in order (see `ev_seq`).
    fn eval_seq(&mut self, items: &Vec<MalVal>, from: usize, env: usize, f: u64) -> (r: Result<
        Vec<MalVal>,
        MalError,
    >)
        ensures
            (final(self).view(), seq_rv(r)) == ev_seq(
                old(self).view(),
                vals(items@),
                from as nat,
                Seq::empty(),
                env,
                f as nat,
            ),
        decreases f, 1nat, 0nat,
    {
        let ghost goal = ev_seq(old(self).view(), vals(items@), from as nat, Seq::empty(), env, f as nat);
        let mut acc: Vec<MalVal> = Vec::new();
        let mut i = from;
        proof {
            assert(vals(acc@) =~= Seq::<Val>::empty());
        }
        while i < items.len()
            invariant
                goal == ev_seq(old(self).view(), vals(items@), from as nat, Seq::empty(), env, f as nat),
                goal == ev_seq(self.view(), vals(items@), i as nat, vals(acc@), env, f as nat),
            decreases items@.len() - i,
        {
            assert(vals(items@)[i as int] == items@[i as int].val());
            match self.evaluate(items[i].dup(), env, f) {
                Ok(v) => {
                    let ghost before = vals(acc@);
                    acc.push(v);
                    proof {
                        assert(vals(acc@) =~= before.push(v.val()));
                    }
                },
                Err(e) => {
                    return Err(e);
                },
            }
            i = i + 1;
        }
        Ok(acc)
    }

    /// Evaluates the values of the entries of `m` into a new map (see `ev_map`).
    fn eval_map(&mut self, m: &MalMap, env: usize, f: u64) -> (r: MalReturn)
        ensures
            (final(self).view(), rv(r)) == ev_map(old(self).view(), m.view(), 0, Seq::empty(), env, f as nat),
        decreases f, 1nat, 0nat,
    {
        let ghost goal = ev_map(old(self).view(), m.view(), 0, Seq::empty(), env, f as nat);
        let mut acc = MalMap::new();
        let mut i: usize = 0;
        while i < m.entries.len()
            invariant
                goal == ev_map(old(self).view(), m.view(), 0, Seq::empty(), env, f as nat),
                goal == ev_map(self.view(), m.view(), i as nat, acc.view(), env, f as nat),
            decreases m.entries@.len() - i,
        {
            assert(m.view()[i as int] == (m.entries@[i as int].0@, m.entries@[i as int].1.val()));
            match self.evaluate(m.entries[i].1.dup(), env, f) {
                Ok(v) => {
                    acc.insert(m.entries[i].0.clone(), v);
                },
                Err(MalError::Halt(h)) => {
                    return Err(MalError::Halt(h));
                },
                Err(_) => {
                    return Err(panic_error());
                },
            }
            i = i + 1;
        }
        let v = MalVal::Hashmap(acc);
        proof {
            lemma_val(v);
        }
        Ok(v)
    }

    /// Evaluates `items[from..end]` in order for their effects (see `ev_do`).
    fn eval_do(&mut self, items: &Vec<MalVal>, from: usize, end: usize, env: usize, f: u64) -> (r: MalReturn)
        ensures
            (final(self).view(), rv(r)) == ev_do(
                old(self).view(),
                vals(items@),
                from as nat,
                end as nat,
                env,
                f as nat,
            ),
        decreases f, 1nat, 0nat,
    {
        let ghost goal = ev_do(old(self).view(), vals(items@), from as nat, end as nat, env, f as nat);
        let mut i = from;
        while i < end && i < items.len()
            invariant
                goal == ev_do(old(self).view(), vals(items@), from as nat, end as nat, env, f as nat),
                goal == ev_do(self.view(), vals(items@), i as nat, end as nat, env, f as nat),
            decreases items@.len() - i,
        {
            assert(vals(items@)[i as int] == items@[i as int].val());
            match self.evaluate(items[i].dup(), env, f) {
                Ok(_) => {},
                Err(e) => {
                    return Err(e);
                },
            }
            i = i + 1;
        }
        Ok(MalVal::Nil)
    }

    /// Binds the pairs of a `let*` in frame `env` (see `ev_let`).
    fn eval_let(&mut self, bs: &Vec<MalVal>, env: usize, f: u64) -> (r: MalReturn)
        ensures
            (final(self).view(), rv(r)) == ev_let(old(self).view(), vals(bs@), 0, env, f as nat),
        decreases f, 1nat, 0nat,
    {
        let ghost goal = ev_let(old(self).view(), vals(bs@), 0, env, f as nat);
        let mut i: usize = 0;
        while i < bs.len()
            invariant
                goal == ev_let(old(self).view(), vals(bs@), 0, env, f as nat),
                goal == ev_let(self.view(), vals(bs@), i as nat, env, f as nat),
            decreases bs@.len() - i,
        {
            if i + 1 >= bs.len() {
                return Err(panic_error());
            }
            assert(vals(bs@)[i + 1] == bs@[i + 1].val());
            assert(vals(bs@)[i as int] == bs@[i as int].val());
            match self.evaluate(bs[i + 1].dup(), env, f) {
                Ok(v) => match self.text(&bs[i]) {
                    Some(k) => {
                        self.set_sym(env, k.as_str(), v);
                    },
                    None => {
                        return Err(panic_error());
                    },
                },
                Err(e) => {
                    return Err(e);
                },
            }
            i = i + 2;
        }
        Ok(MalVal::Nil)
    }

    /// One step of evaluating the non-empty list `l` (see `step_list`).
    fn step_list(&mut self, l: &Vec<MalVal>, env: usize, f: u64) -> (r: Stepped)
        requires
            l@.len() > 0,
        ensures
            (final(self).view(), r.view()) == step_list(old(self).view(), vals(l@), env, f as nat),
        decreases f, 4nat, 0nat,
    {
        match form_of(&l[0]) {
            Form::Def => self.step_def(l, env, f),
            Form::DefMacro => self.step_defmacro(l, env, f),
            Form::Let => self.step_let(l, env, f),
            Form::Do => self.step_do(l, env, f),
            Form::If => self.step_if(l, env, f),
            Form::Fn => self.step_fn(l, env),
            Form::Eval => self.step_eval(l, env, f),
            Form::Quote => {
                if l.len() < 2 {
                    Stepped::Done(Err(panic_error()))
                } else {
                    Stepped::Done(Ok(l[1].dup()))
                }
            },
            Form::Quasiquote => {
                if l.len() < 2 {
                    Stepped::Done(Err(panic_error()))
                } else {
                    match quasiquote(&l[1]) {
                        Ok(a) => Stepped::Continue(a, env),
                        Err(e) => Stepped::Done(Err(e)),
                    }
                }
            },
            Form::Try => self.step_try(l, env, f),
            Form::Call => self.step_call(l, env, f),
        }
    }

    /// `(def! name x)` (see `step_def`).
    fn step_def(&mut self, l: &Vec<MalVal>, env: usize, f: u64) -> (r: Stepped)
        ensures
            (final(self).view(), r.view()) == step_def(old(self).view(), vals(l@), env, f as nat),
        decreases f, 3nat, 0nat,
    {
        if l.len() < 3 {
            return Stepped::Done(Err(panic_error()));
        }
        let root = self.root_of(env);
        match self.evaluate(l[2].dup(), root, f) {
            Err(e) => Stepped::Done(Err(e)),
            Ok(v) => match self.text(&l[1]) {
                Some(k) => {
                    self.set_sym(root, k.as_str(), v.dup());
                    Stepped::Done(Ok(v))
                },
                None => Stepped::Done(Err(panic_error())),
            },
        }
    }

    /// `(defmacro! name x)` (see `step_defmacro`).
    fn step_defmacro(&mut self, l: &Vec<MalVal>, env: usize, f: u64) -> (r: Stepped)
        ensures
            (final(self).view(), r.view()) == step_defmacro(old(self).view(), vals(l@), env, f as nat),
        decreases f, 3nat, 0nat,
    {
        if l.len() < 3 {
            return Stepped::Done(Err(panic_error()));
        }
        match self.evaluate(l[2].dup(), env, f) {
            Err(e) => Stepped::Done(Err(e)),
            Ok(MalVal::Lambda(lam)) => {
                proof {
                    lemma_val(MalVal::Lambda(lam));
                }
                let params = MalVal::List(lam.get_args());
                proof {
                    lemma_val(params);
                }
                let m = MalVal::Lambda(Lambda::new_macro(lam.get_ast(), params, env));
                proof {
                    lemma_val(m);
                }
                match self.text(&l[1]) {
                    Some(k) => {
                        self.set_sym(env, k.as_str(), m.dup());
                        Stepped::Done(Ok(m))
                    },
                    None => Stepped::Done(Err(panic_error())),
                }
            },
            Ok(_) => Stepped::Done(Err(error("defmacro! expects a lambda"))),
        }
    }

    /// `(let* bindings body)` (see `step_let`).
    fn step_let(&mut self, l: &Vec<MalVal>, env: usize, f: u64) -> (r: Stepped)
        ensures
            (final(self).view(), r.view()) == step_let(old(self).view(), vals(l@), env, f as nat),
        decreases f, 3nat, 0nat,
    {
        if l.len() < 3 {
            return Stepped::Done(Err(panic_error()));
        }
        proof {
            lemma_val(l@[1]);
        }
        let bs = match &l[1] {
            MalVal::List(bs) => bs,
            MalVal::Vector(bs) => bs,
            _ => {
                return Stepped::Done(Err(error("let* bindings must be a list or vector")));
            },
        };
        let id = self.push_frame(MalEnv::new(Some(env)));
        match self.eval_let(bs, id, f) {
            Ok(_) => Stepped::Continue(l[2].dup(), id),
            Err(e) => Stepped::Done(Err(e)),
        }
    }

    /// `(do x ... y)` (see `step_do`).
    fn step_do(&mut self, l: &Vec<MalVal>, env: usize, f: u64) -> (r: Stepped)
        requires
            l@.len() > 0,
        ensures
            (final(self).view(), r.view()) == step_do(old(self).view(), vals(l@), env, f as nat),
        decreases f, 3nat, 0nat,
    {
        let last = l.len() - 1;
        match self.eval_do(l, 1, last, env, f) {
            Ok(_) => Stepped::Continue(l[last].dup(), env),
            Err(e) => Stepped::Done(Err(e)),
        }
    }

    /// `(if c x y)` (see `step_if`).
    fn step_if(&mut self, l: &Vec<MalVal>, env: usize, f: u64) -> (r: Stepped)
        ensures
            (final(self).view(), r.view()) == step_if(old(self).view(), vals(l@), env, f as nat),
        decreases f, 3nat, 0nat,
    {
        if l.len() < 2 {
            return Stepped::Done(Err(panic_error()));
        }
        match self.evaluate(l[1].dup(), env, f) {
            Err(e) => Stepped::Done(Err(e)),
            Ok(c) => {
                if is_falsy(&c) {
                    if l.len() == 4 {
                        Stepped::Continue(l[3].dup(), env)
                    } else {
                        Stepped::Done(Ok(MalVal::Nil))
                    }
                } else if l.len() < 3 {
                    Stepped::Done(Err(panic_error()))
                } else {
                    Stepped::Continue(l[2].dup(), env)
                }
            },
        }
    }

    /// `(fn* params body)` (see `step_fn`).
    fn step_fn(&self, l: &Vec<MalVal>, env: usize) -> (r: Stepped)
        ensures
            (self.view(), r.view()) == step_fn(self.view(), vals(l@), env),
    {
        if l.len() < 3 {
            return Stepped::Done(Err(panic_error()));
        }
        let v = MalVal::Lambda(Lambda::new(l[2].dup(), l[1].dup(), env));
        proof {
            lemma_val(v);
        }
        Stepped::Done(Ok(v))
    }

    /// `(eval x)` (see `step_eval`).
    fn step_eval(&mut self, l: &Vec<MalVal>, env: usize, f: u64) -> (r: Stepped)
        ensures
            (final(self).view(), r.view()) == step_eval(old(self).view(), vals(l@), env, f as nat),
        decreases f, 3nat, 0nat,
    {
        if l.len() < 2 {
            return Stepped::Done(Err(panic_error()));
        }
        match self.evaluate(l[1].dup(), env, f) {
            Ok(a) => {
                let root = self.root_of(env);
                Stepped::Continue(a, root)
            },
            Err(e) => Stepped::Done(Err(e)),
        }
    }

    /// The handler of a `try*` that caught `exc` (see `catch_step`).
    fn catch_step(&mut self, catch_ast: &MalVal, exc: MalVal, env: usize) -> (r: Stepped)
        ensures
            (final(self).view(), r.view()) == catch_step(old(self).view(), catch_ast.val(), exc.val(), env),
    {
        proof {
            lemma_val(*catch_ast);
        }
        match catch_ast {
            MalVal::List(s) => {
                if s.len() != 3 {
                    return Stepped::Done(Err(error("catch* expects a list of three arguments")));
                }
                match &s[0] {
                    MalVal::Symbol(c) => {
                        if !str_eq(c.as_str(), "catch*") {
                            return Stepped::Done(Ok(s[0].dup()));
                        }
                    },
                    _ => {
                        return Stepped::Done(Ok(s[0].dup()));
                    },
                }
                match &s[1] {
                    MalVal::Symbol(name) => {
                        let mut e = MalEnv::new(Some(env));
                        e.set(name.as_str(), exc);
                        let id = self.push_frame(e);
                        Stepped::Continue(s[2].dup(), id)
                    },
                    _ => Stepped::Done(Err(error("catch* expects a symbol as the first argument"))),
                }
            },
            _ => Stepped::Done(Err(error("catch* expects a list"))),
        }
    }

    /// `(try* x (catch* name handler))` (see `step_try`).
    fn step_try(&mut self, l: &Vec<MalVal>, env: usize, f: u64) -> (r: Stepped)
        ensures
            (final(self).view(), r.view()) == step_try(old(self).view(), vals(l@), env, f as nat),
        decreases f, 3nat, 0nat,
    {
        if l.len() < 3 {
            if l.len() < 2 {
                return Stepped::Done(Err(panic_error()));
            }
            return Stepped::Continue(l[1].dup(), env);
        }
        match self.evaluate(l[1].dup(), env, f) {
            Ok(v) => Stepped::Done(Ok(v)),
            Err(MalError::Halt(h)) => Stepped::Done(Err(MalError::Halt(h))),
            Err(MalError::Exception(x)) => self.catch_step(&l[2], x, env),
            Err(MalError::Error(m)) => self.catch_step(&l[2], MalVal::Str(m), env),
            Err(_) => Stepped::Done(Err(error("try* expects a try* and catch* block"))),
        }
    }

    /// A call `(g x ...)` (see `step_call`).
    fn step_call(&mut self, l: &Vec<MalVal>, env: usize, f: u64) -> (r: Stepped)
        requires
            l@.len() > 0,
        ensures
            (final(self).view(), r.view()) == step_call(old(self).view(), vals(l@), env, f as nat),
        decreases f, 3nat, 0nat,
    {
        match self.evaluate(l[0].dup(), env, f) {
            Err(e) => Stepped::Done(Err(e)),
            Ok(MalVal::Function(b)) => match self.eval_seq(l, 1, env, f) {
                Err(e) => Stepped::Done(Err(e)),
                Ok(argv) => Stepped::Done(self.call_builtin(b, &argv, f)),
            },
            Ok(MalVal::Lambda(lam)) => {
                proof {
                    lemma_val(MalVal::Lambda(lam));
                }
                if lam.is_macro {
                    let rest = dup_range(l, 1, l.len());
                    match lam.apply(self, &rest, f) {
                        Ok(a) => Stepped::Continue(a, env),
                        Err(e) => Stepped::Done(Err(e)),
                    }
                } else {
                    match self.eval_seq(l, 1, env, f) {
                        Err(e) => Stepped::Done(Err(e)),
                        Ok(argv) => {
                            if lam.fits(&argv) {
                                let id = self.push_frame(lam.bind(argv.as_slice()));
                                Stepped::Continue(lam.get_ast(), id)
                            } else {
                                Stepped::Done(Err(panic_error()))
                            }
                        },
                    }
                }
            },
            Ok(other) => match self.text(&other) {
                Some(t) => {
                    let mut m = owned("try to call a non-function: ");
                    push_all(&mut m, t.as_str());
                    Stepped::Done(Err(MalError::Error(m)))
                },
                None => Stepped::Done(Err(panic_error())),
            },
        }
    }

    /// Calls the built-in `b` with the arguments `args` (see `call_builtin`).
    pub fn call_builtin(&mut self, b: Builtin, args: &Vec<MalVal>, f: u64) -> (r: MalReturn)
        ensures
            (final(self).view(), rv(r)) == call_builtin(old(self).view(), b, vals(args@), f as nat),
        decreases f, 1nat, 0nat,
    {
        match b {
            Builtin::Atom => {
                if args.len() != 1 {
                    return Err(error("atom expects one argument"));
                }
                let i = self.new_atom(args[0].dup());
                Ok(MalVal::Atom(i))
            },
            Builtin::Deref => {
                if args.len() != 1 {
                    return Err(error("deref expects one argument"));
                }
                match &args[0] {
                    MalVal::Atom(i) => Ok(self.atom_value(*i)),
                    _ => Err(error("deref expects an atom")),
                }
            },
            Builtin::Reset => {
                if args.len() != 2 {
                    return Err(error("reset! expects two arguments"));
                }
                match &args[0] {
                    MalVal::Atom(i) => {
                        self.set_atom(*i, args[1].dup());
                        Ok(args[1].dup())
                    },
                    _ => Err(error("reset! expects an atom")),
                }
            },
            Builtin::Swap => self.swap(args, f),
            Builtin::IsAtom => is_atom(args),
            Builtin::Concat => concat(args),
            Builtin::Cons => cons(args),
            Builtin::Count => count(args),
            Builtin::IsEmpty => is_empty(args),
            Builtin::First => first(args),
            Builtin::List => list(args),
            Builtin::IsList => is_list(args),
            Builtin::IsMacro => is_macro(args),
            Builtin::Nth => nth(args),
            Builtin::Rest => rest(args),
            Builtin::Vec => crate::builtins::core_fns::vec(args),
            Builtin::IsVector => is_vector(args),
            Builtin::Throw => throw(args),
            Builtin::Add => arith_call(b, args),
            Builtin::Sub => arith_call(b, args),
            Builtin::Mul => arith_call(b, args),
            Builtin::Div => arith_call(b, args),
            Builtin::PrStr => pr_str(self, args),
            Builtin::Str => str(self, args),
            Builtin::Prn => print_values(self, args, true),
            Builtin::Println => print_values(self, args, false),
            Builtin::ReadString => read_string(args),
            Builtin::Slurp => slurp(self, args),
            Builtin::TimeMs => time_ms(self, args),
            _ => match comparison(b, args, &self.atoms) {
                Some(x) => Ok(MalVal::Bool(x)),
                None => Err(panic_error()),
            },
        }
    }

    /// `(swap! a g x ...)`: `g` is applied to the contents of atom `a` and the
    /// other arguments, and the result stored in `a`.
    fn swap(&mut self, args: &Vec<MalVal>, f: u64) -> (r: MalReturn)
        ensures
            (final(self).view(), rv(r)) == call_builtin(old(self).view(), Builtin::Swap, vals(args@), f as nat),
        decreases f, 0nat, 1nat,
    {
        if args.len() < 2 {
            return Err(error("swap! expects at least two arguments"));
        }
        match &args[0] {
            MalVal::Atom(i) => {
                if f == 0 {
                    return Err(MalError::Halt(Halt::OutOfFuel));
                }
                let mut argv = dup_range(args, 2, args.len());
                let a = self.atom_value(*i);
                let ghost tail = vals(argv@);
                argv.insert(0, a);
                assert(vals(argv@) =~= seq![a.val()] + tail);
                match args[1].apply(self, &argv, f - 1) {
                    Ok(nv) => {
                        self.set_atom(*i, nv.dup());
                        Ok(nv)
                    },
                    Err(e) => Err(e),
                }
            },
            _ => Err(error("swap! expects an atom")),
        }
    }
}

/// Whether neighbouring arguments satisfy the comparison `b` (see `chain_holds`).
fn comparison(b: Builtin, args: &Vec<MalVal>, atoms: &Vec<MalVal>) -> (r: Option<bool>)
    ensures
        r == chain_holds(b, vals(args@), 0, vals(atoms@)),
{
    fn_cmp(b, args, atoms)
}

impl MalVal {
    /// Applies this value to `args` with at most `fuel` steps (see `apply_val`):
    /// a built-in runs, a lambda's body is evaluated in a new frame, anything else
    /// is an error.
    pub fn apply(&self, rt: &mut Runtime, args: &Vec<MalVal>, fuel: u64) -> (r: MalReturn)
        ensures
            (final(rt).view(), rv(r)) == apply_val(old(rt).view(), self.val(), vals(args@), fuel as nat),
        decreases fuel, 2nat, 1nat,
    {
        proof {
            lemma_val(*self);
        }
        match self {
            MalVal::Function(b) => rt.call_builtin(*b, args, fuel),
            MalVal::Lambda(l) => l.apply(rt, args, fuel),
            _ => Err(error("not a function")),
        }
    }
}

impl Lambda {
    /// Applies this lambda to `argv` with at most `fuel` steps: its body is
    /// evaluated in a new frame binding its parameters (see `apply_val`).
    pub fn apply(&self, rt: &mut Runtime, argv: &Vec<MalVal>, fuel: u64) -> (r: MalReturn)
        ensures
            (final(rt).view(), rv(r)) == apply_val(old(rt).view(), self.val(), vals(argv@), fuel as nat),
        decreases fuel, 2nat, 0nat,
    {
        if !self.fits(argv) {
            return Err(panic_error());
        }
        let id = rt.push_frame(self.bind(argv.as_slice()));
        rt.evaluate(self.get_ast(), id, fuel)
    }
}

/// Evaluating the outcome of reading: an error is passed on, a form is evaluated.
pub open spec fn eval_spec(st: St, input: Res, env: usize, fuel: nat) -> (St, Res) {
    match input {
        Ok(v) => ev(st, v, env, fuel),
        Err(e) => (st, Err(e)),
    }
}

/// Evaluates the outcome of reading in frame `env` of `rt` with at most `fuel`
/// steps: an error is returned as it is, a form is evaluated (see `ev`).
pub fn eval(input: MalReturn, env: usize, rt: &mut Runtime, fuel: u64) -> (r: MalReturn)
    ensures
        (final(rt).view(), rv(r)) == eval_spec(old(rt).view(), rv(input), env, fuel as nat),
{
    match input {
        Ok(ast) => rt.evaluate(ast, env, fuel),
        Err(e) => Err(e),
    }
}

} // verus!
