//! Properties that span several functions: evaluation keeps its frames and its
//! outcome does not depend on a larger step budget; a definition is found by a
//! later lookup; a `catch*` handler sees the frame of its `try*`; quoting,
//! quasiquoting and splicing, self-evaluation, atoms, `cons`, `nth`, equality of
//! sequences and parameter binding behave as the language promises; reading and
//! evaluating a line never ends the loop; the reader reads back what the printer
//! prints, from its tokens.
use crate::builtins::core_fns::{concat_from, cons_spec, count_spec, first_spec, nth_spec, rest_spec};
use crate::builtins::{is_sym, qq, qq_items};
use crate::evaluation::{
    apply_val, call_builtin, call_frame, catch_step, debug_on, ev, ev_do, ev_let, ev_map, ev_seq,
    form, let_bindings, step_call, step_def, step_defmacro, step_do, step_eval, step_if, step_let,
    step_list, step_quasiquote, step_quote, step_try, text_of, trace, Form, Step,
};
use crate::builtins::re_spec;
use crate::printer::shown;
use crate::reader::{
    closer, key_of, read_str_spec, rf, rseq, seq_value, tokens_of, SeqKind,
    all_digits, atom_of, digits_value, has_str_literal, int_token, is_digit, str_body, token_int,
    unescape,
};
use crate::runtime::{push_frame, root_of, set_atom, set_sym, St};
use crate::text::{digit_char, int_text, nat_digits};
use crate::types::environment::{lookup, Frame};
use crate::types::error::{ErrV, HaltV, Res};
use crate::types::lambda::{bind_ok, bind_syms};
use crate::types::print::{escape, escape_char, is_kw, pr, pr_items, str_text};
use crate::types::{
    atom_get, distinct_keys, lemma_map_find, lemma_map_insert, map_eq, map_get, map_insert, seq_eq, val_eq, Builtin, Val,
};
use vstd::prelude::*;

verus! {

/// `b` keeps the frames and atom cells of `a`: none is removed and each frame
/// keeps its outer frame.
pub open spec fn keeps_frames(a: St, b: St) -> bool {
    &&& a.envs.len() <= b.envs.len()
    &&& forall|j: int| 0 <= j < a.envs.len() ==> #[trigger] b.envs[j].outer == a.envs[j].outer
    &&& a.atoms.len() <= b.atoms.len()
}

proof fn lemma_set_sym_keeps(st: St, id: usize, k: Seq<char>, v: Val)
    ensures
        keeps_frames(st, set_sym(st, id, k, v)),
{
}

proof fn lemma_push_keeps(st: St, f: Frame)
    ensures
        keeps_frames(st, push_frame(st, f)),
{
}

proof fn lemma_trace_keeps(st: St, ast: Val, env: usize)
    ensures
        trace(st, ast, env) matches Some(s) ==> s.envs == st.envs,
{
}

/// Evaluation keeps the frames and atom cells of the state it starts in.
pub proof fn lemma_ev_keeps(st: St, ast: Val, env: usize, fuel: nat)
    ensures
        keeps_frames(st, ev(st, ast, env, fuel).0),
    decreases fuel, 0nat, 0nat,
{
    if fuel > 0 {
        let f = (fuel - 1) as nat;
        lemma_trace_keeps(st, ast, env);
        match trace(st, ast, env) {
            None => {},
            Some(st1) => match ast {
                Val::Vector(items) => {
                    lemma_ev_seq_keeps(st1, items, 0, Seq::empty(), env, f);
                },
                Val::Hashmap(es) => {
                    lemma_ev_map_keeps(st1, es, 0, Seq::empty(), env, f);
                },
                Val::List(l) => if l.len() > 0 {
                    lemma_step_list_keeps(st1, l, env, f);
                    let (s2, step) = step_list(st1, l, env, f);
                    match step {
                        Step::Done(_) => {},
                        Step::Continue(a, e) => {
                            lemma_ev_keeps(s2, a, e, f);
                        },
                    }
                },
                _ => {},
            },
        }
    }
}

proof fn lemma_ev_seq_keeps(st: St, items: Seq<Val>, i: nat, acc: Seq<Val>, env: usize, f: nat)
    ensures
        keeps_frames(st, ev_seq(st, items, i, acc, env, f).0),
    decreases f, 1nat, items.len() - i,
{
    if i < items.len() {
        lemma_ev_keeps(st, items[i as int], env, f);
        let (s1, r) = ev(st, items[i as int], env, f);
        match r {
            Ok(v) => {
                lemma_ev_seq_keeps(s1, items, i + 1, acc.push(v), env, f);
            },
            Err(_) => {},
        }
    }
}

proof fn lemma_ev_map_keeps(
    st: St,
    es: Seq<(Seq<char>, Val)>,
    i: nat,
    acc: Seq<(Seq<char>, Val)>,
    env: usize,
    f: nat,
)
    ensures
        keeps_frames(st, ev_map(st, es, i, acc, env, f).0),
    decreases f, 1nat, es.len() - i,
{
    if i < es.len() {
        lemma_ev_keeps(st, es[i as int].1, env, f);
        let (s1, r) = ev(st, es[i as int].1, env, f);
        match r {
            Ok(v) => {
                lemma_ev_map_keeps(s1, es, i + 1, map_insert(acc, es[i as int].0, v), env, f);
            },
            Err(_) => {},
        }
    }
}

proof fn lemma_ev_do_keeps(st: St, items: Seq<Val>, i: nat, end: nat, env: usize, f: nat)
    ensures
        keeps_frames(st, ev_do(st, items, i, end, env, f).0),
    decreases f, 1nat, end - i,
{
    if i < end && i < items.len() {
        lemma_ev_keeps(st, items[i as int], env, f);
        let (s1, r) = ev(st, items[i as int], env, f);
        match r {
            Ok(_) => {
                lemma_ev_do_keeps(s1, items, i + 1, end, env, f);
            },
            Err(_) => {},
        }
    }
}

proof fn lemma_ev_let_keeps(st: St, bs: Seq<Val>, i: nat, env: usize, f: nat)
    ensures
        keeps_frames(st, ev_let(st, bs, i, env, f).0),
    decreases f, 1nat, bs.len() - i,
{
    if i + 1 < bs.len() {
        lemma_ev_keeps(st, bs[i + 1 as int], env, f);
        let (s1, r) = ev(st, bs[i + 1 as int], env, f);
        match r {
            Ok(v) => match text_of(s1, bs[i as int]) {
                Some(k) => {
                    lemma_set_sym_keeps(s1, env, k, v);
                    lemma_ev_let_keeps(set_sym(s1, env, k, v), bs, i + 2, env, f);
                },
                None => {},
            },
            Err(_) => {},
        }
    }
}

proof fn lemma_apply_keeps(st: St, fv: Val, args: Seq<Val>, f: nat)
    ensures
        keeps_frames(st, apply_val(st, fv, args, f).0),
    decreases f, 2nat, 0nat,
{
    match fv {
        Val::Function(b) => {
            lemma_call_keeps(st, b, args, f);
        },
        Val::Lambda { ast, params, env, is_macro } => {
            if bind_ok(params, args, 0, false) {
                let s1 = push_frame(st, call_frame(params, args, env));
                lemma_push_keeps(st, call_frame(params, args, env));
                lemma_ev_keeps(s1, *ast, st.envs.len() as usize, f);
            }
        },
        _ => {},
    }
}

proof fn lemma_call_keeps(st: St, b: Builtin, args: Seq<Val>, f: nat)
    ensures
        keeps_frames(st, call_builtin(st, b, args, f).0),
    decreases f, 1nat, 0nat,
{
    match b {
        Builtin::Swap => {
            if args.len() >= 2 && args[0] is Atom && f > 0 {
                let i = args[0]->Atom_0;
                let fargs = seq![atom_get(st.atoms, i)] + args.subrange(2, args.len() as int);
                lemma_apply_keeps(st, args[1], fargs, (f - 1) as nat);
            }
        },
        _ => {},
    }
}

proof fn lemma_step_list_keeps(st: St, l: Seq<Val>, env: usize, f: nat)
    ensures
        keeps_frames(st, step_list(st, l, env, f).0),
    decreases f, 4nat, 0nat,
{
    match form(l[0]) {
        Form::Def => lemma_step_def_keeps(st, l, env, f),
        Form::DefMacro => lemma_step_defmacro_keeps(st, l, env, f),
        Form::Let => lemma_step_let_keeps(st, l, env, f),
        Form::Do => lemma_step_do_keeps(st, l, env, f),
        Form::If => lemma_step_if_keeps(st, l, env, f),
        Form::Eval => lemma_step_eval_keeps(st, l, env, f),
        Form::Try => lemma_step_try_keeps(st, l, env, f),
        Form::Call => lemma_step_call_keeps(st, l, env, f),
        _ => {},
    }
}

proof fn lemma_step_def_keeps(st: St, l: Seq<Val>, env: usize, f: nat)
    ensures
        keeps_frames(st, step_def(st, l, env, f).0),
    decreases f, 3nat, 0nat,
{
    if l.len() >= 3 {
        let root = root_of(st.envs, env);
        lemma_ev_keeps(st, l[2], root, f);
        let (s1, r) = ev(st, l[2], root, f);
        match r {
            Ok(v) => match text_of(s1, l[1]) {
                Some(k) => lemma_set_sym_keeps(s1, root, k, v),
                None => {},
            },
            Err(_) => {},
        }
    }
}

proof fn lemma_step_defmacro_keeps(st: St, l: Seq<Val>, env: usize, f: nat)
    ensures
        keeps_frames(st, step_defmacro(st, l, env, f).0),
    decreases f, 3nat, 0nat,
{
    if l.len() >= 3 {
        lemma_ev_keeps(st, l[2], env, f);
        let (s1, r) = ev(st, l[2], env, f);
        match r {
            Ok(Val::Lambda { ast, params, .. }) => {
                let m = Val::Lambda { ast, params, env, is_macro: true };
                match text_of(s1, l[1]) {
                    Some(k) => lemma_set_sym_keeps(s1, env, k, m),
                    None => {},
                }
            },
            _ => {},
        }
    }
}

proof fn lemma_step_let_keeps(st: St, l: Seq<Val>, env: usize, f: nat)
    ensures
        keeps_frames(st, step_let(st, l, env, f).0),
    decreases f, 3nat, 0nat,
{
    if l.len() >= 3 {
        match let_bindings(l[1]) {
            Some(bs) => {
                let fr = Frame { symbols: Seq::empty(), outer: Some(env) };
                lemma_push_keeps(st, fr);
                lemma_ev_let_keeps(push_frame(st, fr), bs, 0, st.envs.len() as usize, f);
            },
            None => {},
        }
    }
}

proof fn lemma_step_do_keeps(st: St, l: Seq<Val>, env: usize, f: nat)
    ensures
        keeps_frames(st, step_do(st, l, env, f).0),
    decreases f, 3nat, 0nat,
{
    lemma_ev_do_keeps(st, l, 1, (l.len() - 1) as nat, env, f);
}

proof fn lemma_step_if_keeps(st: St, l: Seq<Val>, env: usize, f: nat)
    ensures
        keeps_frames(st, step_if(st, l, env, f).0),
    decreases f, 3nat, 0nat,
{
    if l.len() >= 2 {
        lemma_ev_keeps(st, l[1], env, f);
    }
}

proof fn lemma_step_eval_keeps(st: St, l: Seq<Val>, env: usize, f: nat)
    ensures
        keeps_frames(st, step_eval(st, l, env, f).0),
    decreases f, 3nat, 0nat,
{
    if l.len() >= 2 {
        lemma_ev_keeps(st, l[1], env, f);
    }
}

proof fn lemma_catch_keeps(st: St, c: Val, exc: Val, env: usize)
    ensures
        keeps_frames(st, catch_step(st, c, exc, env).0),
{
}

proof fn lemma_step_try_keeps(st: St, l: Seq<Val>, env: usize, f: nat)
    ensures
        keeps_frames(st, step_try(st, l, env, f).0),
    decreases f, 3nat, 0nat,
{
    if l.len() >= 3 {
        lemma_ev_keeps(st, l[1], env, f);
        let (s1, r) = ev(st, l[1], env, f);
        match r {
            Err(ErrV::Exception(x)) => lemma_catch_keeps(s1, l[2], x, env),
            Err(ErrV::Error(m)) => lemma_catch_keeps(s1, l[2], Val::Str(m), env),
            _ => {},
        }
    }
}

proof fn lemma_step_call_keeps(st: St, l: Seq<Val>, env: usize, f: nat)
    ensures
        keeps_frames(st, step_call(st, l, env, f).0),
    decreases f, 3nat, 0nat,
{
    lemma_ev_keeps(st, l[0], env, f);
    let (s1, r) = ev(st, l[0], env, f);
    match r {
        Ok(Val::Function(b)) => {
            lemma_ev_seq_keeps(s1, l, 1, Seq::empty(), env, f);
            let (s2, ar) = ev_seq(s1, l, 1, Seq::empty(), env, f);
            match ar {
                Ok(argv) => lemma_call_keeps(s2, b, argv, f),
                Err(_) => {},
            }
        },
        Ok(Val::Lambda { ast, params, env: cenv, is_macro }) => if is_macro {
            lemma_apply_keeps(
                s1,
                Val::Lambda { ast, params, env: cenv, is_macro },
                l.subrange(1, l.len() as int),
                f,
            );
        } else {
            lemma_ev_seq_keeps(s1, l, 1, Seq::empty(), env, f);
            let (s2, ar) = ev_seq(s1, l, 1, Seq::empty(), env, f);
            match ar {
                Ok(argv) => lemma_push_keeps(s2, call_frame(params, argv, cenv)),
                Err(_) => {},
            }
        },
        _ => {},
    }
}

proof fn lemma_root_in_range(envs: Seq<Frame>, id: usize)
    requires
        id < envs.len(),
    ensures
        root_of(envs, id) < envs.len(),
    decreases id,
{
    match envs[id as int].outer {
        Some(j) => if j < id {
            lemma_root_in_range(envs, j);
        },
        None => {},
    }
}

/// A definition is found by a later lookup: after `(def! k x)` evaluated in
/// frame `env` gives a value, evaluating the symbol `k` in the outermost frame
/// around `env` gives that value.
pub proof fn law_define_then_lookup(st: St, k: Seq<char>, x: Val, env: usize, fuel: nat, fuel2: nat)
    requires
        env < st.envs.len(),
        fuel2 > 0,
        ev(st, Val::List(seq![Val::Symbol("def!"@), Val::Symbol(k), x]), env, fuel).1 is Ok,
    ensures
        ev(
            ev(st, Val::List(seq![Val::Symbol("def!"@), Val::Symbol(k), x]), env, fuel).0,
            Val::Symbol(k),
            root_of(st.envs, env),
            fuel2,
        ).1 == ev(st, Val::List(seq![Val::Symbol("def!"@), Val::Symbol(k), x]), env, fuel).1,
{
    let l = seq![Val::Symbol("def!"@), Val::Symbol(k), x];
    assert(fuel > 0);
    let f = (fuel - 1) as nat;
    lemma_trace_keeps(st, Val::List(l), env);
    assert(trace(st, Val::List(l), env) is Some);
    let st1 = trace(st, Val::List(l), env)->Some_0;
    assert(l[0] == Val::Symbol("def!"@));
    assert(form(l[0]) == Form::Def);
    assert(step_list(st1, l, env, f) == step_def(st1, l, env, f));
    let root = root_of(st.envs, env);
    assert(root_of(st1.envs, env) == root);
    lemma_root_in_range(st.envs, env);
    lemma_ev_keeps(st1, x, root, f);
    assert(l[2] == x && l[1] == Val::Symbol(k));
    let (s1, r) = ev(st1, x, root, f);
    assert(r is Ok);
    let v = r->Ok_0;
    assert(text_of(s1, Val::Symbol(k)) == Some(k));
    let s2 = set_sym(s1, root, k, v);
    assert(step_def(st1, l, env, f) == (s2, Step::Done(Ok::<Val, crate::types::error::ErrV>(v))));
    assert(ev(st, Val::List(l), env, fuel) == (s2, Ok::<Val, crate::types::error::ErrV>(v)));
    lemma_map_insert(s1.envs[root as int].symbols, k, v, k);
    assert(s2.envs[root as int].symbols == map_insert(s1.envs[root as int].symbols, k, v));
    assert(lookup(s2.envs, root as int, k) == Some(v));
    lemma_trace_keeps(s2, Val::Symbol(k), root);
    assert(trace(s2, Val::Symbol(k), root) is Some);
}

/// `(quote x)` gives `x` unevaluated; when tracing is off nothing else changes.
pub proof fn law_quote(st: St, x: Val, env: usize, fuel: nat)
    requires
        fuel > 0,
        !debug_on(st, env),
    ensures
        ev(st, Val::List(seq![Val::Symbol("quote"@), x]), env, fuel) == (st, Ok::<Val, ErrV>(x)),
{
    let l = seq![Val::Symbol("quote"@), x];
    reveal_strlit("quote");
    reveal_strlit("def!");
    reveal_strlit("defmacro!");
    reveal_strlit("let*");
    reveal_strlit("do");
    reveal_strlit("if");
    reveal_strlit("fn*");
    reveal_strlit("eval");
    assert(l[0] == Val::Symbol("quote"@));
    assert("quote"@.len() == 5);
    assert(!is_sym(l[0], "def!"@) && !is_sym(l[0], "defmacro!"@) && !is_sym(l[0], "let*"@));
    assert(!is_sym(l[0], "do"@) && !is_sym(l[0], "if"@) && !is_sym(l[0], "fn*"@) && !is_sym(l[0], "eval"@));
    assert(form(l[0]) == Form::Quote);
    assert(l[1] == x);
    assert(trace(st, Val::List(l), env) == Some(st));
    assert(step_list(st, l, env, (fuel - 1) as nat) == step_quote(st, l));
}

/// Nil, booleans, integers, strings, functions and atoms evaluate to
/// themselves; when tracing is off nothing else changes.
pub proof fn law_self_evaluating(st: St, v: Val, env: usize, fuel: nat)
    requires
        fuel > 0,
        !debug_on(st, env),
        v is Nil || v is Bool || v is Int || v is Str || v is Function || v is Lambda || v is Atom,
    ensures
        ev(st, v, env, fuel) == (st, Ok::<Val, ErrV>(v)),
{
}

/// `(deref (atom x))` is `x`; `(deref a)` after `(reset! a x)` is `x`.
pub proof fn law_atom_read_write(st: St, x: Val, i: usize, f: nat, g: nat)
    requires
        st.atoms.len() < usize::MAX,
    ensures
        call_builtin(st, Builtin::Atom, seq![x], f).1 == Ok::<Val, ErrV>(Val::Atom(st.atoms.len() as usize)),
        call_builtin(call_builtin(st, Builtin::Atom, seq![x], f).0, Builtin::Deref, seq![Val::Atom(st.atoms.len() as usize)], g).1
            == Ok::<Val, ErrV>(x),
        i < st.atoms.len() ==> call_builtin(
            call_builtin(st, Builtin::Reset, seq![Val::Atom(i), x], f).0,
            Builtin::Deref,
            seq![Val::Atom(i)],
            g,
        ).1 == Ok::<Val, ErrV>(x),
{
}

/// `(first (cons x s))` is `x`; `(rest (cons x s))` is the list of the items of
/// `s` when `x` is not `nil`; `(count (cons x s))` is one more than `(count s)`.
pub proof fn law_cons(x: Val, items: Seq<Val>, vector: bool)
    requires
        items.len() < i64::MAX,
    ensures
        ({
            let s = if vector { Val::Vector(items) } else { Val::List(items) };
            let c = cons_spec(seq![x, s])->Ok_0;
            &&& cons_spec(seq![x, s]) is Ok
            &&& first_spec(seq![c]) == Ok::<Val, ErrV>(x)
            &&& (!(x is Nil) ==> rest_spec(seq![c]) == Ok::<Val, ErrV>(Val::List(items)))
            &&& count_spec(seq![c])->Ok_0->Int_0 == count_spec(seq![s])->Ok_0->Int_0 + 1
        }),
{
    let s = if vector { Val::Vector(items) } else { Val::List(items) };
    let l = seq![x] + items;
    assert(l[0] == x);
    assert(l.subrange(1, l.len() as int) =~= items);
}

proof fn lemma_escape_prepend(c: char, s: Seq<char>)
    ensures
        escape(seq![c] + s) == escape_char(c) + escape(s),
    decreases s.len(),
{
    let t = seq![c] + s;
    if s.len() == 0 {
        assert(t =~= seq![c]);
        assert(t.drop_last() =~= Seq::<char>::empty());
        assert(t.last() == c);
        assert(escape(Seq::<char>::empty()) =~= Seq::<char>::empty());
        assert(escape(t) =~= escape_char(c));
    } else {
        assert(t.drop_last() =~= seq![c] + s.drop_last());
        assert(t.last() == s.last());
        lemma_escape_prepend(c, s.drop_last());
        assert(escape(t) =~= escape_char(c) + escape(s));
    }
}

/// Undoing escapes gives back the string that printing escaped.
pub proof fn lemma_unescape_escape(s: Seq<char>)
    ensures
        unescape(escape(s)) == s,
    decreases s.len(),
{
    if s.len() > 0 {
        let c = s[0];
        let rest = s.drop_first();
        assert(s =~= seq![c] + rest);
        lemma_escape_prepend(c, rest);
        lemma_unescape_escape(rest);
        let e = escape_char(c) + escape(rest);
        if c == '"' || c == '\n' || c == '\\' {
            assert(e.skip(2) =~= escape(rest));
            assert(unescape(e) =~= seq![c] + rest);
        } else {
            assert(e.drop_first() =~= escape(rest));
            assert(unescape(e) =~= seq![c] + rest);
        }
    }
}

proof fn lemma_str_body_escape(t: Seq<char>, j: int, s: Seq<char>)
    requires
        0 <= j <= t.len(),
        t.subrange(j, t.len() as int) == escape(s) + seq!['"'],
    ensures
        str_body(t, j),
    decreases s.len(),
{
    if s.len() == 0 {
        assert(escape(s) =~= Seq::<char>::empty());
        assert(t.subrange(j, t.len() as int).len() == 1);
        assert(t[j] == t.subrange(j, t.len() as int)[0]);
    } else {
        let c = s[0];
        let rest = s.drop_first();
        assert(s =~= seq![c] + rest);
        lemma_escape_prepend(c, rest);
        let tail = t.subrange(j, t.len() as int);
        assert(tail =~= escape_char(c) + (escape(rest) + seq!['"']));
        if c == '"' || c == '\n' || c == '\\' {
            assert(t[j] == tail[0]);
            assert(t[j + 1] == tail[1]);
            assert(t.subrange(j + 2, t.len() as int) =~= tail.skip(2));
            assert(tail.skip(2) =~= escape(rest) + seq!['"']);
            lemma_str_body_escape(t, j + 2, rest);
        } else {
            assert(t[j] == tail[0]);
            assert(t.subrange(j + 1, t.len() as int) =~= tail.skip(1));
            assert(tail.skip(1) =~= escape(rest) + seq!['"']);
            lemma_str_body_escape(t, j + 1, rest);
        }
    }
}

/// Whether `s` holds no character that printing escapes.
pub open spec fn no_escapes(s: Seq<char>) -> bool {
    forall|i: int| 0 <= i < s.len() ==> s[i] != '"' && s[i] != '\n' && s[i] != '\\'
}

proof fn lemma_escape_plain(s: Seq<char>)
    requires
        no_escapes(s),
    ensures
        escape(s) == s,
    decreases s.len(),
{
    if s.len() > 0 {
        assert(no_escapes(s.drop_last()));
        lemma_escape_plain(s.drop_last());
        assert(s.drop_last().push(s.last()) =~= s);
    }
}

proof fn lemma_no_literal(t: Seq<char>, i: int)
    requires
        forall|j: int| 0 <= j < t.len() ==> t[j] != '"',
    ensures
        !has_str_literal(t, i),
    decreases t.len() - i,
{
    if 0 <= i < t.len() {
        lemma_no_literal(t, i + 1);
    }
}

/// The reader gives back a string that the printer printed readably: the atom
/// of the printed text of a string is that string. For a keyword this holds when
/// its name has no character that printing escapes.
pub proof fn law_read_printed_string(s: Seq<char>)
    requires
        is_kw(s) ==> no_escapes(s.drop_first()),
    ensures
        pr(Val::Str(s), true, false, Seq::empty(), 0) == Some(str_text(s, true)),
        atom_of(str_text(s, true)) == Ok::<Val, ErrV>(Val::Str(s)),
{
    let t = str_text(s, true);
    reveal_strlit("nil");
    reveal_strlit("true");
    reveal_strlit("false");
    if is_kw(s) {
        let name = s.drop_first();
        lemma_escape_plain(name);
        assert(t == seq![':'] + name);
        assert(t[0] == ':');
        assert(t != "nil"@ && t != "true"@ && t != "false"@);
        assert(!is_digit(t[0]));
        assert(!int_token(t));
        assert forall|j: int| 0 <= j < t.len() implies t[j] != '"' by {
            if j > 0 {
                assert(t[j] == name[j - 1]);
            }
        }
        lemma_no_literal(t, 0);
        assert(t.drop_first() =~= name);
        assert(seq!['\u{29e}'] + name =~= s);
    } else {
        assert(t == seq!['"'] + escape(s) + seq!['"']);
        assert(t[0] == '"');
        assert(t != "nil"@ && t != "true"@ && t != "false"@);
        assert(!is_digit(t[0]));
        assert(!int_token(t));
        assert(t.subrange(1, t.len() as int) =~= escape(s) + seq!['"']);
        lemma_str_body_escape(t, 1, s);
        assert(has_str_literal(t, 0));
        assert(t.last() == '"');
        assert(t.subrange(1, t.len() - 1) =~= escape(s));
        lemma_unescape_escape(s);
    }
}

proof fn lemma_digit_char(d: nat)
    requires
        d < 10,
    ensures
        is_digit(digit_char(d)),
        digit_char(d) as int - '0' as int == d,
{
}

proof fn lemma_nat_digits(n: nat)
    ensures
        nat_digits(n).len() >= 1,
        all_digits(nat_digits(n)),
        digits_value(nat_digits(n)) == n,
    decreases n,
{
    if n < 10 {
        lemma_digit_char(n);
        let d = nat_digits(n);
        assert(d == seq![digit_char(n)]);
        assert(d.drop_last() =~= Seq::<char>::empty());
        assert(digits_value(d.drop_last()) == 0);
        assert(d.last() == digit_char(n));
        assert(digits_value(d) == digits_value(d.drop_last()) * 10 + (d.last() as int - '0' as int));
    } else {
        lemma_nat_digits(n / 10);
        lemma_digit_char(n % 10);
        let d = nat_digits(n);
        let p = nat_digits(n / 10);
        assert(d == p + seq![digit_char(n % 10)]);
        assert(d.drop_last() =~= p);
        assert(d.last() == digit_char(n % 10));
        assert forall|i: int| 0 <= i < d.len() implies is_digit(#[trigger] d[i]) by {
            if i < p.len() {
                assert(d[i] == p[i]);
            }
        }
        assert(digits_value(d) == digits_value(p) * 10 + (d.last() as int - '0' as int));
        assert(n == (n / 10) * 10 + n % 10);
    }
}

/// The reader gives back an integer that the printer printed: the atom of the
/// decimal text of `n` is `n`.
pub proof fn law_read_printed_int(n: i64)
    ensures
        pr(Val::Int(n), true, false, Seq::empty(), 0) == Some(int_text(n as int)),
        atom_of(int_text(n as int)) == Ok::<Val, ErrV>(Val::Int(n)),
{
    let t = int_text(n as int);
    reveal_strlit("nil");
    reveal_strlit("true");
    reveal_strlit("false");
    if n < 0 {
        let m = (-n) as nat;
        lemma_nat_digits(m);
        assert(t == seq!['-'] + nat_digits(m));
        assert(t.drop_first() =~= nat_digits(m));
        assert(t[0] == '-');
        assert(int_token(t));
        assert(token_int(t) == n);
    } else {
        lemma_nat_digits(n as nat);
        assert(t == nat_digits(n as nat));
        assert(is_digit(t[0]));
        assert(int_token(t));
        assert(token_int(t) == n);
    }
    assert(t != "nil"@ && t != "true"@ && t != "false"@);
}


/// A value made of nil, booleans, integers, strings and symbols by lists,
/// vectors and maps with distinct keys: no function, lambda or atom.
pub open spec fn plain(v: Val) -> bool
    decreases v, 0nat,
{
    match v {
        Val::List(l) => plain_items(l, 0),
        Val::Vector(l) => plain_items(l, 0),
        Val::Hashmap(es) => distinct_keys(es) && plain_entries(es, 0),
        Val::Function(_) => false,
        Val::Lambda { .. } => false,
        Val::Atom(_) => false,
        _ => true,
    }
}

/// Whether the items `l[i..]` are plain.
pub open spec fn plain_items(l: Seq<Val>, i: nat) -> bool
    decreases l, l.len() - i,
{
    if i >= l.len() {
        true
    } else {
        plain(l[i as int]) && plain_items(l, i + 1)
    }
}

/// Whether the values of the entries `es[i..]` are plain.
pub open spec fn plain_entries(es: Seq<(Seq<char>, Val)>, i: nat) -> bool
    decreases es, es.len() - i,
{
    if i >= es.len() {
        true
    } else {
        plain(es[i as int].1) && plain_entries(es, i + 1)
    }
}

/// Every plain value equals itself, whether atoms are compared by contents
/// (as `MalVal::equals` and `=` do) or by cell.
pub proof fn law_equal_to_itself(v: Val, atoms: Seq<Val>, k: nat, by_id: bool)
    requires
        plain(v),
    ensures
        val_eq(v, v, atoms, k, by_id) == Some(true),
    decreases v, 0nat,
{
    match v {
        Val::List(l) => lemma_items_equal(l, atoms, k, by_id, 0),
        Val::Vector(l) => lemma_items_equal(l, atoms, k, by_id, 0),
        Val::Hashmap(es) => lemma_entries_equal(es, atoms, k, by_id, 0),
        _ => {},
    }
}

proof fn lemma_items_equal(l: Seq<Val>, atoms: Seq<Val>, k: nat, by_id: bool, i: nat)
    requires
        plain_items(l, i),
    ensures
        seq_eq(l, l, atoms, k, by_id, i) == Some(true),
    decreases l, l.len() - i,
{
    if i < l.len() {
        law_equal_to_itself(l[i as int], atoms, k, by_id);
        lemma_items_equal(l, atoms, k, by_id, i + 1);
    }
}

proof fn lemma_entries_equal(es: Seq<(Seq<char>, Val)>, atoms: Seq<Val>, k: nat, by_id: bool, i: nat)
    requires
        distinct_keys(es),
        plain_entries(es, i),
    ensures
        map_eq(es, es, atoms, k, by_id, i) == Some(true),
    decreases es, es.len() - i,
{
    if i < es.len() {
        lemma_map_find(es, es[i as int].0);
        assert(map_get(es, es[i as int].0) == Some(es[i as int].1));
        law_equal_to_itself(es[i as int].1, atoms, k, by_id);
        lemma_entries_equal(es, atoms, k, by_id, i + 1);
    }
}

/// The outcome of running out of steps.
pub open spec fn spent(r: Res) -> bool {
    r == Err::<Val, ErrV>(ErrV::Halt(HaltV::OutOfFuel))
}

/// A step that ran out of steps.
pub open spec fn spent_step(s: Step) -> bool {
    s == Step::Done(Err::<Val, ErrV>(ErrV::Halt(HaltV::OutOfFuel)))
}

/// The step budget only bounds evaluation: an evaluation that finishes with
/// `fuel` steps gives the same state and outcome with any larger budget.
pub proof fn law_more_fuel_same_outcome(st: St, ast: Val, env: usize, fuel: nat, more: nat)
    requires
        fuel <= more,
        !spent(ev(st, ast, env, fuel).1),
    ensures
        ev(st, ast, env, more) == ev(st, ast, env, fuel),
    decreases fuel, 0nat, 0nat,
{
    let f = (fuel - 1) as nat;
    let g = (more - 1) as nat;
    match trace(st, ast, env) {
        None => {},
        Some(st1) => match ast {
            Val::Vector(items) => {
                lemma_ev_seq_mono(st1, items, 0, Seq::empty(), env, f, g);
            },
            Val::Hashmap(es) => {
                lemma_ev_map_mono(st1, es, 0, Seq::empty(), env, f, g);
            },
            Val::List(l) => if l.len() > 0 {
                let (s2, step) = step_list(st1, l, env, f);
                lemma_step_list_mono(st1, l, env, f, g);
                match step {
                    Step::Done(_) => {},
                    Step::Continue(a, e) => {
                        law_more_fuel_same_outcome(s2, a, e, f, g);
                    },
                }
            },
            _ => {},
        },
    }
}

proof fn lemma_ev_seq_mono(st: St, items: Seq<Val>, i: nat, acc: Seq<Val>, env: usize, f: nat, g: nat)
    requires
        f <= g,
        ev_seq(st, items, i, acc, env, f).1 != Err::<Seq<Val>, ErrV>(ErrV::Halt(HaltV::OutOfFuel)),
    ensures
        ev_seq(st, items, i, acc, env, g) == ev_seq(st, items, i, acc, env, f),
    decreases f, 1nat, items.len() - i,
{
    if i < items.len() {
        let (s1, r) = ev(st, items[i as int], env, f);
        law_more_fuel_same_outcome(st, items[i as int], env, f, g);
        match r {
            Ok(v) => {
                lemma_ev_seq_mono(s1, items, i + 1, acc.push(v), env, f, g);
            },
            Err(_) => {},
        }
    }
}

proof fn lemma_ev_map_mono(
    st: St,
    es: Seq<(Seq<char>, Val)>,
    i: nat,
    acc: Seq<(Seq<char>, Val)>,
    env: usize,
    f: nat,
    g: nat,
)
    requires
        f <= g,
        !spent(ev_map(st, es, i, acc, env, f).1),
    ensures
        ev_map(st, es, i, acc, env, g) == ev_map(st, es, i, acc, env, f),
    decreases f, 1nat, es.len() - i,
{
    if i < es.len() {
        let (s1, r) = ev(st, es[i as int].1, env, f);
        law_more_fuel_same_outcome(st, es[i as int].1, env, f, g);
        match r {
            Ok(v) => {
                lemma_ev_map_mono(s1, es, i + 1, map_insert(acc, es[i as int].0, v), env, f, g);
            },
            Err(_) => {},
        }
    }
}

proof fn lemma_ev_do_mono(st: St, items: Seq<Val>, i: nat, end: nat, env: usize, f: nat, g: nat)
    requires
        f <= g,
        !spent(ev_do(st, items, i, end, env, f).1),
    ensures
        ev_do(st, items, i, end, env, g) == ev_do(st, items, i, end, env, f),
    decreases f, 1nat, end - i,
{
    if i < end && i < items.len() {
        let (s1, r) = ev(st, items[i as int], env, f);
        law_more_fuel_same_outcome(st, items[i as int], env, f, g);
        match r {
            Ok(_) => {
                lemma_ev_do_mono(s1, items, i + 1, end, env, f, g);
            },
            Err(_) => {},
        }
    }
}

proof fn lemma_ev_let_mono(st: St, bs: Seq<Val>, i: nat, env: usize, f: nat, g: nat)
    requires
        f <= g,
        !spent(ev_let(st, bs, i, env, f).1),
    ensures
        ev_let(st, bs, i, env, g) == ev_let(st, bs, i, env, f),
    decreases f, 1nat, bs.len() - i,
{
    if i + 1 < bs.len() {
        let (s1, r) = ev(st, bs[i + 1 as int], env, f);
        law_more_fuel_same_outcome(st, bs[i + 1 as int], env, f, g);
        match r {
            Ok(v) => match text_of(s1, bs[i as int]) {
                Some(k) => {
                    lemma_ev_let_mono(set_sym(s1, env, k, v), bs, i + 2, env, f, g);
                },
                None => {},
            },
            Err(_) => {},
        }
    }
}

proof fn lemma_apply_mono(st: St, fv: Val, args: Seq<Val>, f: nat, g: nat)
    requires
        f <= g,
        !spent(apply_val(st, fv, args, f).1),
    ensures
        apply_val(st, fv, args, g) == apply_val(st, fv, args, f),
    decreases f, 2nat, 0nat,
{
    match fv {
        Val::Function(b) => {
            lemma_call_mono(st, b, args, f, g);
        },
        Val::Lambda { ast, params, env, is_macro } => {
            if bind_ok(params, args, 0, false) {
                law_more_fuel_same_outcome(
                    push_frame(st, call_frame(params, args, env)),
                    *ast,
                    st.envs.len() as usize,
                    f,
                    g,
                );
            }
        },
        _ => {},
    }
}

proof fn lemma_call_mono(st: St, b: Builtin, args: Seq<Val>, f: nat, g: nat)
    requires
        f <= g,
        !spent(call_builtin(st, b, args, f).1),
    ensures
        call_builtin(st, b, args, g) == call_builtin(st, b, args, f),
    decreases f, 1nat, 0nat,
{
    match b {
        Builtin::Swap => {
            if args.len() >= 2 && args[0] is Atom && f > 0 {
                let i = args[0]->Atom_0;
                let fargs = seq![atom_get(st.atoms, i)] + args.subrange(2, args.len() as int);
                lemma_apply_mono(st, args[1], fargs, (f - 1) as nat, (g - 1) as nat);
            }
        },
        _ => {},
    }
}

proof fn lemma_step_list_mono(st: St, l: Seq<Val>, env: usize, f: nat, g: nat)
    requires
        f <= g,
        !spent_step(step_list(st, l, env, f).1),
    ensures
        step_list(st, l, env, g) == step_list(st, l, env, f),
    decreases f, 4nat, 0nat,
{
    match form(l[0]) {
        Form::Def => lemma_step_def_mono(st, l, env, f, g),
        Form::DefMacro => lemma_step_defmacro_mono(st, l, env, f, g),
        Form::Let => lemma_step_let_mono(st, l, env, f, g),
        Form::Do => lemma_step_do_mono(st, l, env, f, g),
        Form::If => lemma_step_if_mono(st, l, env, f, g),
        Form::Eval => lemma_step_eval_mono(st, l, env, f, g),
        Form::Try => lemma_step_try_mono(st, l, env, f, g),
        Form::Call => lemma_step_call_mono(st, l, env, f, g),
        _ => {},
    }
}

proof fn lemma_step_def_mono(st: St, l: Seq<Val>, env: usize, f: nat, g: nat)
    requires
        f <= g,
        !spent_step(step_def(st, l, env, f).1),
    ensures
        step_def(st, l, env, g) == step_def(st, l, env, f),
    decreases f, 3nat, 0nat,
{
    if l.len() >= 3 {
        law_more_fuel_same_outcome(st, l[2], root_of(st.envs, env), f, g);
    }
}

proof fn lemma_step_defmacro_mono(st: St, l: Seq<Val>, env: usize, f: nat, g: nat)
    requires
        f <= g,
        !spent_step(step_defmacro(st, l, env, f).1),
    ensures
        step_defmacro(st, l, env, g) == step_defmacro(st, l, env, f),
    decreases f, 3nat, 0nat,
{
    if l.len() >= 3 {
        law_more_fuel_same_outcome(st, l[2], env, f, g);
    }
}

proof fn lemma_step_let_mono(st: St, l: Seq<Val>, env: usize, f: nat, g: nat)
    requires
        f <= g,
        !spent_step(step_let(st, l, env, f).1),
    ensures
        step_let(st, l, env, g) == step_let(st, l, env, f),
    decreases f, 3nat, 0nat,
{
    if l.len() >= 3 {
        match let_bindings(l[1]) {
            Some(bs) => {
                let fr = Frame { symbols: Seq::empty(), outer: Some(env) };
                lemma_ev_let_mono(push_frame(st, fr), bs, 0, st.envs.len() as usize, f, g);
            },
            None => {},
        }
    }
}

proof fn lemma_step_do_mono(st: St, l: Seq<Val>, env: usize, f: nat, g: nat)
    requires
        f <= g,
        !spent_step(step_do(st, l, env, f).1),
    ensures
        step_do(st, l, env, g) == step_do(st, l, env, f),
    decreases f, 3nat, 0nat,
{
    lemma_ev_do_mono(st, l, 1, (l.len() - 1) as nat, env, f, g);
}

proof fn lemma_step_if_mono(st: St, l: Seq<Val>, env: usize, f: nat, g: nat)
    requires
        f <= g,
        !spent_step(step_if(st, l, env, f).1),
    ensures
        step_if(st, l, env, g) == step_if(st, l, env, f),
    decreases f, 3nat, 0nat,
{
    if l.len() >= 2 {
        law_more_fuel_same_outcome(st, l[1], env, f, g);
    }
}

proof fn lemma_step_eval_mono(st: St, l: Seq<Val>, env: usize, f: nat, g: nat)
    requires
        f <= g,
        !spent_step(step_eval(st, l, env, f).1),
    ensures
        step_eval(st, l, env, g) == step_eval(st, l, env, f),
    decreases f, 3nat, 0nat,
{
    if l.len() >= 2 {
        law_more_fuel_same_outcome(st, l[1], env, f, g);
    }
}

proof fn lemma_step_try_mono(st: St, l: Seq<Val>, env: usize, f: nat, g: nat)
    requires
        f <= g,
        !spent_step(step_try(st, l, env, f).1),
    ensures
        step_try(st, l, env, g) == step_try(st, l, env, f),
    decreases f, 3nat, 0nat,
{
    if l.len() >= 3 {
        law_more_fuel_same_outcome(st, l[1], env, f, g);
    }
}

proof fn lemma_step_call_mono(st: St, l: Seq<Val>, env: usize, f: nat, g: nat)
    requires
        f <= g,
        !spent_step(step_call(st, l, env, f).1),
    ensures
        step_call(st, l, env, g) == step_call(st, l, env, f),
    decreases f, 3nat, 0nat,
{
    let (s1, r) = ev(st, l[0], env, f);
    law_more_fuel_same_outcome(st, l[0], env, f, g);
    match r {
        Ok(Val::Function(b)) => {
            let (s2, ar) = ev_seq(s1, l, 1, Seq::empty(), env, f);
            lemma_ev_seq_mono(s1, l, 1, Seq::empty(), env, f, g);
            match ar {
                Ok(argv) => lemma_call_mono(s2, b, argv, f, g),
                Err(_) => {},
            }
        },
        Ok(Val::Lambda { ast, params, env: cenv, is_macro }) => if is_macro {
            lemma_apply_mono(
                s1,
                Val::Lambda { ast, params, env: cenv, is_macro },
                l.subrange(1, l.len() as int),
                f,
                g,
            );
        } else {
            lemma_ev_seq_mono(s1, l, 1, Seq::empty(), env, f, g);
        },
        _ => {},
    }
}

/// Parameters that are symbols other than `&`, no two alike.
pub open spec fn simple_params(params: Seq<Val>) -> bool {
    &&& forall|i: int| 0 <= i < params.len() ==> (#[trigger] params[i] is Symbol && params[i]->Symbol_0 != "&"@)
    &&& forall|i: int, j: int| 0 <= i < j < params.len() ==> params[i] != params[j]
}

proof fn lemma_bind_key(params: Seq<Val>, argv: Seq<Val>, j: nat, syms: Seq<(Seq<char>, Val)>, key: Seq<char>)
    requires
        simple_params(params),
        params.len() <= argv.len(),
        j <= params.len(),
    ensures
        bind_ok(params, argv, j, false),
        (forall|i: int| j <= i < params.len() ==> params[i]->Symbol_0 != key) ==> map_get(
            bind_syms(params, argv, j, false, syms),
            key,
        ) == map_get(syms, key),
        forall|i: int|
            j <= i < params.len() && params[i]->Symbol_0 == key ==> map_get(
                bind_syms(params, argv, j, false, syms),
                key,
            ) == Some(argv[i]),
    decreases params.len() - j,
{
    if j < params.len() {
        let name = params[j as int]->Symbol_0;
        assert(params[j as int] is Symbol && name != "&"@);
        let next = map_insert(syms, name, argv[j as int]);
        lemma_bind_key(params, argv, j + 1, next, key);
        lemma_map_insert(syms, name, argv[j as int], key);
        assert(bind_syms(params, argv, j, false, syms) == bind_syms(params, argv, j + 1, false, next));
        if name == key {
            assert forall|i: int| j + 1 <= i < params.len() implies params[i]->Symbol_0 != key by {
                assert(params[j as int] != params[i]);
                assert(params[i] is Symbol);
            }
        }
    }
}

/// A call of a lambda with simple parameters and enough arguments binds each
/// parameter to the argument at its position.
pub proof fn law_bind_parameters(params: Seq<Val>, argv: Seq<Val>, i: int)
    requires
        simple_params(params),
        params.len() <= argv.len(),
        0 <= i < params.len(),
    ensures
        bind_ok(params, argv, 0, false),
        map_get(bind_syms(params, argv, 0, false, Seq::empty()), params[i]->Symbol_0) == Some(argv[i]),
{
    lemma_bind_key(params, argv, 0, Seq::empty(), params[i]->Symbol_0);
}

/// `(deref a)` after `(swap! a g x ...)` gives what `swap!` returned, the result
/// of applying `g` to the old contents and the other arguments.
pub proof fn law_swap_then_deref(st: St, i: usize, g: Val, rest: Seq<Val>, f: nat, f2: nat)
    requires
        i < st.atoms.len(),
        call_builtin(st, Builtin::Swap, seq![Val::Atom(i), g] + rest, f).1 is Ok,
    ensures
        call_builtin(
            call_builtin(st, Builtin::Swap, seq![Val::Atom(i), g] + rest, f).0,
            Builtin::Deref,
            seq![Val::Atom(i)],
            f2,
        ).1 == call_builtin(st, Builtin::Swap, seq![Val::Atom(i), g] + rest, f).1,
        call_builtin(st, Builtin::Swap, seq![Val::Atom(i), g] + rest, f) == ({
            let (s1, r) = apply_val(
                st,
                g,
                seq![atom_get(st.atoms, i)] + rest,
                (f - 1) as nat,
            );
            (set_atom(s1, i, r->Ok_0), r)
        }),
{
    let args = seq![Val::Atom(i), g] + rest;
    assert(args[0] == Val::Atom(i) && args[1] == g);
    assert(args.subrange(2, args.len() as int) =~= rest);
    let fargs = seq![atom_get(st.atoms, i)] + rest;
    lemma_apply_keeps(st, g, fargs, (f - 1) as nat);
}

/// Whether `v` holds no `(unquote x)` or `(splice-unquote x)`, looking through
/// lists and vectors.
pub open spec fn unquote_free(v: Val) -> bool
    decreases v, 0nat,
{
    match v {
        Val::List(l) => !(l.len() == 2 && (is_sym(l[0], "unquote"@) || is_sym(l[0], "splice-unquote"@)))
            && unquote_free_items(l, 0),
        Val::Vector(l) => unquote_free_items(l, 0),
        _ => true,
    }
}

/// Whether the items `l[i..]` are unquote-free.
pub open spec fn unquote_free_items(l: Seq<Val>, i: nat) -> bool
    decreases l, l.len() - i,
{
    if i >= l.len() {
        true
    } else {
        unquote_free(l[i as int]) && unquote_free_items(l, i + 1)
    }
}

/// Frame `env` sees `cons` and `vec` as those built-ins.
pub open spec fn qq_env(st: St, env: usize) -> bool {
    &&& lookup(st.envs, env as int, "cons"@) == Some(Val::Function(Builtin::Cons))
    &&& lookup(st.envs, env as int, "vec"@) == Some(Val::Function(Builtin::Vec))
}

/// `b` has the frames and atom cells of `a`; only the printed lines may differ.
pub open spec fn same_store(a: St, b: St) -> bool {
    a.envs == b.envs && a.atoms == b.atoms
}

/// Tracing `v` in frame `env` can print it: tracing is off, or its text ends.
pub open spec fn traceable(st: St, env: usize, v: Val) -> bool {
    debug_on(st, env) ==> text_of(st, v) is Some
}

/// The items `l[i..]` all have a text that ends.
pub open spec fn texts(st: St, l: Seq<Val>, i: nat) -> bool {
    forall|j: int| i <= j < l.len() ==> (#[trigger] text_of(st, l[j])) is Some
}

/// An evaluation from `st` that gives back `v`: it ran out of steps, or it gives
/// `v` keeping the frames and atom cells, and changes nothing when tracing is off.
pub open spec fn rebuilt(st: St, env: usize, v: Val, r: (St, Res)) -> bool {
    spent(r.1) || (r.1 == Ok::<Val, ErrV>(v) && same_store(st, r.0) && (!debug_on(st, env) ==> r.0 == st))
}

proof fn lemma_form_names()
    ensures
        form(Val::Symbol("cons"@)) == Form::Call,
        form(Val::Symbol("vec"@)) == Form::Call,
        form(Val::Symbol("quasiquote"@)) == Form::Quasiquote,
        form(Val::Symbol("quote"@)) == Form::Quote,
        form(Val::Symbol("concat"@)) == Form::Call,
{
    reveal_strlit("def!");
    reveal_strlit("defmacro!");
    reveal_strlit("let*");
    reveal_strlit("do");
    reveal_strlit("if");
    reveal_strlit("fn*");
    reveal_strlit("eval");
    reveal_strlit("quote");
    reveal_strlit("quasiquote");
    reveal_strlit("try*");
    reveal_strlit("cons");
    reveal_strlit("vec");
    assert("cons"@ != "def!"@) by { assert("cons"@[0] != "def!"@[0]); }
    assert("cons"@ != "defmacro!"@) by { assert("cons"@.len() != "defmacro!"@.len()); }
    assert("cons"@ != "let*"@) by { assert("cons"@[0] != "let*"@[0]); }
    assert("cons"@ != "do"@) by { assert("cons"@.len() != "do"@.len()); }
    assert("cons"@ != "if"@) by { assert("cons"@.len() != "if"@.len()); }
    assert("cons"@ != "fn*"@) by { assert("cons"@.len() != "fn*"@.len()); }
    assert("cons"@ != "eval"@) by { assert("cons"@[0] != "eval"@[0]); }
    assert("cons"@ != "quote"@) by { assert("cons"@.len() != "quote"@.len()); }
    assert("cons"@ != "quasiquote"@) by { assert("cons"@.len() != "quasiquote"@.len()); }
    assert("cons"@ != "try*"@) by { assert("cons"@[0] != "try*"@[0]); }
    assert("vec"@ != "def!"@) by { assert("vec"@.len() != "def!"@.len()); }
    assert("vec"@ != "defmacro!"@) by { assert("vec"@.len() != "defmacro!"@.len()); }
    assert("vec"@ != "let*"@) by { assert("vec"@.len() != "let*"@.len()); }
    assert("vec"@ != "do"@) by { assert("vec"@.len() != "do"@.len()); }
    assert("vec"@ != "if"@) by { assert("vec"@.len() != "if"@.len()); }
    assert("vec"@ != "fn*"@) by { assert("vec"@[0] != "fn*"@[0]); }
    assert("vec"@ != "eval"@) by { assert("vec"@.len() != "eval"@.len()); }
    assert("vec"@ != "quote"@) by { assert("vec"@.len() != "quote"@.len()); }
    assert("vec"@ != "quasiquote"@) by { assert("vec"@.len() != "quasiquote"@.len()); }
    assert("vec"@ != "try*"@) by { assert("vec"@.len() != "try*"@.len()); }
    assert("quasiquote"@ != "def!"@) by { assert("quasiquote"@.len() != "def!"@.len()); }
    assert("quasiquote"@ != "defmacro!"@) by { assert("quasiquote"@.len() != "defmacro!"@.len()); }
    assert("quasiquote"@ != "let*"@) by { assert("quasiquote"@.len() != "let*"@.len()); }
    assert("quasiquote"@ != "do"@) by { assert("quasiquote"@.len() != "do"@.len()); }
    assert("quasiquote"@ != "if"@) by { assert("quasiquote"@.len() != "if"@.len()); }
    assert("quasiquote"@ != "fn*"@) by { assert("quasiquote"@.len() != "fn*"@.len()); }
    assert("quasiquote"@ != "eval"@) by { assert("quasiquote"@.len() != "eval"@.len()); }
    assert("quasiquote"@ != "quote"@) by { assert("quasiquote"@.len() != "quote"@.len()); }
    assert("quote"@ != "def!"@) by { assert("quote"@.len() != "def!"@.len()); }
    assert("quote"@ != "defmacro!"@) by { assert("quote"@.len() != "defmacro!"@.len()); }
    assert("quote"@ != "let*"@) by { assert("quote"@.len() != "let*"@.len()); }
    assert("quote"@ != "do"@) by { assert("quote"@.len() != "do"@.len()); }
    assert("quote"@ != "if"@) by { assert("quote"@.len() != "if"@.len()); }
    assert("quote"@ != "fn*"@) by { assert("quote"@.len() != "fn*"@.len()); }
    assert("quote"@ != "eval"@) by { assert("quote"@.len() != "eval"@.len()); }
    reveal_strlit("concat");
    assert("concat"@ != "def!"@) by { assert("concat"@.len() != "def!"@.len()); }
    assert("concat"@ != "defmacro!"@) by { assert("concat"@.len() != "defmacro!"@.len()); }
    assert("concat"@ != "let*"@) by { assert("concat"@.len() != "let*"@.len()); }
    assert("concat"@ != "do"@) by { assert("concat"@.len() != "do"@.len()); }
    assert("concat"@ != "if"@) by { assert("concat"@.len() != "if"@.len()); }
    assert("concat"@ != "fn*"@) by { assert("concat"@.len() != "fn*"@.len()); }
    assert("concat"@ != "eval"@) by { assert("concat"@.len() != "eval"@.len()); }
    assert("concat"@ != "quote"@) by { assert("concat"@.len() != "quote"@.len()); }
    assert("concat"@ != "quasiquote"@) by { assert("concat"@.len() != "quasiquote"@.len()); }
    assert("concat"@ != "try*"@) by { assert("concat"@.len() != "try*"@.len()); }
}

proof fn lemma_pr_items(l: Seq<Val>, readably: bool, esc: bool, atoms: Seq<Val>, k: nat, n: nat)
    requires
        n <= l.len(),
    ensures
        (pr_items(l, readably, esc, atoms, k, n) is Some) <==> (forall|j: int|
            0 <= j < n ==> (#[trigger] pr(l[j], readably, esc, atoms, k)) is Some),
    decreases n,
{
    if n > 0 {
        lemma_pr_items(l, readably, esc, atoms, k, (n - 1) as nat);
        let whole = pr_items(l, readably, esc, atoms, k, n);
        let front = pr_items(l, readably, esc, atoms, k, (n - 1) as nat);
        let last = pr(l[n - 1], readably, esc, atoms, k);
        assert((whole is Some) == (front is Some && last is Some));
        if forall|j: int| 0 <= j < n ==> (#[trigger] pr(l[j], readably, esc, atoms, k)) is Some {
            assert(last is Some);
            assert forall|j: int| 0 <= j < n - 1 implies (#[trigger] pr(l[j], readably, esc, atoms, k)) is Some by {
            }
        }
        if whole is Some {
            assert forall|j: int| 0 <= j < n implies (#[trigger] pr(l[j], readably, esc, atoms, k)) is Some by {
                if j < n - 1 {
                } else {
                    assert(j == n - 1);
                }
            }
        }
    }
}

proof fn lemma_list_text(st: St, l: Seq<Val>)
    ensures
        (text_of(st, Val::List(l)) is Some) <==> texts(st, l, 0),
        (text_of(st, Val::Vector(l)) is Some) <==> texts(st, l, 0),
{
    lemma_pr_items(l, true, false, st.atoms, st.atoms.len(), l.len());
    if texts(st, l, 0) {
        assert forall|j: int| 0 <= j < l.len() implies (#[trigger] pr(l[j], true, false, st.atoms, st.atoms.len())) is Some by {
            assert(text_of(st, l[j]) is Some);
        }
    }
    if text_of(st, Val::List(l)) is Some {
        assert forall|j: int| 0 <= j < l.len() implies (#[trigger] text_of(st, l[j])) is Some by {
            assert(pr(l[j], true, false, st.atoms, st.atoms.len()) is Some);
        }
    }
}

proof fn lemma_qq_text(st: St, v: Val)
    requires
        unquote_free(v),
        text_of(st, v) is Some,
    ensures
        text_of(st, qq(v)) is Some,
    decreases v, 0nat,
{
    match v {
        Val::Symbol(_) => {
            lemma_list_text(st, seq![Val::Symbol("quote"@), v]);
        },
        Val::Hashmap(_) => {
            lemma_list_text(st, seq![Val::Symbol("quote"@), v]);
        },
        Val::List(l) => {
            lemma_list_text(st, l);
            lemma_chain_text(st, l, 0);
        },
        Val::Vector(l) => {
            lemma_list_text(st, l);
            lemma_chain_text(st, l, 0);
            lemma_list_text(st, seq![Val::Symbol("vec"@), Val::List(qq_items(l, 0))]);
        },
        _ => {},
    }
}

proof fn lemma_chain_text(st: St, l: Seq<Val>, i: nat)
    requires
        unquote_free_items(l, i),
        i <= l.len(),
        texts(st, l, i),
    ensures
        text_of(st, Val::List(qq_items(l, i))) is Some,
    decreases l, l.len() - i,
{
    if i == l.len() {
        lemma_list_text(st, qq_items(l, i));
    } else {
        let x = l[i as int];
        assert(text_of(st, x) is Some);
        assert(unquote_free(x));
        assert(!(x matches Val::List(s) && s.len() == 2 && is_sym(s[0], "splice-unquote"@)));
        lemma_qq_text(st, x);
        lemma_chain_text(st, l, i + 1);
        let e = qq_items(l, i);
        assert(e == seq![Val::Symbol("cons"@), qq(x), Val::List(qq_items(l, i + 1))]);
        lemma_list_text(st, e);
    }
}

proof fn lemma_trace_store(st: St, ast: Val, env: usize)
    requires
        traceable(st, env, ast),
    ensures
        trace(st, ast, env) matches Some(s1) && same_store(st, s1) && (!debug_on(st, env) ==> s1 == st),
{
}

proof fn lemma_qq_value(st: St, v: Val, env: usize, fuel: nat)
    requires
        unquote_free(v),
        qq_env(st, env),
        traceable(st, env, v),
    ensures
        rebuilt(st, env, v, ev(st, qq(v), env, fuel)),
    decreases v, 0nat,
{
    lemma_form_names();
    if fuel > 0 {
        let f = (fuel - 1) as nat;
        if debug_on(st, env) {
            lemma_qq_text(st, v);
        }
        match v {
            Val::Symbol(_) => {
                let l = seq![Val::Symbol("quote"@), v];
                lemma_trace_store(st, qq(v), env);
                let s1 = trace(st, qq(v), env)->Some_0;
                assert(l[0] == Val::Symbol("quote"@) && l[1] == v);
                assert(step_list(s1, l, env, f) == step_quote(s1, l));
            },
            Val::Hashmap(_) => {
                let l = seq![Val::Symbol("quote"@), v];
                lemma_trace_store(st, qq(v), env);
                let s1 = trace(st, qq(v), env)->Some_0;
                assert(l[0] == Val::Symbol("quote"@) && l[1] == v);
                assert(step_list(s1, l, env, f) == step_quote(s1, l));
            },
            Val::List(l) => {
                lemma_list_text(st, l);
                lemma_qq_chain(st, l, 0, env, fuel);
                assert(l.subrange(0, l.len() as int) =~= l);
            },
            Val::Vector(l) => {
                lemma_list_text(st, l);
                let c = Val::List(qq_items(l, 0));
                let e = seq![Val::Symbol("vec"@), c];
                lemma_trace_store(st, qq(v), env);
                let s1 = trace(st, qq(v), env)->Some_0;
                assert(e[0] == Val::Symbol("vec"@) && e[1] == c);
                assert(step_list(s1, e, env, f) == step_call(s1, e, env, f));
                if f > 0 {
                    let g = (f - 1) as nat;
                    lemma_trace_store(s1, Val::Symbol("vec"@), env);
                    let s2 = trace(s1, Val::Symbol("vec"@), env)->Some_0;
                    assert(ev(s1, Val::Symbol("vec"@), env, f) == (s2, Ok::<Val, ErrV>(Val::Function(Builtin::Vec))));
                    if debug_on(st, env) {
                        assert forall|j: int| 0 <= j < l.len() implies (#[trigger] text_of(s2, l[j])) is Some by {
                            assert(text_of(st, l[j]) is Some);
                        }
                    }
                    lemma_qq_chain(s2, l, 0, env, f);
                    assert(l.subrange(0, l.len() as int) =~= l);
                    let (s3, r3) = ev(s2, c, env, f);
                    if !spent(r3) {
                        assert(Seq::<Val>::empty().push(Val::List(l)) == seq![Val::List(l)]);
                        assert(ev_seq(s2, e, 1, Seq::empty(), env, f) == ev_seq(s3, e, 2, seq![Val::List(l)], env, f));
                        assert(ev_seq(s3, e, 2, seq![Val::List(l)], env, f) == (s3, Ok::<Seq<Val>, ErrV>(seq![Val::List(l)])));
                    } else {
                        assert(ev_seq(s2, e, 1, Seq::empty(), env, f).1 == Err::<Seq<Val>, ErrV>(ErrV::Halt(HaltV::OutOfFuel)));
                    }
                }
            },
            _ => {
                lemma_trace_store(st, v, env);
            },
        }
    }
}

proof fn lemma_qq_chain(st: St, l: Seq<Val>, i: nat, env: usize, fuel: nat)
    requires
        unquote_free_items(l, i),
        i <= l.len(),
        qq_env(st, env),
        debug_on(st, env) ==> texts(st, l, i),
    ensures
        rebuilt(st, env, Val::List(l.subrange(i as int, l.len() as int)), ev(st, Val::List(qq_items(l, i)), env, fuel)),
    decreases l, l.len() - i,
{
    lemma_form_names();
    if fuel > 0 {
        let f = (fuel - 1) as nat;
        if debug_on(st, env) {
            lemma_chain_text(st, l, i);
        }
        lemma_trace_store(st, Val::List(qq_items(l, i)), env);
        let s1 = trace(st, Val::List(qq_items(l, i)), env)->Some_0;
        if i == l.len() {
            assert(qq_items(l, i) =~= Seq::<Val>::empty());
            assert(l.subrange(i as int, l.len() as int) =~= Seq::<Val>::empty());
        } else {
            let x = l[i as int];
            let rest = Val::List(qq_items(l, i + 1));
            let sub = Val::List(l.subrange(i + 1 as int, l.len() as int));
            assert(unquote_free(x));
            assert(!(x matches Val::List(s) && s.len() == 2 && is_sym(s[0], "splice-unquote"@)));
            let e = qq_items(l, i);
            assert(e == seq![Val::Symbol("cons"@), qq(x), rest]);
            assert(e[0] == Val::Symbol("cons"@) && e[1] == qq(x) && e[2] == rest);
            assert(step_list(s1, e, env, f) == step_call(s1, e, env, f));
            if f > 0 {
                lemma_trace_store(s1, Val::Symbol("cons"@), env);
                let s2 = trace(s1, Val::Symbol("cons"@), env)->Some_0;
                assert(ev(s1, Val::Symbol("cons"@), env, f) == (s2, Ok::<Val, ErrV>(Val::Function(Builtin::Cons))));
                if debug_on(st, env) {
                    assert(text_of(st, x) is Some);
                }
                lemma_qq_value(s2, x, env, f);
                let (s3, r3) = ev(s2, qq(x), env, f);
                if !spent(r3) {
                    if debug_on(st, env) {
                        assert forall|j: int| i + 1 <= j < l.len() implies (#[trigger] text_of(s3, l[j])) is Some by {
                            assert(text_of(st, l[j]) is Some);
                        }
                    }
                    lemma_qq_chain(s3, l, i + 1, env, f);
                    let (s4, r4) = ev(s3, rest, env, f);
                    assert(Seq::<Val>::empty().push(x) == seq![x]);
                    assert(ev_seq(s2, e, 1, Seq::empty(), env, f) == ev_seq(s3, e, 2, seq![x], env, f));
                    if !spent(r4) {
                        assert(seq![x].push(sub) == seq![x, sub]);
                        assert(ev_seq(s3, e, 2, seq![x], env, f) == ev_seq(s4, e, 3, seq![x, sub], env, f));
                        assert(ev_seq(s4, e, 3, seq![x, sub], env, f) == (s4, Ok::<Seq<Val>, ErrV>(seq![x, sub])));
                        assert(seq![x] + l.subrange(i + 1 as int, l.len() as int) =~= l.subrange(i as int, l.len() as int));
                    } else {
                        assert(ev_seq(s3, e, 2, seq![x], env, f).1 == Err::<Seq<Val>, ErrV>(ErrV::Halt(HaltV::OutOfFuel)));
                    }
                } else {
                    assert(ev_seq(s2, e, 1, Seq::empty(), env, f).1 == Err::<Seq<Val>, ErrV>(ErrV::Halt(HaltV::OutOfFuel)));
                }
            }
        }
    }
}

/// Evaluating the quasiquote expansion of a form with no `unquote` or
/// `splice-unquote` in it rebuilds the form, in any frame where `cons` and `vec`
/// are the built-ins; so does evaluating `(quasiquote form)`. This holds unless
/// the step budget runs out, or tracing is on and the form's text never ends
/// (an atom that holds itself). Frames and atom cells stay as they were; with
/// tracing off nothing changes at all.
pub proof fn law_quasiquote_rebuilds(st: St, v: Val, env: usize, fuel: nat)
    requires
        unquote_free(v),
        qq_env(st, env),
        traceable(st, env, v),
    ensures
        rebuilt(st, env, v, ev(st, qq(v), env, fuel)),
        rebuilt(st, env, v, ev(st, Val::List(seq![Val::Symbol("quasiquote"@), v]), env, fuel)),
{
    lemma_qq_value(st, v, env, fuel);
    lemma_form_names();
    let l = seq![Val::Symbol("quasiquote"@), v];
    if fuel > 0 {
        let f = (fuel - 1) as nat;
        lemma_list_text(st, l);
        if debug_on(st, env) {
            assert(text_of(st, l[0]) is Some && l[1] == v);
        }
        lemma_trace_store(st, Val::List(l), env);
        let s1 = trace(st, Val::List(l), env)->Some_0;
        lemma_qq_value(s1, v, env, f);
        assert(l[0] == Val::Symbol("quasiquote"@) && l[1] == v);
        assert(step_list(s1, l, env, f) == step_quasiquote(s1, l, env));
    }
}

/// An outcome that is not one of the errors of reading the input line
/// (`Break`, `Readline`).
pub open spec fn no_input_error(r: Res) -> bool {
    match r {
        Err(ErrV::Break(_)) => false,
        Err(ErrV::Readline(_)) => false,
        _ => true,
    }
}

/// A step whose outcome, if it has one, is not an input error.
pub open spec fn step_no_input_error(s: Step) -> bool {
    match s {
        Step::Done(r) => no_input_error(r),
        Step::Continue(_, _) => true,
    }
}

/// A sequence outcome that is not an input error.
pub open spec fn seq_no_input_error(r: Result<Seq<Val>, ErrV>) -> bool {
    match r {
        Err(ErrV::Break(_)) => false,
        Err(ErrV::Readline(_)) => false,
        _ => true,
    }
}

proof fn lemma_rf_no_input_error(toks: Seq<Seq<char>>, pos: nat)
    ensures
        no_input_error(rf(toks, pos).1),
    decreases toks.len() - pos, 0nat,
{
    if pos < toks.len() {
        let t = toks[pos as int];
        if t == "'"@ {
            lemma_rf_no_input_error(toks, pos + 1);
        } else if t == "`"@ {
            lemma_rf_no_input_error(toks, pos + 1);
        } else if t == "~"@ {
            lemma_rf_no_input_error(toks, pos + 1);
        } else if t == "~@"@ {
            lemma_rf_no_input_error(toks, pos + 1);
        } else if t == "^"@ {
            lemma_rf_no_input_error(toks, pos + 1);
            let (p1, m) = rf(toks, pos + 1);
            if m is Ok && pos < p1 <= toks.len() {
                lemma_rf_no_input_error(toks, p1);
            }
        } else if t == "@"@ {
            lemma_rf_no_input_error(toks, pos + 1);
        } else if t == "("@ {
            lemma_rseq_no_input_error(toks, pos + 1, SeqKind::List, Seq::empty(), Seq::empty());
        } else if t == "["@ {
            lemma_rseq_no_input_error(toks, pos + 1, SeqKind::Vector, Seq::empty(), Seq::empty());
        } else if t == "{"@ {
            lemma_rseq_no_input_error(toks, pos + 1, SeqKind::Hashmap, Seq::empty(), Seq::empty());
        }
    }
}

proof fn lemma_concat_no_input_error(args: Seq<Val>, i: nat, acc: Seq<Val>)
    ensures
        no_input_error(concat_from(args, i, acc)),
    decreases args.len() - i,
{
    if i < args.len() {
        match args[i as int] {
            Val::List(x) => lemma_concat_no_input_error(args, i + 1, acc + x),
            Val::Vector(x) => lemma_concat_no_input_error(args, i + 1, acc + x),
            _ => {},
        }
    }
}

proof fn lemma_rseq_no_input_error(
    toks: Seq<Seq<char>>,
    pos: nat,
    kind: SeqKind,
    items: Seq<Val>,
    hm: Seq<(Seq<char>, Val)>,
)
    ensures
        no_input_error(rseq(toks, pos, kind, items, hm).1),
    decreases toks.len() - pos, 1nat,
{
    if pos < toks.len() && toks[pos as int] != closer(kind) {
        lemma_rf_no_input_error(toks, pos);
        let (p1, r) = rf(toks, pos);
        if r is Ok && pos < p1 <= toks.len() {
            if kind == SeqKind::Hashmap {
                lemma_rf_no_input_error(toks, p1);
                let (p2, vr) = rf(toks, p1);
                if vr is Ok && p1 < p2 <= toks.len() {
                    lemma_rseq_no_input_error(toks, p2, kind, items, map_insert(hm, key_of(r->Ok_0), vr->Ok_0));
                }
            } else {
                lemma_rseq_no_input_error(toks, p1, kind, items.push(r->Ok_0), hm);
            }
        }
    }
}

/// Reading a line never gives `Break` or `Readline`.
pub proof fn lemma_read_no_input_error(line: Seq<char>)
    ensures
        no_input_error(read_str_spec(line)),
{
    lemma_rf_no_input_error(tokens_of(line), 0);
}

proof fn lemma_ev_no_input_error(st: St, ast: Val, env: usize, fuel: nat)
    ensures
        no_input_error(ev(st, ast, env, fuel).1),
    decreases fuel, 0nat, 0nat,
{
    if fuel > 0 {
        let f = (fuel - 1) as nat;
        match trace(st, ast, env) {
            None => {},
            Some(st1) => match ast {
                Val::Vector(items) => {
                    lemma_ev_seq_no_input_error(st1, items, 0, Seq::empty(), env, f);
                },
                Val::Hashmap(es) => {
                    lemma_ev_map_no_input_error(st1, es, 0, Seq::empty(), env, f);
                },
                Val::List(l) => if l.len() > 0 {
                    lemma_step_list_no_input_error(st1, l, env, f);
                    let (s2, step) = step_list(st1, l, env, f);
                    match step {
                        Step::Done(_) => {},
                        Step::Continue(a, e) => {
                            lemma_ev_no_input_error(s2, a, e, f);
                        },
                    }
                },
                _ => {},
            },
        }
    }
}

proof fn lemma_ev_seq_no_input_error(st: St, items: Seq<Val>, i: nat, acc: Seq<Val>, env: usize, f: nat)
    ensures
        seq_no_input_error(ev_seq(st, items, i, acc, env, f).1),
    decreases f, 1nat, items.len() - i,
{
    if i < items.len() {
        lemma_ev_no_input_error(st, items[i as int], env, f);
        let (s1, r) = ev(st, items[i as int], env, f);
        match r {
            Ok(v) => {
                lemma_ev_seq_no_input_error(s1, items, i + 1, acc.push(v), env, f);
            },
            Err(_) => {},
        }
    }
}

proof fn lemma_ev_map_no_input_error(
    st: St,
    es: Seq<(Seq<char>, Val)>,
    i: nat,
    acc: Seq<(Seq<char>, Val)>,
    env: usize,
    f: nat,
)
    ensures
        no_input_error(ev_map(st, es, i, acc, env, f).1),
    decreases f, 1nat, es.len() - i,
{
    if i < es.len() {
        let (s1, r) = ev(st, es[i as int].1, env, f);
        match r {
            Ok(v) => {
                lemma_ev_map_no_input_error(s1, es, i + 1, map_insert(acc, es[i as int].0, v), env, f);
            },
            Err(_) => {},
        }
    }
}

proof fn lemma_ev_do_no_input_error(st: St, items: Seq<Val>, i: nat, end: nat, env: usize, f: nat)
    ensures
        no_input_error(ev_do(st, items, i, end, env, f).1),
    decreases f, 1nat, end - i,
{
    if i < end && i < items.len() {
        lemma_ev_no_input_error(st, items[i as int], env, f);
        let (s1, r) = ev(st, items[i as int], env, f);
        match r {
            Ok(_) => {
                lemma_ev_do_no_input_error(s1, items, i + 1, end, env, f);
            },
            Err(_) => {},
        }
    }
}

proof fn lemma_ev_let_no_input_error(st: St, bs: Seq<Val>, i: nat, env: usize, f: nat)
    ensures
        no_input_error(ev_let(st, bs, i, env, f).1),
    decreases f, 1nat, bs.len() - i,
{
    if i + 1 < bs.len() {
        lemma_ev_no_input_error(st, bs[i + 1 as int], env, f);
        let (s1, r) = ev(st, bs[i + 1 as int], env, f);
        match r {
            Ok(v) => match text_of(s1, bs[i as int]) {
                Some(k) => {
                    lemma_ev_let_no_input_error(set_sym(s1, env, k, v), bs, i + 2, env, f);
                },
                None => {},
            },
            Err(_) => {},
        }
    }
}

proof fn lemma_apply_no_input_error(st: St, fv: Val, args: Seq<Val>, f: nat)
    ensures
        no_input_error(apply_val(st, fv, args, f).1),
    decreases f, 2nat, 0nat,
{
    match fv {
        Val::Function(b) => {
            lemma_call_no_input_error(st, b, args, f);
        },
        Val::Lambda { ast, params, env, is_macro } => {
            if bind_ok(params, args, 0, false) {
                lemma_ev_no_input_error(
                    push_frame(st, call_frame(params, args, env)),
                    *ast,
                    st.envs.len() as usize,
                    f,
                );
            }
        },
        _ => {},
    }
}

proof fn lemma_call_no_input_error(st: St, b: Builtin, args: Seq<Val>, f: nat)
    ensures
        no_input_error(call_builtin(st, b, args, f).1),
    decreases f, 1nat, 0nat,
{
    match b {
        Builtin::Swap => {
            if args.len() >= 2 && args[0] is Atom && f > 0 {
                let i = args[0]->Atom_0;
                let fargs = seq![atom_get(st.atoms, i)] + args.subrange(2, args.len() as int);
                lemma_apply_no_input_error(st, args[1], fargs, (f - 1) as nat);
            }
        },
        Builtin::ReadString => {
            if args.len() == 1 && args[0] is Str {
                lemma_read_no_input_error(args[0]->Str_0);
            }
        },
        Builtin::Concat => lemma_concat_no_input_error(args, 0, Seq::empty()),
        _ => {},
    }
}

proof fn lemma_step_list_no_input_error(st: St, l: Seq<Val>, env: usize, f: nat)
    ensures
        step_no_input_error(step_list(st, l, env, f).1),
    decreases f, 4nat, 0nat,
{
    match form(l[0]) {
        Form::Def => {
            if l.len() >= 3 {
                lemma_ev_no_input_error(st, l[2], root_of(st.envs, env), f);
            }
            assert(step_list(st, l, env, f) == step_def(st, l, env, f));
        },
        Form::DefMacro => {
            if l.len() >= 3 {
                lemma_ev_no_input_error(st, l[2], env, f);
            }
            assert(step_list(st, l, env, f) == step_defmacro(st, l, env, f));
        },
        Form::Let => {
            if l.len() >= 3 {
                match let_bindings(l[1]) {
                    Some(bs) => {
                        let fr = Frame { symbols: Seq::empty(), outer: Some(env) };
                        lemma_ev_let_no_input_error(push_frame(st, fr), bs, 0, st.envs.len() as usize, f);
                    },
                    None => {},
                }
            }
            assert(step_list(st, l, env, f) == step_let(st, l, env, f));
        },
        Form::Do => {
            lemma_ev_do_no_input_error(st, l, 1, (l.len() - 1) as nat, env, f);
            assert(step_list(st, l, env, f) == step_do(st, l, env, f));
        },
        Form::If => {
            if l.len() >= 2 {
                lemma_ev_no_input_error(st, l[1], env, f);
            }
            assert(step_list(st, l, env, f) == step_if(st, l, env, f));
        },
        Form::Eval => {
            if l.len() >= 2 {
                lemma_ev_no_input_error(st, l[1], env, f);
            }
            assert(step_list(st, l, env, f) == step_eval(st, l, env, f));
        },
        Form::Try => {
            assert(step_list(st, l, env, f) == step_try(st, l, env, f));
        },
        Form::Call => {
            lemma_step_call_no_input_error(st, l, env, f);
        },
        _ => {},
    }
}

proof fn lemma_step_call_no_input_error(st: St, l: Seq<Val>, env: usize, f: nat)
    ensures
        step_no_input_error(step_call(st, l, env, f).1),
    decreases f, 3nat, 0nat,
{
    lemma_ev_no_input_error(st, l[0], env, f);
    let (s1, r) = ev(st, l[0], env, f);
    match r {
        Ok(Val::Function(b)) => {
            lemma_ev_seq_no_input_error(s1, l, 1, Seq::empty(), env, f);
            let (s2, ar) = ev_seq(s1, l, 1, Seq::empty(), env, f);
            match ar {
                Ok(argv) => lemma_call_no_input_error(s2, b, argv, f),
                Err(_) => {},
            }
        },
        Ok(Val::Lambda { ast, params, env: cenv, is_macro }) => if is_macro {
            lemma_apply_no_input_error(
                s1,
                Val::Lambda { ast, params, env: cenv, is_macro },
                l.subrange(1, l.len() as int),
                f,
            );
        } else {
            lemma_ev_seq_no_input_error(s1, l, 1, Seq::empty(), env, f);
        },
        _ => {},
    }
}

/// Reading and evaluating a line never gives `Break` or `Readline`, so the
/// read-eval-print loop always goes on after it.
pub proof fn law_lines_keep_going(st: St, line: Seq<char>, env: usize, fuel: nat)
    ensures
        no_input_error(re_spec(st, line, env, fuel).1),
        match shown(re_spec(st, line, env, fuel).1, re_spec(st, line, env, fuel).0.atoms) {
            Some((_, go_on)) => go_on,
            None => true,
        },
{
    lemma_read_no_input_error(line);
    match read_str_spec(line) {
        Ok(v) => lemma_ev_no_input_error(st, v, env, fuel),
        Err(_) => {},
    }
}

/// Whether `v` holds no atom, looking through lists, vectors and maps.
pub open spec fn atom_free(v: Val) -> bool
    decreases v, 0nat,
{
    match v {
        Val::List(l) => atom_free_items(l, 0),
        Val::Vector(l) => atom_free_items(l, 0),
        Val::Hashmap(es) => atom_free_entries(es, 0),
        Val::Atom(_) => false,
        _ => true,
    }
}

/// Whether the items `l[i..]` hold no atom.
pub open spec fn atom_free_items(l: Seq<Val>, i: nat) -> bool
    decreases l, l.len() - i,
{
    if i >= l.len() {
        true
    } else {
        atom_free(l[i as int]) && atom_free_items(l, i + 1)
    }
}

/// Whether the values of the entries `es[i..]` hold no atom.
pub open spec fn atom_free_entries(es: Seq<(Seq<char>, Val)>, i: nat) -> bool
    decreases es, es.len() - i,
{
    if i >= es.len() {
        true
    } else {
        atom_free(es[i as int].1) && atom_free_entries(es, i + 1)
    }
}

/// When `a` holds no atom, comparing atoms by cell and by contents (as
/// `MalVal::equals` and `=` do) give the same answer, whatever `b` and the store
/// are.
pub proof fn law_equalities_agree(a: Val, b: Val, atoms: Seq<Val>, k: nat, j: nat)
    requires
        atom_free(a),
    ensures
        val_eq(a, b, atoms, k, false) == val_eq(a, b, Seq::empty(), j, true),
    decreases a, 0nat,
{
    match (a, b) {
        (Val::List(x), Val::List(y)) => lemma_items_agree(x, y, atoms, k, j, 0),
        (Val::List(x), Val::Vector(y)) => lemma_items_agree(x, y, atoms, k, j, 0),
        (Val::Vector(x), Val::List(y)) => lemma_items_agree(x, y, atoms, k, j, 0),
        (Val::Vector(x), Val::Vector(y)) => lemma_items_agree(x, y, atoms, k, j, 0),
        (Val::Hashmap(x), Val::Hashmap(y)) => lemma_entries_agree(x, y, atoms, k, j, 0),
        _ => {},
    }
}

proof fn lemma_items_agree(x: Seq<Val>, y: Seq<Val>, atoms: Seq<Val>, k: nat, j: nat, i: nat)
    requires
        atom_free_items(x, i),
    ensures
        seq_eq(x, y, atoms, k, false, i) == seq_eq(x, y, Seq::empty(), j, true, i),
    decreases x, x.len() - i,
{
    if x.len() == y.len() && i < x.len() {
        law_equalities_agree(x[i as int], y[i as int], atoms, k, j);
        lemma_items_agree(x, y, atoms, k, j, i + 1);
    }
}

proof fn lemma_entries_agree(
    x: Seq<(Seq<char>, Val)>,
    y: Seq<(Seq<char>, Val)>,
    atoms: Seq<Val>,
    k: nat,
    j: nat,
    i: nat,
)
    requires
        atom_free_entries(x, i),
    ensures
        map_eq(x, y, atoms, k, false, i) == map_eq(x, y, Seq::empty(), j, true, i),
    decreases x, x.len() - i,
{
    if i < x.len() {
        match map_get(y, x[i as int].0) {
            Some(w) => {
                law_equalities_agree(x[i as int].1, w, atoms, k, j);
                lemma_entries_agree(x, y, atoms, k, j, i + 1);
            },
            None => {},
        }
    }
}

/// Whether `c` is a character with a meaning of its own to the reader (a
/// bracket, a quote, or a reader macro).
pub open spec fn reader_char(c: char) -> bool {
    c == '(' || c == ')' || c == '[' || c == ']' || c == '{' || c == '}' || c == '\'' || c == '`'
        || c == '~' || c == '^' || c == '@' || c == '"' || c == ':'
}

/// A symbol name that reads back as that symbol: no character with a meaning to
/// the reader, not `nil`, `true` or `false`, and not an integer literal.
pub open spec fn symbol_name_ok(s: Seq<char>) -> bool {
    &&& s.len() > 0
    &&& forall|i: int| 0 <= i < s.len() ==> !reader_char(#[trigger] s[i])
    &&& s != "nil"@ && s != "true"@ && s != "false"@
    &&& !int_token(s)
}

/// A value whose printed form reads back as the value: nil, booleans, integers,
/// strings (a keyword with a name that printing does not escape), symbols with
/// names as in `symbol_name_ok`, and lists and vectors of such values.
pub open spec fn readable(v: Val) -> bool
    decreases v, 0nat,
{
    match v {
        Val::Nil => true,
        Val::Bool(_) => true,
        Val::Int(_) => true,
        Val::Str(s) => is_kw(s) ==> no_escapes(s.drop_first()),
        Val::Symbol(s) => symbol_name_ok(s),
        Val::List(l) => readable_items(l, 0),
        Val::Vector(l) => readable_items(l, 0),
        _ => false,
    }
}

/// Whether the items `l[i..]` are readable.
pub open spec fn readable_items(l: Seq<Val>, i: nat) -> bool
    decreases l, l.len() - i,
{
    if i >= l.len() {
        true
    } else {
        readable(l[i as int]) && readable_items(l, i + 1)
    }
}

/// The tokens of the printed form of `v`: an atom is one token, its readable
/// text; a list or a vector is its brackets around the tokens of its items.
pub open spec fn print_tokens(v: Val) -> Seq<Seq<char>>
    decreases v, 0nat,
{
    match v {
        Val::List(l) => seq!["("@] + items_tokens(l, 0) + seq![")"@],
        Val::Vector(l) => seq!["["@] + items_tokens(l, 0) + seq!["]"@],
        _ => seq![pr(v, true, false, Seq::empty(), 0)->Some_0],
    }
}

/// The tokens of the items `l[i..]`, one after the other.
pub open spec fn items_tokens(l: Seq<Val>, i: nat) -> Seq<Seq<char>>
    decreases l, l.len() - i,
{
    if i >= l.len() {
        Seq::empty()
    } else {
        print_tokens(l[i as int]) + items_tokens(l, i + 1)
    }
}

proof fn lemma_print_tokens_nonempty(v: Val)
    ensures
        print_tokens(v).len() >= 1,
{
}

proof fn lemma_plain_token(t: Seq<char>)
    requires
        t.len() > 0,
        !reader_char(t[0]) || t[0] == '"' || t[0] == ':',
    ensures
        t != "'"@ && t != "`"@ && t != "~"@ && t != "~@"@ && t != "^"@ && t != "@"@ && t != "("@ && t
            != "["@ && t != "{"@ && t != "]"@ && t != ")"@ && t != "}"@,
{
    reveal_strlit("'");
    reveal_strlit("`");
    reveal_strlit("~");
    reveal_strlit("~@");
    reveal_strlit("^");
    reveal_strlit("@");
    reveal_strlit("(");
    reveal_strlit("[");
    reveal_strlit("{");
    reveal_strlit("]");
    reveal_strlit(")");
    reveal_strlit("}");
    reveal_strlit("nil");
    reveal_strlit("true");
    reveal_strlit("false");
    assert(t != "'"@) by { if t == "'"@ { assert(t[0] == "'"@[0]); } }
    assert(t != "`"@) by { if t == "`"@ { assert(t[0] == "`"@[0]); } }
    assert(t != "~"@) by { if t == "~"@ { assert(t[0] == "~"@[0]); } }
    assert(t != "~@"@) by { if t == "~@"@ { assert(t[0] == "~@"@[0]); } }
    assert(t != "^"@) by { if t == "^"@ { assert(t[0] == "^"@[0]); } }
    assert(t != "@"@) by { if t == "@"@ { assert(t[0] == "@"@[0]); } }
    assert(t != "("@) by { if t == "("@ { assert(t[0] == "("@[0]); } }
    assert(t != "["@) by { if t == "["@ { assert(t[0] == "["@[0]); } }
    assert(t != "{"@) by { if t == "{"@ { assert(t[0] == "{"@[0]); } }
    assert(t != "]"@) by { if t == "]"@ { assert(t[0] == "]"@[0]); } }
    assert(t != ")"@) by { if t == ")"@ { assert(t[0] == ")"@[0]); } }
    assert(t != "}"@) by { if t == "}"@ { assert(t[0] == "}"@[0]); } }
}

/// The reader reads an atom's printed token back as the atom.
proof fn lemma_atom_token(v: Val)
    requires
        readable(v),
        !(v is List) && !(v is Vector),
    ensures
        print_tokens(v)[0].len() > 0,
        !reader_char(print_tokens(v)[0][0]) || print_tokens(v)[0][0] == '"' || print_tokens(v)[0][0] == ':',
        atom_of(print_tokens(v)[0]) == Ok::<Val, ErrV>(v),
{
    reveal_strlit("nil");
    reveal_strlit("true");
    reveal_strlit("false");
    let t = print_tokens(v)[0];
    match v {
        Val::Nil => {
            assert(t == "nil"@);
        },
        Val::Bool(b) => {
            assert(t == "true"@ || t == "false"@);
        },
        Val::Int(n) => {
            law_read_printed_int(n);
            lemma_nat_digits(if n < 0 { (-n) as nat } else { n as nat });
            if n < 0 {
                assert(t[0] == '-');
            } else {
                assert(is_digit(t[0]));
            }
        },
        Val::Str(x) => {
            law_read_printed_string(x);
            if is_kw(x) {
                assert(t[0] == ':');
            } else {
                assert(t[0] == '"');
            }
        },
        Val::Symbol(x) => {
            assert(t == x);
            assert(!reader_char(x[0]));
            assert forall|j: int| 0 <= j < x.len() implies x[j] != '"' by {
                assert(!reader_char(x[j]));
            }
            lemma_no_literal(x, 0);
        },
        _ => {},
    }
}

proof fn lemma_read_tokens(toks: Seq<Seq<char>>, p: nat, v: Val)
    requires
        readable(v),
        p + print_tokens(v).len() <= toks.len(),
        toks.subrange(p as int, (p + print_tokens(v).len()) as int) == print_tokens(v),
    ensures
        rf(toks, p) == (p + print_tokens(v).len(), Ok::<Val, ErrV>(v)),
    decreases v, 1nat,
{
    reveal_strlit("'");
    reveal_strlit("`");
    reveal_strlit("~");
    reveal_strlit("~@");
    reveal_strlit("^");
    reveal_strlit("@");
    reveal_strlit("(");
    reveal_strlit("[");
    let n = print_tokens(v).len();
    assert(toks[p as int] == toks.subrange(p as int, (p + n) as int)[0]);
    match v {
        Val::List(l) => {
            let m = items_tokens(l, 0).len();
            assert(toks[p as int] == "("@);
            let pt = print_tokens(v);
            assert(pt == seq!["("@] + items_tokens(l, 0) + seq![")"@]);
            assert(pt.subrange(1, n as int) =~= items_tokens(l, 0) + seq![")"@]);
            assert(toks.subrange((p + 1) as int, (p + n) as int) =~= pt.subrange(1, n as int));
            lemma_read_items(toks, p + 1, l, 0, SeqKind::List);
            assert(l.subrange(0, 0) =~= Seq::<Val>::empty());
        },
        Val::Vector(l) => {
            assert(toks[p as int] == "["@);
            let pt = print_tokens(v);
            assert(pt == seq!["["@] + items_tokens(l, 0) + seq!["]"@]);
            assert(pt.subrange(1, n as int) =~= items_tokens(l, 0) + seq!["]"@]);
            assert(toks.subrange((p + 1) as int, (p + n) as int) =~= pt.subrange(1, n as int));
            lemma_read_items(toks, p + 1, l, 0, SeqKind::Vector);
            assert(l.subrange(0, 0) =~= Seq::<Val>::empty());
        },
        _ => {
            lemma_atom_token(v);
            lemma_plain_token(toks[p as int]);
        },
    }
}

proof fn lemma_read_items(toks: Seq<Seq<char>>, p: nat, l: Seq<Val>, i: nat, kind: SeqKind)
    requires
        readable_items(l, i),
        i <= l.len(),
        kind != SeqKind::Hashmap,
        p + items_tokens(l, i).len() + 1 <= toks.len(),
        toks.subrange(p as int, (p + items_tokens(l, i).len() + 1) as int) == items_tokens(l, i) + seq![closer(kind)],
    ensures
        rseq(toks, p, kind, l.subrange(0, i as int), Seq::empty()) == (
            p + items_tokens(l, i).len() + 1,
            Ok::<Val, ErrV>(seq_value(kind, l, Seq::empty())),
        ),
    decreases l, l.len() - i,
{
    reveal_strlit("(");
    reveal_strlit("[");
    reveal_strlit(")");
    reveal_strlit("]");
    let m = items_tokens(l, i).len();
    let sub = toks.subrange(p as int, (p + m + 1) as int);
    assert(toks[p as int] == sub[0]);
    if i == l.len() {
        assert(items_tokens(l, i) =~= Seq::<Seq<char>>::empty());
        assert(toks[p as int] == closer(kind));
        assert(l.subrange(0, i as int) =~= l);
    } else {
        let x = l[i as int];
        let n = print_tokens(x).len();
        lemma_print_tokens_nonempty(x);
        assert(items_tokens(l, i) == print_tokens(x) + items_tokens(l, i + 1));
        assert(toks.subrange(p as int, (p + n) as int) =~= sub.subrange(0, n as int));
        assert(sub.subrange(0, n as int) =~= print_tokens(x));
        lemma_read_tokens(toks, p, x);
        // the first token of an item is not a closing bracket
        assert(print_tokens(x)[0] == toks[p as int]);
        if x is List || x is Vector {
            assert(toks[p as int] == "("@ || toks[p as int] == "["@);
        } else {
            lemma_atom_token(x);
            lemma_plain_token(toks[p as int]);
        }
        assert(toks[p as int] != closer(kind));
        assert(toks.subrange((p + n) as int, (p + m + 1) as int) =~= sub.subrange(n as int, (m + 1) as int));
        assert(sub.subrange(n as int, (m + 1) as int) =~= items_tokens(l, i + 1) + seq![closer(kind)]);
        lemma_read_items(toks, p + n, l, i + 1, kind);
        assert(l.subrange(0, i as int).push(x) =~= l.subrange(0, i + 1 as int));
    }
}

/// The reader reads back what the printer prints: from the tokens of the
/// printed form of a readable value (followed by anything), the reader reads the
/// value and moves past exactly those tokens. That the tokenizer splits the
/// printed text into these tokens rests on its regular expression, which is
/// named, not stated.
pub proof fn law_read_printed_tokens(v: Val, rest: Seq<Seq<char>>)
    requires
        readable(v),
    ensures
        rf(print_tokens(v) + rest, 0) == (print_tokens(v).len(), Ok::<Val, ErrV>(v)),
{
    let toks = print_tokens(v) + rest;
    assert(toks.subrange(0, print_tokens(v).len() as int) =~= print_tokens(v));
    lemma_read_tokens(toks, 0, v);
}

proof fn lemma_items_eq(x: Seq<Val>, y: Seq<Val>, atoms: Seq<Val>, k: nat, by_id: bool, i: nat)
    requires
        x.len() == y.len(),
        i <= x.len(),
    ensures
        (seq_eq(x, y, atoms, k, by_id, i) == Some(true)) <==> (forall|j: int|
            i <= j < x.len() ==> #[trigger] val_eq(x[j], y[j], atoms, k, by_id) == Some(true)),
    decreases x.len() - i,
{
    if i < x.len() {
        lemma_items_eq(x, y, atoms, k, by_id, i + 1);
        if forall|j: int| i <= j < x.len() ==> #[trigger] val_eq(x[j], y[j], atoms, k, by_id) == Some(true) {
            assert(val_eq(x[i as int], y[i as int], atoms, k, by_id) == Some(true));
        }
        if seq_eq(x, y, atoms, k, by_id, i) == Some(true) {
            assert forall|j: int| i <= j < x.len() implies #[trigger] val_eq(x[j], y[j], atoms, k, by_id)
                == Some(true) by {
                if j > i {
                }
            }
        }
    }
}

/// Lists and vectors are equal exactly when they have the same length and the
/// items at each position are equal, whether each is a list or a vector.
pub proof fn law_sequences_equal(x: Seq<Val>, y: Seq<Val>, atoms: Seq<Val>, k: nat, by_id: bool)
    ensures
        (val_eq(Val::List(x), Val::List(y), atoms, k, by_id) == Some(true)) <==> (x.len() == y.len()
            && forall|j: int| 0 <= j < x.len() ==> #[trigger] val_eq(x[j], y[j], atoms, k, by_id) == Some(true)),
        val_eq(Val::Vector(x), Val::Vector(y), atoms, k, by_id) == val_eq(Val::List(x), Val::List(y), atoms, k, by_id),
        val_eq(Val::List(x), Val::Vector(y), atoms, k, by_id) == val_eq(Val::List(x), Val::List(y), atoms, k, by_id),
        val_eq(Val::Vector(x), Val::List(y), atoms, k, by_id) == val_eq(Val::List(x), Val::List(y), atoms, k, by_id),
{
    assert(val_eq(Val::List(x), Val::List(y), atoms, k, by_id) == seq_eq(x, y, atoms, k, by_id, 0));
    if x.len() == y.len() {
        lemma_items_eq(x, y, atoms, k, by_id, 0);
    } else {
        assert(seq_eq(x, y, atoms, k, by_id, 0) == Some(false));
    }
}

/// `(nth s i)` is the item at position `i` from the front: on a vector it is
/// the same as on a list with the same items; at 0 it is `(first s)`; at `i + 1`
/// it is `(nth (rest s) i)` when the first item is not `nil`; and it succeeds
/// exactly for `0 <= i < (count s)`.
pub proof fn law_nth(items: Seq<Val>, i: i64)
    requires
        items.len() < i64::MAX,
    ensures
        nth_spec(seq![Val::Vector(items), Val::Int(i)]) == nth_spec(seq![Val::List(items), Val::Int(i)]),
        (nth_spec(seq![Val::List(items), Val::Int(i)]) is Ok) <==> (0 <= i < count_spec(
            seq![Val::List(items)],
        )->Ok_0->Int_0),
        items.len() > 0 ==> nth_spec(seq![Val::List(items), Val::Int(0)]) == first_spec(seq![Val::List(items)]),
        items.len() > 0 && !(items[0] is Nil) && 0 <= i && i < i64::MAX ==> nth_spec(
            seq![Val::List(items), Val::Int((i + 1) as i64)],
        ) == nth_spec(seq![rest_spec(seq![Val::List(items)])->Ok_0, Val::Int(i)]),
{
    if items.len() > 0 && !(items[0] is Nil) && 0 <= i && i < i64::MAX {
        let r = items.subrange(1, items.len() as int);
        assert(rest_spec(seq![Val::List(items)]) == Ok::<Val, ErrV>(Val::List(r)));
        if i + 1 < items.len() {
            assert(r[i as int] == items[i + 1]);
        }
    }
}

proof fn lemma_lookup_push(frames: Seq<Frame>, fr: Frame, j: int, k: Seq<char>)
    requires
        0 <= j < frames.len(),
    ensures
        lookup(frames.push(fr), j, k) == lookup(frames, j, k),
    decreases j,
{
    assert(frames.push(fr)[j] == frames[j]);
    match frames[j].outer {
        Some(o) => if o < j {
            lemma_lookup_push(frames, fr, o as int, k);
        },
        None => {},
    }
}

/// The value a `catch*` handler receives for an outcome of the guarded form: a
/// thrown value as it is, an error as its message.
pub open spec fn caught(r: Res) -> Option<Val> {
    match r {
        Err(ErrV::Exception(x)) => Some(x),
        Err(ErrV::Error(m)) => Some(Val::Str(m)),
        _ => None,
    }
}

/// A `catch*` handler runs in a new frame inside the frame where `try*` was
/// evaluated: when the guarded form of `(try* form (catch* name body))` throws
/// or fails, evaluation goes on with `body` in a frame where `name` is the
/// caught value and every other symbol is what it was in the `try*` frame.
pub proof fn law_catch_frame(st: St, form: Val, name: Seq<char>, body: Val, env: usize, f: nat, k: Seq<char>)
    requires
        env < st.envs.len(),
        caught(ev(st, form, env, f).1) is Some,
        ev(st, form, env, f).0.envs.len() < usize::MAX,
    ensures
        ({
            let l = seq![Val::Symbol("try*"@), form, Val::List(seq![Val::Symbol("catch*"@), Val::Symbol(name), body])];
            let s1 = ev(st, form, env, f).0;
            let x = caught(ev(st, form, env, f).1)->Some_0;
            let (s2, step) = step_try(st, l, env, f);
            &&& step matches Step::Continue(b, id) && b == body
            &&& lookup(s2.envs, step->Continue_1 as int, name) == Some(x)
            &&& k != name ==> lookup(s2.envs, step->Continue_1 as int, k) == lookup(s1.envs, env as int, k)
        }),
{
    let c = Val::List(seq![Val::Symbol("catch*"@), Val::Symbol(name), body]);
    let l = seq![Val::Symbol("try*"@), form, c];
    let (s1, r) = ev(st, form, env, f);
    let x = caught(r)->Some_0;
    assert(l[1] == form && l[2] == c);
    let cl = seq![Val::Symbol("catch*"@), Val::Symbol(name), body];
    assert(cl[0] == Val::Symbol("catch*"@) && cl[1] == Val::Symbol(name) && cl[2] == body);
    assert(step_try(st, l, env, f) == catch_step(s1, c, x, env));
    let fr = Frame { symbols: map_insert(Seq::empty(), name, x), outer: Some(env) };
    let id = s1.envs.len() as usize;
    assert(catch_step(s1, c, x, env) == (push_frame(s1, fr), Step::Continue(body, id)));
    lemma_ev_keeps(st, form, env, f);
    let s2 = push_frame(s1, fr);
    assert(s2.envs[id as int] == fr);
    lemma_map_insert(Seq::empty(), name, x, k);
    lemma_map_insert(Seq::empty(), name, x, name);
    if k != name {
        lemma_lookup_push(s1.envs, fr, env as int, k);
    }
}

/// The items of a list or a vector.
pub open spec fn items_of(v: Val) -> Option<Seq<Val>> {
    match v {
        Val::List(l) => Some(l),
        Val::Vector(l) => Some(l),
        _ => None,
    }
}

/// Whether `x` is `(splice-unquote s)` for a symbol `s`.
pub open spec fn splices_symbol(x: Val) -> bool {
    x matches Val::List(p) && p.len() == 2 && p[0] == Val::Symbol("splice-unquote"@) && p[1] is Symbol
}

/// The symbol that a splicing item names.
pub open spec fn spliced_name(x: Val) -> Seq<char> {
    x->List_0[1]->Symbol_0
}

/// An item of a quasiquoted list whose expansion is described by `spliced`:
/// a form with no unquote in it, or `(splice-unquote s)` for a symbol `s` that
/// frame `env` binds to a list or a vector.
pub open spec fn splice_item_ok(st: St, env: usize, x: Val) -> bool {
    ||| unquote_free(x)
    ||| splices_symbol(x) && (lookup(st.envs, env as int, spliced_name(x)) matches Some(v) && items_of(v) is Some)
}

/// What the quasiquoted items `l[i..]` give: each item as it is, except that
/// `(splice-unquote s)` gives the items of the value of `s`, in their place and
/// in their order.
pub open spec fn spliced(st: St, env: usize, l: Seq<Val>, i: nat) -> Seq<Val>
    decreases l.len() - i,
{
    if i >= l.len() {
        Seq::empty()
    } else if splices_symbol(l[i as int]) {
        items_of(lookup(st.envs, env as int, spliced_name(l[i as int]))->Some_0)->Some_0 + spliced(st, env, l, i + 1)
    } else {
        seq![l[i as int]] + spliced(st, env, l, i + 1)
    }
}

proof fn lemma_splice_chain(st: St, l: Seq<Val>, i: nat, env: usize, fuel: nat)
    requires
        i <= l.len(),
        forall|j: int| i <= j < l.len() ==> #[trigger] splice_item_ok(st, env, l[j]),
        qq_env(st, env),
        lookup(st.envs, env as int, "concat"@) == Some(Val::Function(Builtin::Concat)),
        !debug_on(st, env),
    ensures
        spent(ev(st, Val::List(qq_items(l, i)), env, fuel).1) || ev(st, Val::List(qq_items(l, i)), env, fuel)
            == (st, Ok::<Val, ErrV>(Val::List(spliced(st, env, l, i)))),
    decreases l.len() - i,
{
    lemma_form_names();
    reveal_strlit("splice-unquote");
    if fuel > 0 {
        let f = (fuel - 1) as nat;
        assert(trace(st, Val::List(qq_items(l, i)), env) == Some(st));
        if i == l.len() {
            assert(qq_items(l, i) =~= Seq::<Val>::empty());
        } else {
            let x = l[i as int];
            assert(splice_item_ok(st, env, x));
            let rest = Val::List(qq_items(l, i + 1));
            let rv = Val::List(spliced(st, env, l, i + 1));
            let e = qq_items(l, i);
            if f > 0 {
                lemma_splice_chain(st, l, i + 1, env, f);
            }
            if splices_symbol(x) {
                let name = spliced_name(x);
                let v = lookup(st.envs, env as int, name)->Some_0;
                let ys = items_of(v)->Some_0;
                assert(x->List_0[0] == Val::Symbol("splice-unquote"@));
                assert(e == seq![Val::Symbol("concat"@), x->List_0[1], rest]);
                assert(e[0] == Val::Symbol("concat"@) && e[1] == Val::Symbol(name) && e[2] == rest);
                assert(step_list(st, e, env, f) == step_call(st, e, env, f));
                if f > 0 {
                    assert(trace(st, Val::Symbol("concat"@), env) == Some(st));
                    assert(ev(st, Val::Symbol("concat"@), env, f) == (st, Ok::<Val, ErrV>(Val::Function(Builtin::Concat))));
                    assert(trace(st, Val::Symbol(name), env) == Some(st));
                    assert(ev(st, Val::Symbol(name), env, f) == (st, Ok::<Val, ErrV>(v)));
                    assert(Seq::<Val>::empty().push(v) == seq![v]);
                    assert(ev_seq(st, e, 1, Seq::empty(), env, f) == ev_seq(st, e, 2, seq![v], env, f));
                    let (s4, r4) = ev(st, rest, env, f);
                    if !spent(r4) {
                        assert(seq![v].push(rv) == seq![v, rv]);
                        assert(ev_seq(st, e, 2, seq![v], env, f) == ev_seq(st, e, 3, seq![v, rv], env, f));
                        assert(ev_seq(st, e, 3, seq![v, rv], env, f) == (st, Ok::<Seq<Val>, ErrV>(seq![v, rv])));
                        let args = seq![v, rv];
                        assert(args[0] == v && args[1] == rv);
                        assert(Seq::<Val>::empty() + ys =~= ys);
                        assert(concat_from(args, 0, Seq::empty()) == concat_from(args, 1, ys));
                        assert(concat_from(args, 1, ys) == concat_from(args, 2, ys + spliced(st, env, l, i + 1)));
                        assert(call_builtin(st, Builtin::Concat, args, f) == (st, concat_from(args, 0, Seq::empty())));
                    } else {
                        assert(ev_seq(st, e, 2, seq![v], env, f).1 == Err::<Seq<Val>, ErrV>(ErrV::Halt(HaltV::OutOfFuel)));
                    }
                }
            } else {
                assert(unquote_free(x));
                assert(!(x matches Val::List(p) && p.len() == 2 && is_sym(p[0], "splice-unquote"@)));
                assert(e == seq![Val::Symbol("cons"@), qq(x), rest]);
                assert(e[0] == Val::Symbol("cons"@) && e[1] == qq(x) && e[2] == rest);
                assert(step_list(st, e, env, f) == step_call(st, e, env, f));
                if f > 0 {
                    assert(trace(st, Val::Symbol("cons"@), env) == Some(st));
                    assert(ev(st, Val::Symbol("cons"@), env, f) == (st, Ok::<Val, ErrV>(Val::Function(Builtin::Cons))));
                    lemma_qq_value(st, x, env, f);
                    let (s3, r3) = ev(st, qq(x), env, f);
                    if !spent(r3) {
                        assert(Seq::<Val>::empty().push(x) == seq![x]);
                        assert(ev_seq(st, e, 1, Seq::empty(), env, f) == ev_seq(st, e, 2, seq![x], env, f));
                        let (s4, r4) = ev(st, rest, env, f);
                        if !spent(r4) {
                            assert(seq![x].push(rv) == seq![x, rv]);
                            assert(ev_seq(st, e, 2, seq![x], env, f) == ev_seq(st, e, 3, seq![x, rv], env, f));
                            assert(ev_seq(st, e, 3, seq![x, rv], env, f) == (st, Ok::<Seq<Val>, ErrV>(seq![x, rv])));
                        } else {
                            assert(ev_seq(st, e, 2, seq![x], env, f).1 == Err::<Seq<Val>, ErrV>(ErrV::Halt(HaltV::OutOfFuel)));
                        }
                    } else {
                        assert(ev_seq(st, e, 1, Seq::empty(), env, f).1 == Err::<Seq<Val>, ErrV>(ErrV::Halt(HaltV::OutOfFuel)));
                    }
                }
            }
        }
    }
}

/// Quasiquoting a list splices: evaluating the expansion of a quasiquoted list
/// gives its items in order, except that each `(splice-unquote s)` gives the
/// items of the value of `s` in its place, when `cons` and `concat` are the
/// built-ins and tracing is off. This holds unless the step budget runs out,
/// and nothing else changes.
pub proof fn law_quasiquote_splices(st: St, l: Seq<Val>, env: usize, fuel: nat)
    requires
        !(l.len() == 2 && is_sym(l[0], "unquote"@)),
        forall|j: int| 0 <= j < l.len() ==> #[trigger] splice_item_ok(st, env, l[j]),
        qq_env(st, env),
        lookup(st.envs, env as int, "concat"@) == Some(Val::Function(Builtin::Concat)),
        !debug_on(st, env),
    ensures
        spent(ev(st, qq(Val::List(l)), env, fuel).1) || ev(st, qq(Val::List(l)), env, fuel) == (
            st,
            Ok::<Val, ErrV>(Val::List(spliced(st, env, l, 0))),
        ),
{
    lemma_splice_chain(st, l, 0, env, fuel);
}

} // verus!
