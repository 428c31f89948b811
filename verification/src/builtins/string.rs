//! Printing and reading strings.
use crate::builtins::core_fns::{bind_names, register_one};
use crate::reader::read_str_spec;
use crate::runtime::{emit, Runtime, St};
use crate::types::environment::MalEnv;
use crate::types::error::{err, error, panic_error, panic_res, rv, MalReturn, Res};
use crate::types::print::pr;
use crate::types::{vals, Builtin, MalVal, Val};
use vstd::prelude::*;

verus! {

/// The names under which `register` binds the string functions.
pub open spec fn string_names() -> Seq<(Seq<char>, Builtin)> {
    seq![
        ("pr-str"@, Builtin::PrStr),
        ("str"@, Builtin::Str),
        ("prn"@, Builtin::Prn),
        ("println"@, Builtin::Println),
        ("read-string"@, Builtin::ReadString),
    ]
}

/// Binds the string functions in frame `env` (see `string_names`).
pub fn register(env: &mut MalEnv)
    ensures
        final(env).view().symbols == bind_names(old(env).view().symbols, string_names()),
        final(env).outer == old(env).outer,
{
    register_one(env, "pr-str", Builtin::PrStr);
    register_one(env, "str", Builtin::Str);
    register_one(env, "prn", Builtin::Prn);
    register_one(env, "println", Builtin::Println);
    register_one(env, "read-string", Builtin::ReadString);
    proof {
        reveal_with_fuel(bind_names, 6);
    }
}

/// The texts of the first `n` arguments joined by `sep`; `None` when one of them
/// has no text (an atom that holds itself).
pub open spec fn pr_join(args: Seq<Val>, readably: bool, sep: Seq<char>, atoms: Seq<Val>, n: nat) -> Option<
    Seq<char>,
>
    decreases n,
{
    if n == 0 || n > args.len() {
        Some(Seq::empty())
    } else {
        match (pr_join(args, readably, sep, atoms, (n - 1) as nat), pr(args[n - 1], readably, false, atoms, atoms.len())) {
            (Some(a), Some(b)) => Some(
                if n == 1 {
                    b
                } else {
                    a + sep + b
                },
            ),
            _ => None,
        }
    }
}

proof fn lemma_pr_join_none(args: Seq<Val>, readably: bool, sep: Seq<char>, atoms: Seq<Val>, i: nat, n: nat)
    requires
        1 <= i <= n <= args.len(),
        pr_join(args, readably, sep, atoms, i) is None,
    ensures
        pr_join(args, readably, sep, atoms, n) is None,
    decreases n - i,
{
    if i < n {
        lemma_pr_join_none(args, readably, sep, atoms, i, (n - 1) as nat);
    }
}

/// The texts of the arguments joined by `sep` (see `pr_join`).
pub fn join_pr(args: &Vec<MalVal>, readably: bool, sep: &str, atoms: &Vec<MalVal>) -> (r: Option<String>)
    ensures
        match pr_join(vals(args@), readably, sep@, vals(atoms@), args@.len()) {
            Some(t) => r matches Some(s) && s@ == t,
            None => r is None,
        },
{
    let mut out = String::new();
    let mut i: usize = 0;
    let ghost av = vals(args@);
    while i < args.len()
        invariant
            av == vals(args@),
            i <= args@.len(),
            pr_join(av, readably, sep@, vals(atoms@), i as nat) matches Some(t) && out@ == t,
        decreases args@.len() - i,
    {
        let ghost a = pr_join(av, readably, sep@, vals(atoms@), i as nat)->Some_0;
        let piece = match args[i].pr_str(readably, atoms) {
            Some(p) => p,
            None => {
                proof {
                    lemma_pr_join_none(av, readably, sep@, vals(atoms@), (i + 1) as nat, args@.len());
                }
                return None;
            },
        };
        if i > 0 {
            crate::text::push_all(&mut out, sep);
        }
        crate::text::push_all(&mut out, piece.as_str());
        proof {
            if i == 0 {
                assert(out@ =~= piece@);
            } else {
                assert(out@ =~= a + sep@ + piece@);
            }
        }
        i = i + 1;
    }
    Some(out)
}

/// `(pr-str x ...)`: the readable texts of the arguments joined by spaces.
pub open spec fn pr_str_spec(st: St, args: Seq<Val>) -> Res {
    match pr_join(args, true, " "@, st.atoms, args.len()) {
        Some(t) => Ok(Val::Str(t)),
        None => panic_res(),
    }
}

/// `(str x ...)`: the plain texts of the arguments joined together.
pub open spec fn str_spec(st: St, args: Seq<Val>) -> Res {
    match pr_join(args, false, ""@, st.atoms, args.len()) {
        Some(t) => Ok(Val::Str(t)),
        None => panic_res(),
    }
}

/// `(prn x ...)` prints the readable texts joined by spaces; `(println x ...)`
/// the plain texts. Both give `nil`.
pub open spec fn print_spec(st: St, args: Seq<Val>, readably: bool) -> (St, Res) {
    match pr_join(args, readably, " "@, st.atoms, args.len()) {
        Some(t) => (emit(st, t), Ok(Val::Nil)),
        None => (st, panic_res()),
    }
}

/// `(read-string s)`: the first form read from `s`.
pub open spec fn read_string_spec(args: Seq<Val>) -> Res {
    if args.len() > 1 {
        err("read-string expects only one string"@)
    } else if args.len() == 1 && args[0] is Str {
        read_str_spec(args[0]->Str_0)
    } else {
        err("read-string expects one argument of string type"@)
    }
}

/// `(pr-str x ...)` (see `pr_str_spec`).
pub fn pr_str(rt: &Runtime, args: &Vec<MalVal>) -> (r: MalReturn)
    ensures
        rv(r) == pr_str_spec(rt.view(), vals(args@)),
{
    match join_pr(args, true, " ", &rt.atoms) {
        Some(t) => Ok(MalVal::Str(t)),
        None => Err(panic_error()),
    }
}

/// `(str x ...)` (see `str_spec`).
pub fn str(rt: &Runtime, args: &Vec<MalVal>) -> (r: MalReturn)
    ensures
        rv(r) == str_spec(rt.view(), vals(args@)),
{
    match join_pr(args, false, "", &rt.atoms) {
        Some(t) => Ok(MalVal::Str(t)),
        None => Err(panic_error()),
    }
}

/// `(prn x ...)` and `(println x ...)` (see `print_spec`).
pub fn print_values(rt: &mut Runtime, args: &Vec<MalVal>, readably: bool) -> (r: MalReturn)
    ensures
        (final(rt).view(), rv(r)) == print_spec(old(rt).view(), vals(args@), readably),
{
    match join_pr(args, readably, " ", &rt.atoms) {
        Some(t) => {
            rt.emit(t);
            Ok(MalVal::Nil)
        },
        None => Err(panic_error()),
    }
}

/// `(read-string s)` (see `read_string_spec`).
pub fn read_string(args: &Vec<MalVal>) -> (r: MalReturn)
    ensures
        rv(r) == read_string_spec(vals(args@)),
{
    if args.len() > 1 {
        return Err(error("read-string expects only one string"));
    }
    if args.len() == 1 {
        if let MalVal::Str(s) = &args[0] {
            return crate::reader::read_str(s.as_str());
        }
    }
    Err(error("read-string expects one argument of string type"))
}

} // verus!
