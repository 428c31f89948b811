//! Throwing values as exceptions.
use crate::builtins::core_fns::{bind_names, register_one};
use crate::types::environment::MalEnv;
use crate::types::error::{err, error, rv, ErrV, MalError, MalReturn, Res};
use crate::types::{vals, Builtin, MalVal, Val};
use vstd::prelude::*;

verus! {

/// Binds `throw` in frame `env`.
pub fn register(env: &mut MalEnv)
    ensures
        final(env).view().symbols == bind_names(old(env).view().symbols, seq![("throw"@, Builtin::Throw)]),
        final(env).outer == old(env).outer,
{
    register_one(env, "throw", Builtin::Throw);
    proof {
        reveal_with_fuel(bind_names, 2);
    }
}

/// `(throw x)`: the exception `x`.
pub open spec fn throw_spec(args: Seq<Val>) -> Res {
    if args.len() != 1 {
        err("throw expects only one argument"@)
    } else {
        Err(ErrV::Exception(args[0]))
    }
}

/// `(throw x)` (see `throw_spec`).
pub fn throw(args: &Vec<MalVal>) -> (r: MalReturn)
    ensures
        rv(r) == throw_spec(vals(args@)),
{
    if args.len() != 1 {
        return Err(error("throw expects only one argument"));
    }
    Err(MalError::Exception(args[0].dup()))
}

} // verus!
