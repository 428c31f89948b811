//! The clock.
use crate::builtins::core_fns::{bind_names, register_one};
use crate::runtime::{Runtime, St};
use crate::types::environment::MalEnv;
use crate::types::error::{err, error, rv, ErrV, Halt, HaltV, MalError, MalReturn, Res};
use crate::types::{vals, Builtin, MalVal, Val};
use vstd::prelude::*;

verus! {

/// Binds `time-ms` in frame `env`.
pub fn register(env: &mut MalEnv)
    ensures
        final(env).view().symbols == bind_names(old(env).view().symbols, seq![("time-ms"@, Builtin::TimeMs)]),
        final(env).outer == old(env).outer,
{
    register_one(env, "time-ms", Builtin::TimeMs);
    proof {
        reveal_with_fuel(bind_names, 2);
    }
}

/// `(time-ms)`: the next clock reading that the host supplied, in milliseconds;
/// the request for one when none is left.
pub open spec fn time_ms_spec(st: St, args: Seq<Val>) -> (St, Res) {
    if args.len() > 0 {
        (st, err("time-ms does not expect any argument"@))
    } else if st.clock_next < st.clock.len() {
        (St { clock_next: st.clock_next + 1, ..st }, Ok(Val::Int(st.clock[st.clock_next as int])))
    } else {
        (st, Err(ErrV::Halt(HaltV::NeedClock)))
    }
}

/// `(time-ms)` (see `time_ms_spec`).
pub fn time_ms(rt: &mut Runtime, args: &Vec<MalVal>) -> (r: MalReturn)
    ensures
        (final(rt).view(), rv(r)) == time_ms_spec(old(rt).view(), vals(args@)),
{
    if args.len() > 0 {
        return Err(error("time-ms does not expect any argument"));
    }
    if rt.clock_next < rt.clock.len() {
        let t = rt.clock[rt.clock_next];
        rt.clock_next = rt.clock_next + 1;
        Ok(MalVal::Int(t))
    } else {
        Err(MalError::Halt(Halt::NeedClock))
    }
}

} // verus!
