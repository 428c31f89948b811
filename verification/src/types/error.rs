//! Errors of the reader and the evaluator.
use crate::types::{MalVal, Val};
use vstd::prelude::*;

verus! {

/// Why an evaluation stopped before it finished. `Panic` marks an input on which
/// the interpreter aborts; `NeedFile` and `NeedClock` ask the host for a file's
/// contents or a clock reading, after which the same evaluation is run again from
/// the state it started in; `OutOfFuel` means the step budget ran out.
#[derive(Debug)]
pub enum Halt {
    Panic,
    OutOfFuel,
    NeedFile(String),
    NeedClock,
}

/// An error, or a value thrown by `throw`.
#[derive(Debug)]
pub enum MalError {
    Break(String),
    Readline(String),
    Error(String),
    Exception(MalVal),
    Halt(Halt),
}

/// The model of a `Halt`.
pub enum HaltV {
    Panic,
    OutOfFuel,
    NeedFile(Seq<char>),
    NeedClock,
}

/// The model of a `MalError`.
pub enum ErrV {
    Break(Seq<char>),
    Readline(Seq<char>),
    Error(Seq<char>),
    Exception(Val),
    Halt(HaltV),
}

/// The outcome of reading or evaluating.
pub type MalReturn = Result<MalVal, MalError>;

/// The model of an outcome.
pub type Res = Result<Val, ErrV>;

impl Halt {
    pub open spec fn view(self) -> HaltV {
        match self {
            Halt::Panic => HaltV::Panic,
            Halt::OutOfFuel => HaltV::OutOfFuel,
            Halt::NeedFile(p) => HaltV::NeedFile(p@),
            Halt::NeedClock => HaltV::NeedClock,
        }
    }
}

impl MalError {
    pub open spec fn view(self) -> ErrV {
        match self {
            MalError::Break(s) => ErrV::Break(s@),
            MalError::Readline(s) => ErrV::Readline(s@),
            MalError::Error(s) => ErrV::Error(s@),
            MalError::Exception(v) => ErrV::Exception(v.val()),
            MalError::Halt(h) => ErrV::Halt(h.view()),
        }
    }

    /// A copy of this error with the same model.
    pub fn dup(&self) -> (r: MalError)
        ensures
            r.view() == self.view(),
    {
        match self {
            MalError::Break(s) => MalError::Break(s.clone()),
            MalError::Readline(s) => MalError::Readline(s.clone()),
            MalError::Error(s) => MalError::Error(s.clone()),
            MalError::Exception(v) => MalError::Exception(v.dup()),
            MalError::Halt(h) => MalError::Halt(
                match h {
                    Halt::Panic => Halt::Panic,
                    Halt::OutOfFuel => Halt::OutOfFuel,
                    Halt::NeedFile(p) => Halt::NeedFile(p.clone()),
                    Halt::NeedClock => Halt::NeedClock,
                },
            ),
        }
    }
}

/// The model of an outcome.
pub open spec fn rv(r: MalReturn) -> Res {
    match r {
        Ok(v) => Ok(v.val()),
        Err(e) => Err(e.view()),
    }
}

/// An error with a message.
pub open spec fn err(m: Seq<char>) -> Res {
    Err(ErrV::Error(m))
}

/// An evaluation that the interpreter aborts.
pub open spec fn panic_res() -> Res {
    Err(ErrV::Halt(HaltV::Panic))
}

/// `MalError::Error` with the given message.
pub fn error(m: &str) -> (e: MalError)
    ensures
        e.view() == ErrV::Error(m@),
{
    MalError::Error(crate::text::owned(m))
}

/// The error of an aborted evaluation.
pub fn panic_error() -> (e: MalError)
    ensures
        e.view() == ErrV::Halt(HaltV::Panic),
{
    MalError::Halt(Halt::Panic)
}

} // verus!
