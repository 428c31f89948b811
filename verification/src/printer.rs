//! What the read-eval-print loop shows for an outcome.
use crate::runtime::Runtime;
use crate::types::error::{ErrV, MalError, MalReturn, Res};
use crate::types::print::pr;
use crate::types::{vals, Val};
use vstd::prelude::*;

verus! {

/// The text of an error: `Break: `, `Error: Readline: `, `Error: ` or
/// `Exception: ` and the readable text of the thrown value; `None` for a halt,
/// or when the thrown value's text never ends.
pub open spec fn error_text(e: ErrV, atoms: Seq<Val>) -> Option<Seq<char>> {
    match e {
        ErrV::Break(s) => Some("Break: "@ + s),
        ErrV::Readline(s) => Some("Error: Readline: "@ + s),
        ErrV::Error(s) => Some("Error: "@ + s),
        ErrV::Exception(v) => match pr(v, true, false, atoms, atoms.len()) {
            Some(t) => Some("Exception: "@ + t),
            None => None,
        },
        ErrV::Halt(_) => None,
    }
}

/// What is printed for an outcome and whether the loop goes on: the readable
/// text of a value, `s` and `Bye!` on a second line for a break (which ends the
/// loop), the text of another error; `None` for a halt, which the host handles,
/// and for a text that never ends.
pub open spec fn shown(out: Res, atoms: Seq<Val>) -> Option<(Seq<char>, bool)> {
    match out {
        Ok(v) => match pr(v, true, false, atoms, atoms.len()) {
            Some(t) => Some((t, true)),
            None => None,
        },
        Err(ErrV::Break(s)) => Some((s + "\nBye!"@, false)),
        Err(e) => match error_text(e, atoms) {
            Some(t) => Some((t, true)),
            None => None,
        },
    }
}

impl MalError {
    /// The text of this error (see `error_text`), reading atoms from `atoms`.
    pub fn text(&self, atoms: &Vec<crate::types::MalVal>) -> (r: Option<String>)
        ensures
            match error_text(self.view(), vals(atoms@)) {
                Some(t) => r matches Some(s) && s@ == t,
                None => r is None,
            },
    {
        let (head, body) = match self {
            MalError::Break(s) => ("Break: ", s.clone()),
            MalError::Readline(s) => ("Error: Readline: ", s.clone()),
            MalError::Error(s) => ("Error: ", s.clone()),
            MalError::Exception(v) => match v.pr_str(true, atoms) {
                Some(t) => ("Exception: ", t),
                None => {
                    return None;
                },
            },
            MalError::Halt(_) => {
                return None;
            },
        };
        let mut line = crate::text::owned(head);
        crate::text::push_all(&mut line, body.as_str());
        Some(line)
    }
}

/// What the loop prints for `output` and whether it goes on (see `shown`).
pub fn print(output: MalReturn, rt: &Runtime) -> (r: Option<(String, bool)>)
    ensures
        match shown(crate::types::error::rv(output), rt.view().atoms) {
            Some((t, go_on)) => r matches Some((s, b)) && s@ == t && b == go_on,
            None => r is None,
        },
{
    match output {
        Ok(ast) => match ast.pr_str(true, &rt.atoms) {
            Some(t) => Some((t, true)),
            None => None,
        },
        Err(MalError::Break(s)) => {
            let mut line = s;
            crate::text::push_all(&mut line, "\nBye!");
            Some((line, false))
        },
        Err(e) => match e.text(&rt.atoms) {
            Some(t) => Some((t, true)),
            None => None,
        },
    }
}

} // verus!
