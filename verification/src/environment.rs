//! A single flat environment of symbols.
use crate::types::error::{ErrV, MalError};
use crate::types::{map_get, map_insert, MalMap, MalVal, Val};
use crate::types::environment::{not_found, not_found_msg};
use vstd::prelude::*;

verus! {

/// A flat map of symbols to values.
#[derive(Debug)]
pub struct MalEnv {
    pub symbols: MalMap,
}

impl MalEnv {
    /// An environment with no symbols.
    pub fn new() -> (e: MalEnv)
        ensures
            e.symbols.view() == Seq::<(Seq<char>, Val)>::empty(),
    {
        MalEnv { symbols: MalMap::new() }
    }

    /// Binds `symbol` to `o`, replacing an earlier binding.
    pub fn put(&mut self, symbol: &str, o: MalVal)
        ensures
            final(self).symbols.view() == map_insert(old(self).symbols.view(), symbol@, o.val()),
    {
        self.symbols.insert(crate::text::owned(symbol), o);
    }

    /// The value bound to `symbol`, or the error `'symbol' not found`.
    pub fn get(&mut self, symbol: &String) -> (r: Result<MalVal, MalError>)
        ensures
            final(self).symbols.view() == old(self).symbols.view(),
            match map_get(old(self).symbols.view(), symbol@) {
                Some(v) => r matches Ok(w) && w.val() == v,
                None => r matches Err(e) && e.view() == ErrV::Error(not_found(symbol@)),
            },
    {
        match self.symbols.get(symbol.as_str()) {
            Some(v) => Ok(v.dup()),
            None => Err(MalError::Error(not_found_msg(symbol.as_str()))),
        }
    }
}

} // verus!
