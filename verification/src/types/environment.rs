//! Environment frames: a map of symbols and an optional outer frame.
use crate::types::{map_get, map_insert, MalMap, MalVal, Val};
use crate::types::error::MalError;
use vstd::prelude::*;

verus! {

/// The model of a frame.
pub struct Frame {
    pub symbols: Seq<(Seq<char>, Val)>,
    pub outer: Option<usize>,
}

/// A frame of an environment. Frames live in the runtime's frame store and an
/// outer frame is named by its index there.
#[derive(Debug, Clone)]
pub struct MalEnv {
    pub symbols: MalMap,
    pub outer: Option<usize>,
}

/// Looks `sym` up in frame `id` of `frames` and then in its outer frames. An outer
/// link is followed only to an earlier frame, which is how frames are created.
pub open spec fn lookup(frames: Seq<Frame>, id: int, sym: Seq<char>) -> Option<Val>
    decreases id,
{
    if 0 <= id < frames.len() {
        match map_get(frames[id].symbols, sym) {
            Some(v) => Some(v),
            None => match frames[id].outer {
                Some(j) => if j < id {
                    lookup(frames, j as int, sym)
                } else {
                    None
                },
                None => None,
            },
        }
    } else {
        None
    }
}

/// The error of a failed lookup: `'sym' not found`.
pub open spec fn not_found(sym: Seq<char>) -> Seq<char> {
    seq!['\''] + sym + "' not found"@
}

impl MalEnv {
    /// The model of this frame.
    pub open spec fn view(self) -> Frame {
        Frame { symbols: self.symbols.view(), outer: self.outer }
    }

    /// An empty frame whose outer frame is `outer`.
    pub fn new(outer: Option<usize>) -> (e: MalEnv)
        ensures
            e.view() == (Frame { symbols: Seq::empty(), outer: outer }),
    {
        MalEnv { symbols: MalMap::new(), outer }
    }

    /// Binds `symbol` to `o` in this frame.
    pub fn set(&mut self, symbol: &str, o: MalVal)
        ensures
            final(self).view() == (Frame {
                symbols: map_insert(old(self).view().symbols, symbol@, o.val()),
                outer: old(self).outer,
            }),
    {
        self.symbols.insert(crate::text::owned(symbol), o);
    }

    /// The value of `symbol` in this frame, else in its outer frames in `frames`.
    pub fn get(&self, symbol: &str, frames: &Vec<MalEnv>) -> (r: Result<MalVal, MalError>)
        ensures
            match map_get(self.view().symbols, symbol@) {
                Some(v) => r matches Ok(w) && w.val() == v,
                None => match self.outer {
                    Some(j) => match lookup(frames_view(frames@), j as int, symbol@) {
                        Some(v) => r matches Ok(w) && w.val() == v,
                        None => r matches Err(MalError::Error(m)) && m@ == not_found(symbol@),
                    },
                    None => r matches Err(MalError::Error(m)) && m@ == not_found(symbol@),
                },
            },
    {
        match self.symbols.get(symbol) {
            Some(v) => Ok(v.dup()),
            None => match self.outer {
                Some(j) => lookup_in(frames, j, symbol),
                None => Err(MalError::Error(not_found_msg(symbol))),
            },
        }
    }
}

/// The models of a sequence of frames.
pub open spec fn frames_view(s: Seq<MalEnv>) -> Seq<Frame> {
    Seq::new(s.len(), |i: int| s[i].view())
}

/// The message `'sym' not found`.
pub fn not_found_msg(symbol: &str) -> (m: String)
    ensures
        m@ == not_found(symbol@),
{
    let mut m = String::new();
    m.push('\'');
    crate::text::push_all(&mut m, symbol);
    crate::text::push_all(&mut m, "' not found");
    assert(m@ =~= not_found(symbol@));
    m
}

/// Looks `symbol` up from frame `id` of `frames` outwards.
pub fn lookup_in(frames: &Vec<MalEnv>, id: usize, symbol: &str) -> (r: Result<MalVal, MalError>)
    ensures
        match lookup(frames_view(frames@), id as int, symbol@) {
            Some(v) => r matches Ok(w) && w.val() == v,
            None => r matches Err(MalError::Error(m)) && m@ == not_found(symbol@),
        },
    decreases id,
{
    if id < frames.len() {
        match frames[id].symbols.get(symbol) {
            Some(v) => Ok(v.dup()),
            None => match frames[id].outer {
                Some(j) => {
                    if j < id {
                        lookup_in(frames, j, symbol)
                    } else {
                        Err(MalError::Error(not_found_msg(symbol)))
                    }
                },
                None => Err(MalError::Error(not_found_msg(symbol))),
            },
        }
    } else {
        Err(MalError::Error(not_found_msg(symbol)))
    }
}

} // verus!
