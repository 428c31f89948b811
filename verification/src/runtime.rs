//! The state that evaluation works on: environment frames, atom cells, the
//! files and clock readings the host has supplied, and the text printed so far.
use crate::types::environment::{frames_view, lookup, not_found, Frame, MalEnv};
use crate::types::error::{err, Res};
use crate::types::{map_insert, vals, MalVal, Val};
use vstd::prelude::*;

verus! {

/// What reading a file gave: its contents, a failure to open it, or a failure to
/// read it with the reason.
#[derive(Debug, Clone)]
pub enum FileRead {
    Contents(String),
    OpenFailed,
    ReadFailed(String),
}

/// The model of a `FileRead`.
pub enum FileV {
    Contents(Seq<char>),
    OpenFailed,
    ReadFailed(Seq<char>),
}

impl FileRead {
    pub open spec fn view(self) -> FileV {
        match self {
            FileRead::Contents(s) => FileV::Contents(s@),
            FileRead::OpenFailed => FileV::OpenFailed,
            FileRead::ReadFailed(s) => FileV::ReadFailed(s@),
        }
    }
}

/// The state of an interpreter. Frame `i` is `envs[i]`; an atom is an index
/// into `atoms`; `files` and `clock` hold what the host supplied; `output` holds
/// the lines printed.
#[derive(Debug, Clone)]
pub struct Runtime {
    pub envs: Vec<MalEnv>,
    pub atoms: Vec<MalVal>,
    pub files: Vec<(String, FileRead)>,
    pub clock: Vec<i64>,
    pub clock_next: usize,
    pub output: Vec<String>,
}

/// The model of a runtime.
pub struct St {
    pub envs: Seq<Frame>,
    pub atoms: Seq<Val>,
    pub files: Seq<(Seq<char>, FileV)>,
    pub clock: Seq<i64>,
    pub clock_next: nat,
    pub output: Seq<Seq<char>>,
}

/// The models of the host's files.
pub open spec fn files_view(s: Seq<(String, FileRead)>) -> Seq<(Seq<char>, FileV)> {
    Seq::new(s.len(), |i: int| (s[i].0@, s[i].1.view()))
}

/// The models of printed lines.
pub open spec fn lines_view(s: Seq<String>) -> Seq<Seq<char>> {
    Seq::new(s.len(), |i: int| s[i]@)
}

impl Runtime {
    pub open spec fn view(self) -> St {
        St {
            envs: frames_view(self.envs@),
            atoms: vals(self.atoms@),
            files: files_view(self.files@),
            clock: self.clock@,
            clock_next: self.clock_next as nat,
            output: lines_view(self.output@),
        }
    }

    /// A runtime with one empty frame (frame 0, the top level) and nothing else.
    pub fn new() -> (rt: Runtime)
        ensures
            rt.view() == (St {
                envs: seq![Frame { symbols: Seq::empty(), outer: None }],
                atoms: Seq::empty(),
                files: Seq::empty(),
                clock: Seq::empty(),
                clock_next: 0,
                output: Seq::empty(),
            }),
    {
        let mut envs: Vec<MalEnv> = Vec::new();
        envs.push(MalEnv::new(None));
        let rt = Runtime {
            envs,
            atoms: Vec::new(),
            files: Vec::new(),
            clock: Vec::new(),
            clock_next: 0,
            output: Vec::new(),
        };
        assert(rt.view().envs =~= seq![Frame { symbols: Seq::empty(), outer: None }]);
        assert(rt.view().atoms =~= Seq::<Val>::empty());
        assert(rt.view().files =~= Seq::<(Seq<char>, FileV)>::empty());
        assert(rt.view().output =~= Seq::<Seq<char>>::empty());
        rt
    }

    /// Records the contents of `path` (or the failure to read it) for `slurp`.
    pub fn add_file(&mut self, path: String, content: FileRead)
        ensures
            final(self).view() == (St {
                files: old(self).view().files.push((path@, content.view())),
                ..old(self).view()
            }),
    {
        self.files.push((path, content));
        assert(self.view().files =~= old(self).view().files.push((path@, content.view())));
    }

    /// Records a clock reading, in milliseconds, for `time-ms`.
    pub fn add_clock_reading(&mut self, ms: i64)
        ensures
            final(self).view() == (St { clock: old(self).view().clock.push(ms), ..old(self).view() }),
    {
        self.clock.push(ms);
    }

    /// Forgets the files and clock readings the host supplied, so that the next
    /// evaluation asks for them afresh.
    pub fn forget_host_inputs(&mut self)
        ensures
            final(self).view() == (St {
                files: Seq::empty(),
                clock: Seq::empty(),
                clock_next: 0,
                ..old(self).view()
            }),
    {
        self.files = Vec::new();
        self.clock = Vec::new();
        self.clock_next = 0;
        assert(self.view().files =~= Seq::<(Seq<char>, FileV)>::empty());
    }

    /// Takes the lines printed so far, leaving none.
    pub fn take_output(&mut self) -> (lines: Vec<String>)
        ensures
            lines_view(lines@) == old(self).view().output,
            final(self).view() == (St { output: Seq::empty(), ..old(self).view() }),
    {
        let mut lines: Vec<String> = Vec::new();
        std::mem::swap(&mut lines, &mut self.output);
        assert(self.view().output =~= Seq::<Seq<char>>::empty());
        lines
    }
}

/// The state with one more frame at the end.
pub open spec fn push_frame(st: St, f: Frame) -> St {
    St { envs: st.envs.push(f), ..st }
}

/// The state with `key` bound to `v` in frame `id` (unchanged when there is no such frame).
pub open spec fn set_sym(st: St, id: usize, key: Seq<char>, v: Val) -> St {
    if id < st.envs.len() {
        St {
            envs: st.envs.update(
                id as int,
                Frame { symbols: map_insert(st.envs[id as int].symbols, key, v), outer: st.envs[id as int].outer },
            ),
            ..st
        }
    } else {
        st
    }
}

/// The state with a new atom cell holding `v` at the end.
pub open spec fn new_atom(st: St, v: Val) -> St {
    St { atoms: st.atoms.push(v), ..st }
}

/// The state with atom cell `i` holding `v` (unchanged when there is no such cell).
pub open spec fn set_atom(st: St, i: usize, v: Val) -> St {
    if i < st.atoms.len() {
        St { atoms: st.atoms.update(i as int, v), ..st }
    } else {
        st
    }
}

/// The state with one more printed line.
pub open spec fn emit(st: St, line: Seq<char>) -> St {
    St { output: st.output.push(line), ..st }
}

/// The first record for `path` among the host's files.
pub open spec fn file_lookup(files: Seq<(Seq<char>, FileV)>, path: Seq<char>) -> Option<FileV>
    decreases files.len(),
{
    if files.len() == 0 {
        None
    } else if files[0].0 == path {
        Some(files[0].1)
    } else {
        file_lookup(files.drop_first(), path)
    }
}

/// The outermost frame reached from frame `id` by outer links (to earlier frames).
pub open spec fn root_of(envs: Seq<Frame>, id: usize) -> usize
    decreases id,
{
    if id < envs.len() {
        match envs[id as int].outer {
            Some(j) => if j < id {
                root_of(envs, j)
            } else {
                id
            },
            None => id,
        }
    } else {
        id
    }
}

/// The value of `sym` seen from frame `env`, or the error `'sym' not found`.
pub open spec fn env_get(st: St, env: usize, sym: Seq<char>) -> Res {
    match lookup(st.envs, env as int, sym) {
        Some(v) => Ok(v),
        None => err(not_found(sym)),
    }
}

impl Runtime {
    /// Adds a frame at the end and returns its index.
    pub fn push_frame(&mut self, f: MalEnv) -> (id: usize)
        ensures
            id == old(self).envs@.len(),
            final(self).view() == push_frame(old(self).view(), f.view()),
    {
        let id = self.envs.len();
        self.envs.push(f);
        assert(self.view().envs =~= old(self).view().envs.push(f.view()));
        id
    }

    /// Binds `key` to `v` in frame `id`.
    pub fn set_sym(&mut self, id: usize, key: &str, v: MalVal)
        ensures
            final(self).view() == set_sym(old(self).view(), id, key@, v.val()),
    {
        if id < self.envs.len() {
            let mut e = MalEnv { symbols: self.envs[id].symbols.dup(), outer: self.envs[id].outer };
            e.set(key, v);
            self.envs.set(id, e);
            assert(self.view().envs =~= set_sym(old(self).view(), id, key@, v.val()).envs);
        }
    }

    /// Adds an atom cell holding `v` and returns its index.
    pub fn new_atom(&mut self, v: MalVal) -> (i: usize)
        ensures
            i == old(self).atoms@.len(),
            final(self).view() == new_atom(old(self).view(), v.val()),
    {
        let i = self.atoms.len();
        self.atoms.push(v);
        assert(self.view().atoms =~= old(self).view().atoms.push(v.val()));
        i
    }

    /// Stores `v` in atom cell `i`.
    pub fn set_atom(&mut self, i: usize, v: MalVal)
        ensures
            final(self).view() == set_atom(old(self).view(), i, v.val()),
    {
        if i < self.atoms.len() {
            self.atoms.set(i, v);
            assert(self.view().atoms =~= set_atom(old(self).view(), i, v.val()).atoms);
        }
    }

    /// The contents of atom cell `i` (`nil` past the store).
    pub fn atom_value(&self, i: usize) -> (v: MalVal)
        ensures
            v.val() == crate::types::atom_get(self.view().atoms, i),
    {
        if i < self.atoms.len() {
            self.atoms[i].dup()
        } else {
            MalVal::Nil
        }
    }

    /// Prints a line.
    pub fn emit(&mut self, line: String)
        ensures
            final(self).view() == emit(old(self).view(), line@),
    {
        self.output.push(line);
        assert(self.view().output =~= old(self).view().output.push(line@));
    }

    /// The first record for `path` among the host's files.
    pub fn file_lookup(&self, path: &str) -> (r: Option<&FileRead>)
        ensures
            r matches Some(f) ==> file_lookup(self.view().files, path@) == Some(f.view()),
            r is None ==> file_lookup(self.view().files, path@) is None,
    {
        let mut i: usize = 0;
        assert(self.view().files.skip(0) =~= self.view().files);
        while i < self.files.len()
            invariant
                i <= self.files@.len(),
                file_lookup(self.view().files, path@) == file_lookup(self.view().files.skip(i as int), path@),
            decreases self.files@.len() - i,
        {
            assert(self.view().files.skip(i as int)[0] == self.view().files[i as int]);
            if crate::text::str_eq(self.files[i].0.as_str(), path) {
                return Some(&self.files[i].1);
            }
            assert(self.view().files.skip(i as int).drop_first() =~= self.view().files.skip(i + 1));
            i = i + 1;
        }
        None
    }

    /// The outermost frame reached from frame `id` (see `root_of`).
    pub fn root_of(&self, id: usize) -> (r: usize)
        ensures
            r == root_of(self.view().envs, id),
        decreases id,
    {
        if id < self.envs.len() {
            match self.envs[id].outer {
                Some(j) => {
                    if j < id {
                        self.root_of(j)
                    } else {
                        id
                    }
                },
                None => id,
            }
        } else {
            id
        }
    }
}

} // verus!
