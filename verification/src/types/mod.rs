//! Values of the language, their mathematical model, copying and equality.
pub mod environment;
pub mod error;
pub mod lambda;
pub mod print;

use crate::types::lambda::Lambda;
use vstd::prelude::*;

verus! {

/// The built-in functions of the core library.
#[derive(Clone, Copy, PartialEq, Eq, Structural, Debug)]
pub enum Builtin {
    Atom,
    IsAtom,
    Concat,
    Cons,
    Count,
    Deref,
    IsEmpty,
    First,
    List,
    IsList,
    IsMacro,
    Nth,
    Reset,
    Rest,
    Swap,
    Vec,
    IsVector,
    Throw,
    Add,
    Sub,
    Mul,
    Div,
    Equal,
    NotEqual,
    Less,
    LessEq,
    Greater,
    GreaterEq,
    PrStr,
    Str,
    Prn,
    Println,
    ReadString,
    Slurp,
    TimeMs,
}

/// The mathematical model of a value: strings are character sequences,
/// collections are sequences, a map is its sequence of entries in stored order.
pub enum Val {
    Nil,
    Bool(bool),
    Int(i64),
    Str(Seq<char>),
    Symbol(Seq<char>),
    List(Seq<Val>),
    Vector(Seq<Val>),
    Hashmap(Seq<(Seq<char>, Val)>),
    Function(Builtin),
    Lambda { ast: Box<Val>, params: Seq<Val>, env: usize, is_macro: bool },
    Atom(usize),
}

/// A value of the language. An atom is the index of its cell in the runtime's
/// atom store; a lambda names the environment frame it closes over.
#[derive(Debug)]
pub enum MalVal {
    Nil,
    Bool(bool),
    Int(i64),
    Str(String),
    Symbol(String),
    List(Vec<MalVal>),
    Vector(Vec<MalVal>),
    Hashmap(MalMap),
    Function(Builtin),
    Lambda(Lambda),
    Atom(usize),
}

/// A map from strings to values, kept in insertion order.
#[derive(Debug)]
pub struct MalMap {
    pub entries: Vec<(String, MalVal)>,
}

/// The model of a sequence of values.
pub open spec fn vals(s: Seq<MalVal>) -> Seq<Val> {
    Seq::new(s.len(), |i: int| s[i].val())
}

/// The model of a sequence of map entries.
pub open spec fn ents(s: Seq<(String, MalVal)>) -> Seq<(Seq<char>, Val)> {
    Seq::new(s.len(), |i: int| (s[i].0@, s[i].1.val()))
}

impl MalVal {
    /// The model of this value.
    pub open spec fn val(self) -> Val
        decreases self,
    {
        match self {
            MalVal::Nil => Val::Nil,
            MalVal::Bool(b) => Val::Bool(b),
            MalVal::Int(i) => Val::Int(i),
            MalVal::Str(s) => Val::Str(s@),
            MalVal::Symbol(s) => Val::Symbol(s@),
            MalVal::List(l) => Val::List(
                Seq::new(
                    l@.len(),
                    |i: int|
                        if 0 <= i < l@.len() {
                            l@[i].val()
                        } else {
                            Val::Nil
                        },
                ),
            ),
            MalVal::Vector(l) => Val::Vector(
                Seq::new(
                    l@.len(),
                    |i: int|
                        if 0 <= i < l@.len() {
                            l@[i].val()
                        } else {
                            Val::Nil
                        },
                ),
            ),
            MalVal::Hashmap(m) => Val::Hashmap(
                Seq::new(
                    m.entries@.len(),
                    |i: int|
                        if 0 <= i < m.entries@.len() {
                            (m.entries@[i].0@, m.entries@[i].1.val())
                        } else {
                            (Seq::empty(), Val::Nil)
                        },
                ),
            ),
            MalVal::Function(f) => Val::Function(f),
            MalVal::Lambda(l) => Val::Lambda {
                ast: Box::new(l.ast.val()),
                params: Seq::new(
                    l.args@.len(),
                    |i: int|
                        if 0 <= i < l.args@.len() {
                            l.args@[i].val()
                        } else {
                            Val::Nil
                        },
                ),
                env: l.env,
                is_macro: l.is_macro,
            },
            MalVal::Atom(a) => Val::Atom(a),
        }
    }
}

/// The model of a compound value in terms of `vals`, `ents` and `Lambda::val`.
pub proof fn lemma_val(v: MalVal)
    ensures
        match v {
            MalVal::List(l) => v.val() == Val::List(vals(l@)),
            MalVal::Vector(l) => v.val() == Val::Vector(vals(l@)),
            MalVal::Hashmap(m) => v.val() == Val::Hashmap(m.view()),
            MalVal::Lambda(l) => v.val() == l.val(),
            _ => true,
        },
{
    match v {
        MalVal::List(l) => {
            assert(v.val()->List_0 =~= vals(l@));
        },
        MalVal::Vector(l) => {
            assert(v.val()->Vector_0 =~= vals(l@));
        },
        MalVal::Hashmap(m) => {
            assert(v.val()->Hashmap_0 =~= ents(m.entries@));
        },
        MalVal::Lambda(l) => {
            assert(v.val()->params =~= vals(l.args@));
        },
        _ => {},
    }
}

/// Whether the keys of the entries `es` are pairwise different.
pub open spec fn distinct_keys(es: Seq<(Seq<char>, Val)>) -> bool {
    forall|a: int, b: int| 0 <= a < b < es.len() ==> es[a].0 != es[b].0
}

impl MalMap {
    /// A well-formed map: no key occurs twice among its entries. `new`, `insert`
    /// and `dup` keep maps well-formed, and the library builds maps only with them.
    pub open spec fn wf(self) -> bool {
        distinct_keys(self.view())
    }

    /// The model of this map: its entries in stored order.
    pub open spec fn view(self) -> Seq<(Seq<char>, Val)> {
        ents(self.entries@)
    }
}

/// The value stored under `key`: the first entry that holds that key.
pub open spec fn map_get(m: Seq<(Seq<char>, Val)>, key: Seq<char>) -> Option<Val>
    decreases m.len(),
{
    if m.len() == 0 {
        None
    } else if m[0].0 == key {
        Some(m[0].1)
    } else {
        map_get(m.drop_first(), key)
    }
}

/// The index of the first entry holding `key`, if there is one.
pub open spec fn map_find(m: Seq<(Seq<char>, Val)>, key: Seq<char>) -> Option<int>
    decreases m.len(),
{
    if m.len() == 0 {
        None
    } else if m[0].0 == key {
        Some(0)
    } else {
        match map_find(m.drop_first(), key) {
            Some(i) => Some(i + 1),
            None => None,
        }
    }
}

/// The entries after storing `v` under `key`: the first entry with that key
/// gets the new value, or a new entry is appended at the end.
pub open spec fn map_insert(m: Seq<(Seq<char>, Val)>, key: Seq<char>, v: Val) -> Seq<
    (Seq<char>, Val),
> {
    match map_find(m, key) {
        Some(i) => m.update(i, (key, v)),
        None => m.push((key, v)),
    }
}

pub proof fn lemma_map_find(m: Seq<(Seq<char>, Val)>, key: Seq<char>)
    ensures
        match map_find(m, key) {
            Some(i) => 0 <= i < m.len() && m[i].0 == key && map_get(m, key) == Some(m[i].1)
                && forall|j: int| 0 <= j < i ==> m[j].0 != key,
            None => map_get(m, key) is None && forall|j: int| 0 <= j < m.len() ==> m[j].0 != key,
        },
    decreases m.len(),
{
    if m.len() > 0 && m[0].0 != key {
        lemma_map_find(m.drop_first(), key);
        match map_find(m.drop_first(), key) {
            Some(i) => {
                assert forall|j: int| 0 <= j < i + 1 implies m[j].0 != key by {
                    if j > 0 {
                        assert(m[j] == m.drop_first()[j - 1]);
                    }
                }
            },
            None => {
                assert forall|j: int| 0 <= j < m.len() implies m[j].0 != key by {
                    if j > 0 {
                        assert(m[j] == m.drop_first()[j - 1]);
                    }
                }
            },
        }
    }
}

/// After an insert the key maps to the new value and every other key is unchanged.
pub proof fn lemma_map_insert(m: Seq<(Seq<char>, Val)>, key: Seq<char>, v: Val, other: Seq<char>)
    ensures
        map_get(map_insert(m, key, v), key) == Some(v),
        other != key ==> map_get(map_insert(m, key, v), other) == map_get(m, other),
{
    lemma_map_find(m, key);
    lemma_map_find(map_insert(m, key, v), key);
    lemma_map_find(m, other);
    lemma_map_find(map_insert(m, key, v), other);
    match map_find(m, key) {
        Some(i) => {
            let m2 = map_insert(m, key, v);
            match map_find(m2, key) {
                Some(i2) => {
                    if i2 < i {
                        assert(m2[i2] == m[i2]);
                    }
                    if i < i2 {
                        assert(m2[i].0 == key);
                    }
                },
                None => {
                    assert(m2[i].0 == key);
                },
            }
            if other != key {
                match map_find(m, other) {
                    Some(j) => {
                        assert(m2[j] == m[j]);
                        match map_find(m2, other) {
                            Some(j2) => {
                                if j2 < j {
                                    assert(m2[j2] == m[j2] || j2 == i);
                                }
                                if j < j2 {
                                    assert(m2[j].0 == other);
                                }
                            },
                            None => {},
                        }
                    },
                    None => {
                        match map_find(m2, other) {
                            Some(j2) => {
                                assert(j2 != i);
                                assert(m2[j2] == m[j2]);
                            },
                            None => {},
                        }
                    },
                }
            }
        },
        None => {
            let m2 = map_insert(m, key, v);
            match map_find(m2, key) {
                Some(i2) => {
                    if i2 < m.len() {
                        assert(m2[i2] == m[i2]);
                    }
                },
                None => {
                    assert(m2[m.len() as int].0 == key);
                },
            }
            if other != key {
                match map_find(m, other) {
                    Some(j) => {
                        assert(m2[j] == m[j]);
                        match map_find(m2, other) {
                            Some(j2) => {
                                if j2 < j {
                                    assert(m2[j2] == m[j2]);
                                }
                                if j < j2 {
                                    assert(m2[j].0 == other);
                                }
                            },
                            None => {},
                        }
                    },
                    None => {
                        match map_find(m2, other) {
                            Some(j2) => {
                                if j2 < m.len() {
                                    assert(m2[j2] == m[j2]);
                                }
                            },
                            None => {},
                        }
                    },
                }
            }
        },
    }
}

/// The contents of atom `i`; a reference past the store reads as `nil`.
pub open spec fn atom_get(atoms: Seq<Val>, i: usize) -> Val {
    if i < atoms.len() {
        atoms[i as int]
    } else {
        Val::Nil
    }
}

/// Equality of values. Lists and vectors with equal elements are equal, maps are
/// equal when they have as many entries and every entry of `a` is found in `b`,
/// functions and lambdas are never equal. Atoms compare by cell when `by_id`,
/// otherwise by contents, following at most `k` atoms in a row: `None` when that
/// is not enough, which happens only on a cycle through atoms.
pub open spec fn val_eq(a: Val, b: Val, atoms: Seq<Val>, k: nat, by_id: bool) -> Option<bool>
    decreases k, a, 0nat,
{
    match (a, b) {
        (Val::Nil, Val::Nil) => Some(true),
        (Val::Bool(x), Val::Bool(y)) => Some(x == y),
        (Val::Int(x), Val::Int(y)) => Some(x == y),
        (Val::Str(x), Val::Str(y)) => Some(x == y),
        (Val::Symbol(x), Val::Symbol(y)) => Some(x == y),
        (Val::List(x), Val::List(y)) => seq_eq(x, y, atoms, k, by_id, 0),
        (Val::Vector(x), Val::Vector(y)) => seq_eq(x, y, atoms, k, by_id, 0),
        (Val::Vector(x), Val::List(y)) => seq_eq(x, y, atoms, k, by_id, 0),
        (Val::List(x), Val::Vector(y)) => seq_eq(x, y, atoms, k, by_id, 0),
        (Val::Hashmap(x), Val::Hashmap(y)) => if x.len() != y.len() {
            Some(false)
        } else {
            map_eq(x, y, atoms, k, by_id, 0)
        },
        (Val::Atom(i), Val::Atom(j)) => if by_id {
            Some(i == j)
        } else if k == 0 {
            None
        } else {
            val_eq(atom_get(atoms, i), atom_get(atoms, j), atoms, (k - 1) as nat, by_id)
        },
        _ => Some(false),
    }
}

/// Element-wise equality of two sequences from index `i` on (lengths first).
pub open spec fn seq_eq(x: Seq<Val>, y: Seq<Val>, atoms: Seq<Val>, k: nat, by_id: bool, i: nat) -> Option<
    bool,
>
    decreases k, x, x.len() - i,
{
    if x.len() != y.len() {
        Some(false)
    } else if i >= x.len() {
        Some(true)
    } else {
        match val_eq(x[i as int], y[i as int], atoms, k, by_id) {
            Some(true) => seq_eq(x, y, atoms, k, by_id, i + 1),
            r => r,
        }
    }
}

/// Every entry of `x` from index `i` on is found in `y` with an equal value.
pub open spec fn map_eq(
    x: Seq<(Seq<char>, Val)>,
    y: Seq<(Seq<char>, Val)>,
    atoms: Seq<Val>,
    k: nat,
    by_id: bool,
    i: nat,
) -> Option<bool>
    decreases k, x, x.len() - i,
{
    if i >= x.len() {
        Some(true)
    } else {
        match map_get(y, x[i as int].0) {
            None => Some(false),
            Some(w) => match val_eq(x[i as int].1, w, atoms, k, by_id) {
                Some(true) => map_eq(x, y, atoms, k, by_id, i + 1),
                r => r,
            },
        }
    }
}

} // verus!

verus! {

impl MalVal {
    /// A copy of this value with the same model.
    pub fn dup(&self) -> (r: MalVal)
        ensures
            r.val() == self.val(),
        decreases self,
    {
        let r = match self {
            MalVal::Nil => MalVal::Nil,
            MalVal::Bool(b) => MalVal::Bool(*b),
            MalVal::Int(i) => MalVal::Int(*i),
            MalVal::Str(s) => MalVal::Str(s.clone()),
            MalVal::Symbol(s) => MalVal::Symbol(s.clone()),
            MalVal::List(l) => MalVal::List(dup_vec(l)),
            MalVal::Vector(l) => MalVal::Vector(dup_vec(l)),
            MalVal::Hashmap(m) => MalVal::Hashmap(m.dup()),
            MalVal::Function(f) => MalVal::Function(*f),
            MalVal::Lambda(l) => MalVal::Lambda(l.dup()),
            MalVal::Atom(a) => MalVal::Atom(*a),
        };
        proof {
            lemma_val(*self);
            lemma_val(r);
        }
        r
    }
}

/// A copy of a vector of values with the same model.
pub fn dup_vec(v: &Vec<MalVal>) -> (r: Vec<MalVal>)
    ensures
        vals(r@) == vals(v@),
    decreases v,
{
    let mut r: Vec<MalVal> = Vec::new();
    for i in 0..v.len()
        invariant
            r@.len() == i,
            i <= v@.len(),
            forall|j: int| 0 <= j < i ==> #[trigger] r@[j].val() == v@[j].val(),
    {
        assert(decreases_to!(v => v@[i as int]));
        r.push(v[i].dup());
    }
    assert(vals(r@) =~= vals(v@));
    r
}

/// A copy of a slice of a vector of values.
pub fn dup_range(v: &Vec<MalVal>, from: usize, to: usize) -> (r: Vec<MalVal>)
    requires
        from <= to <= v@.len(),
    ensures
        vals(r@) == vals(v@).subrange(from as int, to as int),
{
    let mut r: Vec<MalVal> = Vec::new();
    let mut i = from;
    while i < to
        invariant
            from <= i <= to <= v@.len(),
            r@.len() == i - from,
            forall|j: int| 0 <= j < i - from ==> #[trigger] r@[j].val() == v@[j + from].val(),
        decreases to - i,
    {
        r.push(v[i].dup());
        i = i + 1;
    }
    assert(vals(r@) =~= vals(v@).subrange(from as int, to as int));
    r
}

impl MalMap {
    /// An empty map.
    pub fn new() -> (m: MalMap)
        ensures
            m.view() == Seq::<(Seq<char>, Val)>::empty(),
            m.wf(),
    {
        let m = MalMap { entries: Vec::new() };
        assert(m.view() =~= Seq::<(Seq<char>, Val)>::empty());
        m
    }

    /// A copy of this map with the same model.
    pub fn dup(&self) -> (r: MalMap)
        ensures
            r.view() == self.view(),
            self.wf() ==> r.wf(),
        decreases self,
    {
        let mut es: Vec<(String, MalVal)> = Vec::new();
        for i in 0..self.entries.len()
            invariant
                es@.len() == i,
                i <= self.entries@.len(),
                forall|j: int| 0 <= j < i ==> (#[trigger] es@[j]).0@ == self.entries@[j].0@,
                forall|j: int| 0 <= j < i ==> (#[trigger] es@[j]).1.val() == self.entries@[j].1.val(),
        {
            assert(decreases_to!(self => self.entries@[i as int].1));
            let e = &self.entries[i];
            es.push((e.0.clone(), e.1.dup()));
        }
        let r = MalMap { entries: es };
        assert(r.view() =~= self.view());
        r
    }

    /// The number of entries.
    pub fn len(&self) -> (n: usize)
        ensures
            n == self.view().len(),
    {
        self.entries.len()
    }

    /// Whether the map has no entry.
    pub fn is_empty(&self) -> (b: bool)
        ensures
            b == (self.view().len() == 0),
    {
        self.entries.len() == 0
    }

    /// The index of the first entry holding `key`.
    pub fn find(&self, key: &str) -> (r: Option<usize>)
        ensures
            r matches Some(i) ==> map_find(self.view(), key@) == Some(i as int),
            r is None ==> map_find(self.view(), key@) is None,
    {
        let k = crate::text::chars_of(key);
        let mut i: usize = 0;
        assert(self.view().skip(0) =~= self.view());
        while i < self.entries.len()
            invariant
                k@ == key@,
                i <= self.entries@.len(),
                map_find(self.view(), key@) == match map_find(self.view().skip(i as int), key@) {
                    Some(j) => Some(j + i),
                    None => None,
                },
            decreases self.entries@.len() - i,
        {
            let e = crate::text::chars_of(self.entries[i].0.as_str());
            assert(self.view().skip(i as int)[0] == self.view()[i as int]);
            if crate::text::same_chars(&e, &k) {
                return Some(i);
            }
            assert(self.view().skip(i as int).drop_first() =~= self.view().skip(i + 1));
            i = i + 1;
        }
        None
    }

    /// The value stored under `key`.
    pub fn get(&self, key: &str) -> (r: Option<&MalVal>)
        ensures
            r matches Some(v) ==> map_get(self.view(), key@) == Some(v.val()),
            r is None ==> map_get(self.view(), key@) is None,
    {
        proof {
            lemma_map_find(self.view(), key@);
        }
        match self.find(key) {
            Some(i) => Some(&self.entries[i].1),
            None => None,
        }
    }

    /// Stores `v` under `key`, replacing the value of an entry that already holds it.
    pub fn insert(&mut self, key: String, v: MalVal)
        ensures
            final(self).view() == map_insert(old(self).view(), key@, v.val()),
            old(self).wf() ==> final(self).wf(),
    {
        proof {
            lemma_map_find(self.view(), key@);
        }
        match self.find(key.as_str()) {
            Some(i) => {
                self.entries.set(i, (key, v));
            },
            None => {
                self.entries.push((key, v));
            },
        }
        assert(self.view() =~= map_insert(old(self).view(), key@, v.val()));
        proof {
            lemma_insert_distinct(old(self).view(), key@, v.val());
        }
    }
}

/// Storing under a key keeps the keys of a map pairwise different.
pub proof fn lemma_insert_distinct(m: Seq<(Seq<char>, Val)>, key: Seq<char>, v: Val)
    ensures
        distinct_keys(m) ==> distinct_keys(map_insert(m, key, v)),
{
    lemma_map_find(m, key);
    if distinct_keys(m) {
        let m2 = map_insert(m, key, v);
        match map_find(m, key) {
            Some(i) => {
                assert forall|a: int, b: int| 0 <= a < b < m2.len() implies m2[a].0 != m2[b].0 by {
                    if a != i && b != i {
                        assert(m2[a] == m[a] && m2[b] == m[b]);
                    } else if a == i {
                        assert(m2[b] == m[b]);
                    } else {
                        assert(m2[a] == m[a]);
                    }
                }
            },
            None => {
                assert forall|a: int, b: int| 0 <= a < b < m2.len() implies m2[a].0 != m2[b].0 by {
                    if b < m.len() {
                        assert(m2[a] == m[a] && m2[b] == m[b]);
                    } else {
                        assert(m2[a] == m[a]);
                    }
                }
            },
        }
    }
}

/// The value of `a` and `b` under `val_eq`.
pub fn eq_values(a: &MalVal, b: &MalVal, atoms: &Vec<MalVal>, k: usize, by_id: bool) -> (r: Option<
    bool,
>)
    ensures
        r == val_eq(a.val(), b.val(), vals(atoms@), k as nat, by_id),
    decreases k, a.val(), 0nat,
{
    proof {
        lemma_val(*a);
        lemma_val(*b);
    }
    match (a, b) {
        (MalVal::Nil, MalVal::Nil) => Some(true),
        (MalVal::Bool(x), MalVal::Bool(y)) => Some(*x == *y),
        (MalVal::Int(x), MalVal::Int(y)) => Some(*x == *y),
        (MalVal::Str(x), MalVal::Str(y)) => Some(*x == *y),
        (MalVal::Symbol(x), MalVal::Symbol(y)) => Some(*x == *y),
        (MalVal::List(x), MalVal::List(y)) => eq_seqs(x, y, atoms, k, by_id, 0),
        (MalVal::Vector(x), MalVal::Vector(y)) => eq_seqs(x, y, atoms, k, by_id, 0),
        (MalVal::Vector(x), MalVal::List(y)) => eq_seqs(x, y, atoms, k, by_id, 0),
        (MalVal::List(x), MalVal::Vector(y)) => eq_seqs(x, y, atoms, k, by_id, 0),
        (MalVal::Hashmap(x), MalVal::Hashmap(y)) => {
            if x.entries.len() != y.entries.len() {
                Some(false)
            } else {
                eq_maps(x, y, atoms, k, by_id, 0)
            }
        },
        (MalVal::Atom(i), MalVal::Atom(j)) => {
            if by_id {
                Some(*i == *j)
            } else if k == 0 {
                None
            } else {
                let nil = MalVal::Nil;
                let x = if *i < atoms.len() {
                    &atoms[*i]
                } else {
                    &nil
                };
                let y = if *j < atoms.len() {
                    &atoms[*j]
                } else {
                    &nil
                };
                eq_values(x, y, atoms, k - 1, by_id)
            }
        },
        _ => Some(false),
    }
}

fn eq_seqs(x: &Vec<MalVal>, y: &Vec<MalVal>, atoms: &Vec<MalVal>, k: usize, by_id: bool, i: usize) -> (r:
    Option<bool>)
    requires
        i <= x@.len(),
    ensures
        r == seq_eq(vals(x@), vals(y@), vals(atoms@), k as nat, by_id, i as nat),
    decreases k, vals(x@), x@.len() - i,
{
    if x.len() != y.len() {
        Some(false)
    } else if i >= x.len() {
        Some(true)
    } else {
        match eq_values(&x[i], &y[i], atoms, k, by_id) {
            Some(true) => eq_seqs(x, y, atoms, k, by_id, i + 1),
            r => r,
        }
    }
}

fn eq_maps(x: &MalMap, y: &MalMap, atoms: &Vec<MalVal>, k: usize, by_id: bool, i: usize) -> (r: Option<
    bool,
>)
    requires
        i <= x.view().len(),
    ensures
        r == map_eq(x.view(), y.view(), vals(atoms@), k as nat, by_id, i as nat),
    decreases k, x.view(), x.view().len() - i,
{
    if i >= x.entries.len() {
        Some(true)
    } else {
        match y.get(x.entries[i].0.as_str()) {
            None => Some(false),
            Some(w) => match eq_values(&x.entries[i].1, w, atoms, k, by_id) {
                Some(true) => eq_maps(x, y, atoms, k, by_id, i + 1),
                r => r,
            },
        }
    }
}

impl Clone for MalVal {
    fn clone(&self) -> (r: Self)
        ensures
            r.val() == self.val(),
    {
        self.dup()
    }
}

impl Clone for MalMap {
    fn clone(&self) -> (r: Self)
        ensures
            r.view() == self.view(),
    {
        self.dup()
    }
}

impl MalVal {
    /// Equality of values (see `val_eq`): lists and vectors with equal items are
    /// equal, maps with the same keys and equal values are equal, functions and
    /// lambdas are never equal, and atoms are equal when their contents are.
    /// Those contents live in a runtime's store, which is why equality takes the
    /// store `atoms` and values have no `==` of their own. `None` when the
    /// contents of atoms hold themselves, so that the comparison never ends.
    pub fn equals(&self, other: &MalVal, atoms: &Vec<MalVal>) -> (r: Option<bool>)
        ensures
            r == val_eq(self.val(), other.val(), vals(atoms@), atoms@.len() as nat, false),
    {
        eq_values(self, other, atoms, atoms.len(), false)
    }
}

impl MalVal {
    pub fn is_nil(&self) -> (b: bool)
        ensures
            b == (self.val() is Nil),
    {
        matches!(self, MalVal::Nil)
    }

    pub fn is_bool(&self) -> (b: bool)
        ensures
            b == (self.val() is Bool),
    {
        matches!(self, MalVal::Bool(_))
    }

    pub fn is_int(&self) -> (b: bool)
        ensures
            b == (self.val() is Int),
    {
        matches!(self, MalVal::Int(_))
    }

    pub fn is_list(&self) -> (b: bool)
        ensures
            b == (self.val() is List),
    {
        matches!(self, MalVal::List(_))
    }

    pub fn is_vector(&self) -> (b: bool)
        ensures
            b == (self.val() is Vector),
    {
        matches!(self, MalVal::Vector(_))
    }

    pub fn is_function(&self) -> (b: bool)
        ensures
            b == (self.val() is Function),
    {
        matches!(self, MalVal::Function(_))
    }

    /// A lambda that is not a macro.
    pub fn is_lambda(&self) -> (b: bool)
        ensures
            b == (self.val() matches Val::Lambda { is_macro, .. } && !is_macro),
    {
        match self {
            MalVal::Lambda(l) => !l.is_macro,
            _ => false,
        }
    }

    /// A string that is not a keyword (keywords are strings that begin with 'ʞ').
    pub fn is_string(&self) -> (b: bool)
        ensures
            b == (self.val() matches Val::Str(s) && !(s.len() > 0 && s[0] == '\u{29e}')),
    {
        match self {
            MalVal::Str(s) => {
                !crate::text::starts_with_char(s.as_str(), '\u{29e}') || crate::text::starts_with_char(
                    s.as_str(),
                    '"',
                )
            },
            _ => false,
        }
    }
}

} // verus!
