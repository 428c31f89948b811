//! Printing values as text.
use crate::text::{chars_of, int_text, push_all, push_int};
use crate::types::{atom_get, lemma_val, vals, MalMap, MalVal, Val};
use vstd::prelude::*;

verus! {

/// The escaped form of one character: `"`, newline and `\` get a backslash.
pub open spec fn escape_char(c: char) -> Seq<char> {
    if c == '"' {
        seq!['\\', '"']
    } else if c == '\n' {
        seq!['\\', 'n']
    } else if c == '\\' {
        seq!['\\', '\\']
    } else {
        seq![c]
    }
}

/// The escaped form of a string, character by character.
pub open spec fn escape(s: Seq<char>) -> Seq<char>
    decreases s.len(),
{
    if s.len() == 0 {
        Seq::empty()
    } else {
        escape(s.drop_last()) + escape_char(s.last())
    }
}

/// Whether a string is a keyword: it begins with 'ʞ'.
pub open spec fn is_kw(s: Seq<char>) -> bool {
    s.len() > 0 && s[0] == '\u{29e}'
}

/// The text of a string value: a keyword shows as `:` and its name; otherwise
/// readably the string is escaped and quoted, else shown as it is.
pub open spec fn str_text(s: Seq<char>, readably: bool) -> Seq<char> {
    if readably {
        if is_kw(s) {
            seq![':'] + escape(s.drop_first())
        } else {
            seq!['"'] + escape(s) + seq!['"']
        }
    } else if is_kw(s) {
        seq![':'] + s.drop_first()
    } else {
        s
    }
}

/// The text of a map key: a keyword shows as `:` and its name, another key in
/// quotes; with `esc` the name or key is escaped.
pub open spec fn key_text(key: Seq<char>, esc: bool) -> Seq<char> {
    if is_kw(key) {
        seq![':'] + (if esc {
            escape(key.drop_first())
        } else {
            key.drop_first()
        })
    } else {
        seq!['"'] + (if esc {
            escape(key)
        } else {
            key
        }) + seq!['"']
    }
}

/// The text of a value. `readably` escapes and quotes strings, `esc` escapes map
/// keys. An atom shows as `(atom <contents>)`, following at most `k` atoms in a
/// row: `None` when that is not enough, which happens only on a cycle through atoms.
pub open spec fn pr(v: Val, readably: bool, esc: bool, atoms: Seq<Val>, k: nat) -> Option<Seq<char>>
    decreases k, v, 0nat,
{
    match v {
        Val::Nil => Some("nil"@),
        Val::Bool(b) => Some(
            if b {
                "true"@
            } else {
                "false"@
            },
        ),
        Val::Int(i) => Some(int_text(i as int)),
        Val::Symbol(s) => Some(s),
        Val::Str(s) => Some(str_text(s, readably)),
        Val::List(l) => match pr_items(l, readably, esc, atoms, k, l.len()) {
            Some(t) => Some(seq!['('] + t + seq![')']),
            None => None,
        },
        Val::Vector(l) => match pr_items(l, readably, esc, atoms, k, l.len()) {
            Some(t) => Some(seq!['['] + t + seq![']']),
            None => None,
        },
        Val::Hashmap(es) => match pr_entries(es, readably, esc, atoms, k, es.len()) {
            Some(t) => Some(seq!['{'] + t + seq!['}']),
            None => None,
        },
        Val::Function(_) => Some("#<builtin>"@),
        Val::Lambda { .. } => Some("#<function>"@),
        Val::Atom(i) => if k == 0 {
            None
        } else {
            match pr(atom_get(atoms, i), readably, esc, atoms, (k - 1) as nat) {
                Some(t) => Some("(atom "@ + t + seq![')']),
                None => None,
            }
        },
    }
}

/// The texts of the first `n` items, separated by single spaces.
pub open spec fn pr_items(l: Seq<Val>, readably: bool, esc: bool, atoms: Seq<Val>, k: nat, n: nat) -> Option<
    Seq<char>,
>
    decreases k, l, n,
{
    if n == 0 || n > l.len() {
        Some(Seq::empty())
    } else {
        match (pr_items(l, readably, esc, atoms, k, (n - 1) as nat), pr(l[n - 1], readably, esc, atoms, k)) {
            (Some(a), Some(b)) => Some(
                if n == 1 {
                    b
                } else {
                    a + seq![' '] + b
                },
            ),
            _ => None,
        }
    }
}

/// The texts of the first `n` entries as `key value`, separated by single spaces.
pub open spec fn pr_entries(
    es: Seq<(Seq<char>, Val)>,
    readably: bool,
    esc: bool,
    atoms: Seq<Val>,
    k: nat,
    n: nat,
) -> Option<Seq<char>>
    decreases k, es, n,
{
    if n == 0 || n > es.len() {
        Some(Seq::empty())
    } else {
        match (pr_entries(es, readably, esc, atoms, k, (n - 1) as nat), pr(es[n - 1].1, readably, esc, atoms, k)) {
            (Some(a), Some(b)) => {
                let e = key_text(es[n - 1].0, esc) + seq![' '] + b;
                Some(
                    if n == 1 {
                        e
                    } else {
                        a + seq![' '] + e
                    },
                )
            },
            _ => None,
        }
    }
}

/// Appends the escaped form of `s[from..]` to `out`.
fn push_escaped(out: &mut String, s: &Vec<char>, from: usize)
    requires
        from <= s@.len(),
    ensures
        final(out)@ == old(out)@ + escape(s@.subrange(from as int, s@.len() as int)),
{
    let ghost o = old(out)@;
    let mut i = from;
    assert(s@.subrange(from as int, from as int) =~= Seq::<char>::empty());
    assert(o + Seq::<char>::empty() =~= o);
    while i < s.len()
        invariant
            from <= i <= s@.len(),
            out@ == o + escape(s@.subrange(from as int, i as int)),
        decreases s@.len() - i,
    {
        let c = s[i];
        let ghost before = out@;
        if c == '"' {
            out.push('\\');
            out.push('"');
        } else if c == '\n' {
            out.push('\\');
            out.push('n');
        } else if c == '\\' {
            out.push('\\');
            out.push('\\');
        } else {
            out.push(c);
        }
        assert(out@ =~= before + escape_char(c));
        let ghost t = s@.subrange(from as int, i + 1);
        assert(t.drop_last() =~= s@.subrange(from as int, i as int));
        assert(out@ =~= o + escape(t));
        i = i + 1;
    }
}

/// Appends the text of a string value to `out`.
fn push_str_text(out: &mut String, s: &String, readably: bool)
    ensures
        final(out)@ == old(out)@ + str_text(s@, readably),
{
    let v = chars_of(s.as_str());
    let kw = v.len() > 0 && v[0] == '\u{29e}';
    let ghost o = old(out)@;
    if readably {
        if kw {
            out.push(':');
            push_escaped(out, &v, 1);
            assert(v@.subrange(1, v@.len() as int) =~= v@.drop_first());
            assert(out@ =~= o + str_text(s@, readably));
        } else {
            out.push('"');
            push_escaped(out, &v, 0);
            out.push('"');
            assert(v@.subrange(0, v@.len() as int) =~= v@);
            assert(out@ =~= o + str_text(s@, readably));
        }
    } else if kw {
        out.push(':');
        let mut i: usize = 1;
        while i < v.len()
            invariant
                1 <= i <= v@.len(),
                v@ == s@,
                out@ == o.push(':') + v@.subrange(1, i as int),
            decreases v@.len() - i,
        {
            out.push(v[i]);
            assert(v@.subrange(1, i as int).push(v@[i as int]) =~= v@.subrange(1, i + 1));
            assert(o.push(':') + v@.subrange(1, i as int).push(v@[i as int]) =~= o.push(':')
                + v@.subrange(1, i + 1));
            i = i + 1;
        }
        assert(out@ =~= o + str_text(s@, readably));
    } else {
        push_all(out, s.as_str());
    }
}

/// Appends the text of a map key to `out`.
fn push_key_text(out: &mut String, key: &String, esc: bool)
    ensures
        final(out)@ == old(out)@ + key_text(key@, esc),
{
    let v = chars_of(key.as_str());
    let ghost o = old(out)@;
    if v.len() > 0 && v[0] == '\u{29e}' {
        out.push(':');
        if esc {
            push_escaped(out, &v, 1);
        } else {
            let mut i: usize = 1;
            while i < v.len()
                invariant
                    1 <= i <= v@.len(),
                    out@ == o.push(':') + v@.subrange(1, i as int),
                decreases v@.len() - i,
            {
                out.push(v[i]);
                assert(v@.subrange(1, i as int).push(v@[i as int]) =~= v@.subrange(1, i + 1));
                assert(o.push(':') + v@.subrange(1, i as int).push(v@[i as int]) =~= o.push(':')
                    + v@.subrange(1, i + 1));
                i = i + 1;
            }
        }
        assert(v@.subrange(1, v@.len() as int) =~= v@.drop_first());
        assert(out@ =~= o + key_text(key@, esc));
    } else {
        out.push('"');
        if esc {
            push_escaped(out, &v, 0);
            assert(v@.subrange(0, v@.len() as int) =~= v@);
        } else {
            push_all(out, key.as_str());
        }
        out.push('"');
        assert(out@ =~= o + key_text(key@, esc));
    }
}

#[verifier::rlimit(50)]
/// Appends the text of `v` to `out`; `false` (with `out` unspecified) when `pr` is `None`.
pub fn pr_into(v: &MalVal, readably: bool, esc: bool, atoms: &Vec<MalVal>, k: usize, out: &mut String) -> (ok:
    bool)
    ensures
        match pr(v.val(), readably, esc, vals(atoms@), k as nat) {
            Some(t) => ok && final(out)@ == old(out)@ + t,
            None => !ok,
        },
    decreases k, v.val(), 0nat,
{
    proof {
        lemma_val(*v);
    }
    let ghost o = old(out)@;
    match v {
        MalVal::Nil => {
            push_all(out, "nil");
            true
        },
        MalVal::Bool(b) => {
            if *b {
                push_all(out, "true");
            } else {
                push_all(out, "false");
            }
            true
        },
        MalVal::Int(i) => {
            push_int(out, *i);
            true
        },
        MalVal::Symbol(s) => {
            push_all(out, s.as_str());
            true
        },
        MalVal::Str(s) => {
            push_str_text(out, s, readably);
            true
        },
        MalVal::List(l) => {
            out.push('(');
            let ok = pr_items_into(l, readably, esc, atoms, k, out);
            if ok {
                out.push(')');
                assert(out@ =~= o + pr(v.val(), readably, esc, vals(atoms@), k as nat)->Some_0);
            }
            ok
        },
        MalVal::Vector(l) => {
            out.push('[');
            let ok = pr_items_into(l, readably, esc, atoms, k, out);
            if ok {
                out.push(']');
                assert(out@ =~= o + pr(v.val(), readably, esc, vals(atoms@), k as nat)->Some_0);
            }
            ok
        },
        MalVal::Hashmap(m) => {
            out.push('{');
            let ok = pr_entries_into(m, readably, esc, atoms, k, out);
            if ok {
                out.push('}');
                assert(out@ =~= o + pr(v.val(), readably, esc, vals(atoms@), k as nat)->Some_0);
            }
            ok
        },
        MalVal::Function(_) => {
            push_all(out, "#<builtin>");
            true
        },
        MalVal::Lambda(_) => {
            push_all(out, "#<function>");
            true
        },
        MalVal::Atom(i) => {
            if k == 0 {
                false
            } else {
                push_all(out, "(atom ");
                let nil = MalVal::Nil;
                let x = if *i < atoms.len() {
                    &atoms[*i]
                } else {
                    &nil
                };
                let ok = pr_into(x, readably, esc, atoms, k - 1, out);
                if ok {
                    out.push(')');
                    assert(out@ =~= o + pr(v.val(), readably, esc, vals(atoms@), k as nat)->Some_0);
                }
                ok
            }
        },
    }
}

fn pr_items_into(l: &Vec<MalVal>, readably: bool, esc: bool, atoms: &Vec<MalVal>, k: usize, out: &mut String) -> (ok:
    bool)
    ensures
        match pr_items(vals(l@), readably, esc, vals(atoms@), k as nat, l@.len()) {
            Some(t) => ok && final(out)@ == old(out)@ + t,
            None => !ok,
        },
    decreases k, vals(l@), l@.len() + 1,
{
    let ghost o = old(out)@;
    let ghost lv = vals(l@);
    let mut i: usize = 0;
    assert(o + Seq::<char>::empty() =~= o);
    while i < l.len()
        invariant
            lv == vals(l@),
            i <= l@.len(),
            pr_items(lv, readably, esc, vals(atoms@), k as nat, i as nat) matches Some(t) && out@ == o
                + t,
        decreases l@.len() - i,
    {
        let ghost before = out@;
        if i > 0 {
            out.push(' ');
        }
        let ok = pr_into(&l[i], readably, esc, atoms, k, out);
        if !ok {
            assert(pr_items(lv, readably, esc, vals(atoms@), k as nat, (i + 1) as nat) is None);
            proof {
                lemma_pr_items_none(lv, readably, esc, vals(atoms@), k as nat, (i + 1) as nat, l@.len());
            }
            return false;
        }
        let ghost t = pr_items(lv, readably, esc, vals(atoms@), k as nat, (i + 1) as nat)->Some_0;
        assert(out@ =~= o + t);
        i = i + 1;
    }
    true
}

proof fn lemma_pr_items_none(l: Seq<Val>, readably: bool, esc: bool, atoms: Seq<Val>, k: nat, i: nat, n: nat)
    requires
        1 <= i <= n <= l.len(),
        pr_items(l, readably, esc, atoms, k, i) is None,
    ensures
        pr_items(l, readably, esc, atoms, k, n) is None,
    decreases n - i,
{
    if i < n {
        lemma_pr_items_none(l, readably, esc, atoms, k, i, (n - 1) as nat);
    }
}

proof fn lemma_pr_entries_none(
    es: Seq<(Seq<char>, Val)>,
    readably: bool,
    esc: bool,
    atoms: Seq<Val>,
    k: nat,
    i: nat,
    n: nat,
)
    requires
        1 <= i <= n <= es.len(),
        pr_entries(es, readably, esc, atoms, k, i) is None,
    ensures
        pr_entries(es, readably, esc, atoms, k, n) is None,
    decreases n - i,
{
    if i < n {
        lemma_pr_entries_none(es, readably, esc, atoms, k, i, (n - 1) as nat);
    }
}

fn pr_entries_into(m: &MalMap, readably: bool, esc: bool, atoms: &Vec<MalVal>, k: usize, out: &mut String) -> (ok:
    bool)
    ensures
        match pr_entries(m.view(), readably, esc, vals(atoms@), k as nat, m.view().len()) {
            Some(t) => ok && final(out)@ == old(out)@ + t,
            None => !ok,
        },
    decreases k, m.view(), m.view().len() + 1,
{
    let ghost o = old(out)@;
    let ghost es = m.view();
    let mut i: usize = 0;
    assert(o + Seq::<char>::empty() =~= o);
    while i < m.entries.len()
        invariant
            es == m.view(),
            i <= es.len(),
            pr_entries(es, readably, esc, vals(atoms@), k as nat, i as nat) matches Some(t) && out@ == o
                + t,
        decreases es.len() - i,
    {
        let ghost a = pr_entries(es, readably, esc, vals(atoms@), k as nat, i as nat)->Some_0;
        if i > 0 {
            out.push(' ');
        }
        let ghost o1 = out@;
        let e = &m.entries[i];
        assert(es[i as int] == (e.0@, e.1.val()));
        push_key_text(out, &e.0, esc);
        out.push(' ');
        let ghost o2 = out@;
        assert(decreases_to!(es => es[i as int].1));
        let ok = pr_into(&e.1, readably, esc, atoms, k, out);
        if !ok {
            proof {
                lemma_pr_entries_none(es, readably, esc, vals(atoms@), k as nat, (i + 1) as nat, es.len());
            }
            return false;
        }
        proof {
            let b = pr(es[i as int].1, readably, esc, vals(atoms@), k as nat)->Some_0;
            let en = key_text(es[i as int].0, esc) + seq![' '] + b;
            assert(o2 == o1 + key_text(es[i as int].0, esc) + seq![' ']);
            assert(out@ == o2 + b);
            if i == 0 {
                assert(out@ =~= o + en);
            } else {
                assert(out@ =~= o + (a + seq![' '] + en));
            }
        }
        i = i + 1;
    }
    true
}

/// The text that `display` gives: the readable text with map keys escaped, or
/// `#<atom>` for a value that holds an atom.
pub open spec fn display_text(v: Val) -> Seq<char> {
    match pr(v, true, true, Seq::empty(), 0) {
        Some(t) => t,
        None => "#<atom>"@,
    }
}

impl MalVal {
    /// The text of this value, following atoms into the store `atoms`; `None` when
    /// an atom holds itself (through any number of atoms), whose text never ends.
    pub fn pr_str(&self, print_readably: bool, atoms: &Vec<MalVal>) -> (r: Option<String>)
        ensures
            match pr(self.val(), print_readably, false, vals(atoms@), atoms@.len() as nat) {
                Some(t) => r matches Some(s) && s@ == t,
                None => r is None,
            },
    {
        let mut s = String::new();
        if pr_into(self, print_readably, false, atoms, atoms.len(), &mut s) {
            assert(Seq::<char>::empty() + pr(self.val(), print_readably, false, vals(atoms@), atoms@.len() as nat)->Some_0
                =~= pr(self.val(), print_readably, false, vals(atoms@), atoms@.len() as nat)->Some_0);
            Some(s)
        } else {
            None
        }
    }

    /// The readable text of this value on its own, with map keys escaped.
    pub fn display(&self) -> (s: String)
        ensures
            s@ == display_text(self.val()),
    {
        let mut s = String::new();
        let empty: Vec<MalVal> = Vec::new();
        assert(vals(empty@) =~= Seq::<Val>::empty());
        if pr_into(self, true, true, &empty, 0, &mut s) {
            assert(Seq::<char>::empty() + pr(self.val(), true, true, Seq::empty(), 0)->Some_0 =~= pr(
                self.val(),
                true,
                true,
                Seq::empty(),
                0,
            )->Some_0);
            s
        } else {
            crate::text::owned("#<atom>")
        }
    }
}

/// The escaped form of a string.
pub fn escape_str(s: &str) -> (r: String)
    ensures
        r@ == escape(s@),
{
    let v = chars_of(s);
    let mut r = String::new();
    push_escaped(&mut r, &v, 0);
    assert(v@.subrange(0, v@.len() as int) =~= v@);
    assert(Seq::<char>::empty() + escape(s@) =~= escape(s@));
    r
}

} // verus!
