//! Reading text into values: tokens, then forms.
use crate::text::{chars_of, owned, same_chars, string_of_range};
use crate::types::error::{err, error, panic_error, panic_res, rv, ErrV, MalError, MalReturn, Res};
use crate::types::print::pr;
use crate::types::{lemma_val, map_insert, vals, MalMap, MalVal, Val};
use vstd::prelude::*;

verus! {

/// A sequence of tokens and the position of the next one.
pub struct Reader {
    pub tokens: Vec<String>,
    pub pos: usize,
}

/// The models of a sequence of strings.
pub open spec fn strs(v: Seq<String>) -> Seq<Seq<char>> {
    Seq::new(v.len(), |i: int| v[i]@)
}

impl Reader {
    /// The tokens of this reader.
    pub open spec fn toks(self) -> Seq<Seq<char>> {
        strs(self.tokens@)
    }

    /// The token at the current position, or the error `underflow` past the end.
    pub fn peek(&self) -> (r: Result<&str, MalError>)
        ensures
            self.pos < self.tokens@.len() ==> (r matches Ok(t) && t@ == self.toks()[self.pos as int]),
            self.pos >= self.tokens@.len() ==> (r matches Err(e) && e.view() == ErrV::Error("underflow"@)),
    {
        if self.pos < self.tokens.len() {
            Ok(self.tokens[self.pos].as_str())
        } else {
            Err(error("underflow"))
        }
    }

    /// The token at the current position, moving past it; the error `underflow`
    /// past the end (the position moves on either way).
    pub fn next(&mut self) -> (r: Result<String, MalError>)
        requires
            old(self).pos < usize::MAX,
        ensures
            final(self).tokens@ == old(self).tokens@,
            final(self).pos == old(self).pos + 1,
            old(self).pos < old(self).tokens@.len() ==> (r matches Ok(t) && t@ == old(self).toks()[old(
                self,
            ).pos as int]),
            old(self).pos >= old(self).tokens@.len() ==> (r matches Err(e) && e.view() == ErrV::Error(
                "underflow"@,
            )),
    {
        self.pos = self.pos + 1;
        if self.pos - 1 < self.tokens.len() {
            Ok(self.tokens[self.pos - 1].clone())
        } else {
            Err(error("underflow"))
        }
    }

    /// Moves past the current token.
    pub fn skip(&mut self)
        requires
            old(self).pos < usize::MAX,
        ensures
            final(self).tokens@ == old(self).tokens@,
            final(self).pos == old(self).pos + 1,
    {
        self.pos = self.pos + 1;
    }
}

// ---------------------------------------------------------------- atoms

pub open spec fn is_digit(c: char) -> bool {
    '0' <= c <= '9'
}

pub open spec fn all_digits(s: Seq<char>) -> bool {
    forall|i: int| 0 <= i < s.len() ==> is_digit(#[trigger] s[i])
}

/// Whether a token is an integer literal: an optional `-` and one or more digits.
pub open spec fn int_token(t: Seq<char>) -> bool {
    (t.len() >= 1 && all_digits(t)) || (t.len() >= 2 && t[0] == '-' && all_digits(t.drop_first()))
}

/// The number that a sequence of decimal digits denotes.
pub open spec fn digits_value(d: Seq<char>) -> int
    decreases d.len(),
{
    if d.len() == 0 {
        0
    } else {
        digits_value(d.drop_last()) * 10 + (d.last() as int - '0' as int)
    }
}

/// The number that an integer literal denotes.
pub open spec fn token_int(t: Seq<char>) -> int {
    if t.len() > 0 && t[0] == '-' {
        -digits_value(t.drop_first())
    } else {
        digits_value(t)
    }
}

/// From index `j` on, `t` is a run of escapes (`\` and a character that is not a
/// newline) and of characters other than `\` and `"`, closed by a `"`.
pub open spec fn str_body(t: Seq<char>, j: int) -> bool
    decreases t.len() - j,
{
    if j < 0 || j >= t.len() {
        false
    } else if t[j] == '"' {
        true
    } else if t[j] == '\\' {
        j + 1 < t.len() && t[j + 1] != '\n' && str_body(t, j + 2)
    } else {
        str_body(t, j + 1)
    }
}

/// Whether some part of `t` from index `i` on is a complete string literal: a `"`,
/// then a run as in `str_body`.
pub open spec fn has_str_literal(t: Seq<char>, i: int) -> bool
    decreases t.len() - i,
{
    if i < 0 || i >= t.len() {
        false
    } else {
        (t[i] == '"' && str_body(t, i + 1)) || has_str_literal(t, i + 1)
    }
}

pub open spec fn is_ascii_char(c: char) -> bool {
    (c as u32) < 128
}

/// Undoing escapes: `\` and a character other than a newline becomes that
/// character (a newline for `n`); everything else stays.
pub open spec fn unescape(s: Seq<char>) -> Seq<char>
    decreases s.len(),
{
    if s.len() == 0 {
        Seq::empty()
    } else if s[0] == '\\' && s.len() >= 2 && s[1] != '\n' {
        seq![
            if s[1] == 'n' {
                '\n'
            } else {
                s[1]
            },
        ] + unescape(s.skip(2))
    } else {
        seq![s[0]] + unescape(s.drop_first())
    }
}

/// The value of an atom token. An integer literal that does not fit in 64 bits,
/// and a token holding a string literal that begins or ends with a non-ASCII
/// character (its inner part is cut out by byte positions), abort the reading.
pub open spec fn atom_of(t: Seq<char>) -> Res {
    if t == "nil"@ {
        Ok(Val::Nil)
    } else if t == "true"@ {
        Ok(Val::Bool(true))
    } else if t == "false"@ {
        Ok(Val::Bool(false))
    } else if int_token(t) {
        if i64::MIN <= token_int(t) <= i64::MAX {
            Ok(Val::Int(token_int(t) as i64))
        } else {
            panic_res()
        }
    } else if has_str_literal(t, 0) {
        if is_ascii_char(t[0]) && is_ascii_char(t.last()) {
            Ok(Val::Str(unescape(t.subrange(1, t.len() - 1))))
        } else {
            panic_res()
        }
    } else if t.len() > 0 && t[0] == '"' {
        err("expected \" at end of input"@)
    } else if t.len() > 0 && t[0] == ':' {
        Ok(Val::Str(seq!['\u{29e}'] + t.drop_first()))
    } else {
        Ok(Val::Symbol(t))
    }
}

proof fn lemma_digits_mono(d: Seq<char>, i: int)
    requires
        0 <= i <= d.len(),
        all_digits(d),
    ensures
        0 <= digits_value(d.take(i)) <= digits_value(d),
    decreases d.len() - i,
{
    if i < d.len() {
        lemma_digits_mono(d, i + 1);
        assert(d.take(i + 1).drop_last() =~= d.take(i));
        assert(is_digit(d[i]));
    } else {
        assert(d.take(i) =~= d);
        lemma_digits_nonneg(d);
    }
}

proof fn lemma_digits_nonneg(d: Seq<char>)
    requires
        all_digits(d),
    ensures
        digits_value(d) >= 0,
    decreases d.len(),
{
    if d.len() > 0 {
        assert(all_digits(d.drop_last())) by {
            assert forall|i: int| 0 <= i < d.drop_last().len() implies is_digit(
                #[trigger] d.drop_last()[i],
            ) by {
                assert(d.drop_last()[i] == d[i]);
            }
        }
        lemma_digits_nonneg(d.drop_last());
        assert(is_digit(d[d.len() - 1]));
    }
}

fn digit_value(c: char) -> (v: u64)
    requires
        is_digit(c),
    ensures
        v as int == c as int - '0' as int,
        v < 10,
{
    (c as u32 - '0' as u32) as u64
}

/// The number denoted by the digits `d[from..]`, when it is at most 2^63.
fn magnitude(d: &Vec<char>, from: usize) -> (r: Option<u64>)
    requires
        from <= d@.len(),
        all_digits(d@.subrange(from as int, d@.len() as int)),
    ensures
        r matches Some(m) ==> m == digits_value(d@.subrange(from as int, d@.len() as int)) && m
            <= 9223372036854775808u64,
        r is None ==> digits_value(d@.subrange(from as int, d@.len() as int)) > 9223372036854775808u64,
{
    let ghost s = d@.subrange(from as int, d@.len() as int);
    let mut acc: u64 = 0;
    let mut i = from;
    assert(s.take(0) =~= Seq::<char>::empty());
    while i < d.len()
        invariant
            from <= i <= d@.len(),
            s == d@.subrange(from as int, d@.len() as int),
            all_digits(s),
            acc == digits_value(s.take(i - from)),
            acc <= 9223372036854775808u64,
        decreases d@.len() - i,
    {
        assert(s[i - from] == d@[i as int]);
        let dv = digit_value(d[i]);
        assert(s.take(i + 1 - from).drop_last() =~= s.take(i - from));
        let n: u128 = acc as u128 * 10 + dv as u128;
        if n > 9223372036854775808u128 {
            proof {
                lemma_digits_mono(s, i + 1 - from);
            }
            return None;
        }
        acc = n as u64;
        i = i + 1;
    }
    assert(s.take(i - from) =~= s);
    Some(acc)
}

fn all_digits_from(d: &Vec<char>, from: usize) -> (b: bool)
    requires
        from <= d@.len(),
    ensures
        b == all_digits(d@.subrange(from as int, d@.len() as int)),
{
    let mut i = from;
    while i < d.len()
        invariant
            from <= i <= d@.len(),
            all_digits(d@.subrange(from as int, i as int)),
        decreases d@.len() - i,
    {
        if !('0' <= d[i] && d[i] <= '9') {
            assert(d@.subrange(from as int, d@.len() as int)[i - from] == d@[i as int]);
            return false;
        }
        assert forall|j: int| 0 <= j < i + 1 - from implies is_digit(
            #[trigger] d@.subrange(from as int, i + 1)[j],
        ) by {
            if j < i - from {
                assert(d@.subrange(from as int, i + 1)[j] == d@.subrange(from as int, i as int)[j]);
            }
        }
        i = i + 1;
    }
    true
}

/// Whether `t` is an integer literal, and if it is, its value when that fits in 64 bits.
fn int_literal(t: &Vec<char>) -> (r: (bool, Option<i64>))
    ensures
        r.0 == int_token(t@),
        r.0 ==> (r.1 matches Some(v) ==> v == token_int(t@)) && (r.1 is None ==> !(i64::MIN
            <= token_int(t@) <= i64::MAX)),
{
    let neg = t.len() >= 2 && t[0] == '-';
    let from: usize = if neg {
        1
    } else {
        0
    };
    if t.len() == 0 {
        return (false, None);
    }
    let digits = all_digits_from(t, from);
    assert(t@.subrange(0, t@.len() as int) =~= t@);
    assert(t@.subrange(1, t@.len() as int) =~= t@.drop_first());
    if !digits {
        proof {
            if t@.len() >= 1 && all_digits(t@) {
                assert(neg);
                assert(is_digit(t@[0]));
            }
        }
        return (false, None);
    }
    proof {
        if !neg {
            assert(t@[0] != '-' || t@.len() < 2);
            if t@.len() > 0 && t@[0] == '-' {
                assert(is_digit(t@[0]));
            }
        }
    }
    match magnitude(t, from) {
        Some(m) => {
            if neg {
                if m == 9223372036854775808u64 {
                    (true, Some(i64::MIN))
                } else {
                    (true, Some(-(m as i64)))
                }
            } else if m == 9223372036854775808u64 {
                (true, None)
            } else {
                (true, Some(m as i64))
            }
        },
        None => (true, None),
    }
}

fn str_body_exec(t: &Vec<char>, j: usize) -> (b: bool)
    ensures
        b == str_body(t@, j as int),
    decreases t@.len() - j,
{
    if j >= t.len() {
        false
    } else if t[j] == '"' {
        true
    } else if t[j] == '\\' {
        j + 1 < t.len() && t[j + 1] != '\n' && str_body_exec(t, j + 2)
    } else {
        str_body_exec(t, j + 1)
    }
}

fn has_str_literal_exec(t: &Vec<char>, i: usize) -> (b: bool)
    ensures
        b == has_str_literal(t@, i as int),
    decreases t@.len() - i,
{
    if i >= t.len() {
        false
    } else {
        (t[i] == '"' && str_body_exec(t, i + 1)) || has_str_literal_exec(t, i + 1)
    }
}

/// The unescaped form of `s` (see `unescape`).
pub fn unescape_str(s: &Vec<char>, from: usize, to: usize) -> (r: String)
    requires
        from <= to <= s@.len(),
    ensures
        r@ == unescape(s@.subrange(from as int, to as int)),
{
    let ghost whole = s@.subrange(from as int, to as int);
    let mut out = String::new();
    let mut i = from;
    assert(whole.skip(0) =~= whole);
    while i < to
        invariant
            from <= i <= to <= s@.len(),
            whole == s@.subrange(from as int, to as int),
            out@ + unescape(whole.skip(i - from)) == unescape(whole),
        decreases to - i,
    {
        let ghost rest = whole.skip(i - from);
        assert(rest[0] == s@[i as int]);
        if s[i] == '\\' && i + 1 < to && s[i + 1] != '\n' {
            assert(rest[1] == s@[i + 1]);
            assert(rest.skip(2) =~= whole.skip(i + 2 - from));
            let c = if s[i + 1] == 'n' {
                '\n'
            } else {
                s[i + 1]
            };
            out.push(c);
            i = i + 2;
        } else {
            assert(rest.drop_first() =~= whole.skip(i + 1 - from));
            out.push(s[i]);
            i = i + 1;
        }
    }
    assert(whole.skip(to - from) =~= Seq::<char>::empty());
    assert(out@ + Seq::<char>::empty() =~= out@);
    out
}

fn is_tok(t: &Vec<char>, lit: &str) -> (b: bool)
    ensures
        b == (t@ == lit@),
{
    let l = chars_of(lit);
    same_chars(t, &l)
}

/// Reads the atom at the reader's position, moving past it; the error
/// `underflow` past the end (the position moves on either way).
pub fn read_atom(rdr: &mut Reader) -> (r: MalReturn)
    requires
        old(rdr).pos < usize::MAX,
    ensures
        final(rdr).tokens@ == old(rdr).tokens@,
        final(rdr).pos == old(rdr).pos + 1,
        old(rdr).pos < old(rdr).tokens@.len() ==> rv(r) == atom_of(old(rdr).toks()[old(rdr).pos as int]),
        old(rdr).pos >= old(rdr).tokens@.len() ==> rv(r) == err("underflow"@),
{
    let token = match rdr.next() {
        Ok(t) => t,
        Err(e) => return Err(e),
    };
    let t = chars_of(token.as_str());
    if is_tok(&t, "nil") {
        Ok(MalVal::Nil)
    } else if is_tok(&t, "true") {
        Ok(MalVal::Bool(true))
    } else if is_tok(&t, "false") {
        Ok(MalVal::Bool(false))
    } else {
        let (is_int, val) = int_literal(&t);
        if is_int {
            match val {
                Some(v) => Ok(MalVal::Int(v)),
                None => Err(panic_error()),
            }
        } else if has_str_literal_exec(&t, 0) {
            if !((t[0] as u32) < 128 && (t[t.len() - 1] as u32) < 128) {
                return Err(panic_error());
            }
            proof {
                if t@.len() < 2 {
                    assert(has_str_literal(t@, 0));
                    if t@.len() == 1 {
                        assert(!str_body(t@, 1));
                        assert(!has_str_literal(t@, 1));
                    }
                }
            }
            Ok(MalVal::Str(unescape_str(&t, 1, t.len() - 1)))
        } else if t.len() > 0 && t[0] == '"' {
            Err(error("expected \" at end of input"))
        } else if t.len() > 0 && t[0] == ':' {
            let mut s = String::new();
            s.push('\u{29e}');
            let rest = string_of_range(&t, 1, t.len());
            crate::text::push_all(&mut s, rest.as_str());
            assert(t@.subrange(1, t@.len() as int) =~= t@.drop_first());
            Ok(MalVal::Str(s))
        } else {
            Ok(MalVal::Symbol(token))
        }
    }
}


/// The kind of a bracketed form: `( )`, `[ ]` or `{ }`.
#[derive(Clone, Copy, PartialEq, Eq, Structural, Debug)]
pub enum SeqKind {
    List,
    Vector,
    Hashmap,
}

/// The token that closes a bracketed form.
pub open spec fn closer(kind: SeqKind) -> Seq<char> {
    match kind {
        SeqKind::List => ")"@,
        SeqKind::Vector => "]"@,
        SeqKind::Hashmap => "}"@,
    }
}

/// The value of a bracketed form with the items or entries read.
pub open spec fn seq_value(kind: SeqKind, items: Seq<Val>, hm: Seq<(Seq<char>, Val)>) -> Val {
    match kind {
        SeqKind::List => Val::List(items),
        SeqKind::Vector => Val::Vector(items),
        SeqKind::Hashmap => Val::Hashmap(hm),
    }
}

/// The map key that a value read in key position gives: a string as it is,
/// another value as its readable text.
pub open spec fn key_of(v: Val) -> Seq<char> {
    match v {
        Val::Str(s) => s,
        _ => match pr(v, true, false, Seq::empty(), 0) {
            Some(t) => t,
            None => Seq::empty(),
        },
    }
}

/// A form read after a reader macro: `(head form)`.
pub open spec fn quoted(head: Seq<char>, r: (nat, Res)) -> (nat, Res) {
    (
        r.0,
        match r.1 {
            Ok(v) => Ok(Val::List(seq![Val::Symbol(head), v])),
            Err(e) => Err(e),
        },
    )
}

/// The error of a form that a reading could not move past.
pub open spec fn stuck() -> Res {
    err("unexpected end of input"@)
}

/// Reading one form from position `pos` of `toks`: the position after it and the
/// value or error. `'x` reads as `(quote x)`, likewise `` ` `` (quasiquote), `~`
/// (unquote), `~@` (splice-unquote) and `@` (deref); `^m x` reads as
/// `(with-meta x m)`; brackets read a list, vector or map; a closing bracket is an
/// error; any other token is an atom.
pub open spec fn rf(toks: Seq<Seq<char>>, pos: nat) -> (nat, Res)
    decreases toks.len() - pos, 0nat,
{
    if pos >= toks.len() {
        (pos, err("underflow"@))
    } else {
        let t = toks[pos as int];
        if t == "'"@ {
            quoted("quote"@, rf(toks, pos + 1))
        } else if t == "`"@ {
            quoted("quasiquote"@, rf(toks, pos + 1))
        } else if t == "~"@ {
            quoted("unquote"@, rf(toks, pos + 1))
        } else if t == "~@"@ {
            quoted("splice-unquote"@, rf(toks, pos + 1))
        } else if t == "^"@ {
            let (p1, m) = rf(toks, pos + 1);
            match m {
                Err(e) => (p1, Err(e)),
                Ok(meta) => if pos < p1 <= toks.len() {
                    let (p2, f) = rf(toks, p1);
                    match f {
                        Ok(form) => (p2, Ok(Val::List(seq![Val::Symbol("with-meta"@), form, meta]))),
                        Err(e) => (p2, Err(e)),
                    }
                } else {
                    (p1, stuck())
                },
            }
        } else if t == "@"@ {
            quoted("deref"@, rf(toks, pos + 1))
        } else if t == "("@ {
            rseq(toks, pos + 1, SeqKind::List, Seq::empty(), Seq::empty())
        } else if t == "["@ {
            rseq(toks, pos + 1, SeqKind::Vector, Seq::empty(), Seq::empty())
        } else if t == "{"@ {
            rseq(toks, pos + 1, SeqKind::Hashmap, Seq::empty(), Seq::empty())
        } else if t == "]"@ {
            (pos, err("unexpected ']'"@))
        } else if t == ")"@ {
            (pos, err("unexpected ')'"@))
        } else if t == "}"@ {
            (pos, err("unexpected '}'"@))
        } else {
            (pos + 1, atom_of(t))
        }
    }
}

/// Reading the rest of a bracketed form from `pos`, with the items (or map
/// entries) read so far, up to its closing token.
pub open spec fn rseq(
    toks: Seq<Seq<char>>,
    pos: nat,
    kind: SeqKind,
    items: Seq<Val>,
    hm: Seq<(Seq<char>, Val)>,
) -> (nat, Res)
    decreases toks.len() - pos, 1nat,
{
    if pos >= toks.len() {
        (pos, err("expected '"@ + closer(kind) + "', got EOF"@))
    } else if toks[pos as int] == closer(kind) {
        (pos + 1, Ok(seq_value(kind, items, hm)))
    } else if kind == SeqKind::Hashmap {
        let (p1, kr) = rf(toks, pos);
        match kr {
            Err(e) => (p1, Err(e)),
            Ok(kv) => if pos < p1 <= toks.len() {
                let (p2, vr) = rf(toks, p1);
                match vr {
                    Err(e) => (p2, Err(e)),
                    Ok(v) => if p1 < p2 <= toks.len() {
                        rseq(toks, p2, kind, items, map_insert(hm, key_of(kv), v))
                    } else {
                        (p2, stuck())
                    },
                }
            } else {
                (p1, stuck())
            },
        }
    } else {
        let (p1, r) = rf(toks, pos);
        match r {
            Err(e) => (p1, Err(e)),
            Ok(v) => if pos < p1 <= toks.len() {
                rseq(toks, p1, kind, items.push(v), hm)
            } else {
                (p1, stuck())
            },
        }
    }
}

fn read_quoted(rdr: &mut Reader, head: &str) -> (r: MalReturn)
    requires
        old(rdr).pos < old(rdr).tokens@.len(),
    ensures
        final(rdr).tokens@ == old(rdr).tokens@,
        (final(rdr).pos as nat, rv(r)) == quoted(head@, rf(old(rdr).toks(), (old(rdr).pos + 1) as nat)),
    decreases old(rdr).tokens@.len() - old(rdr).pos, 0nat, 0nat,
{
    let n = rdr.tokens.len();
    rdr.skip();
    match read_form(rdr) {
        Ok(v) => {
            let mut l: Vec<MalVal> = Vec::new();
            l.push(MalVal::Symbol(owned(head)));
            l.push(v);
            let r = MalVal::List(l);
            proof {
                lemma_val(r);
                assert(vals(l@) =~= seq![Val::Symbol(head@), v.val()]);
            }
            Ok(r)
        },
        Err(e) => Err(e),
    }
}

/// Reads one form (see `rf`).
pub fn read_form(rdr: &mut Reader) -> (r: MalReturn)
    ensures
        final(rdr).tokens@ == old(rdr).tokens@,
        (final(rdr).pos as nat, rv(r)) == rf(old(rdr).toks(), old(rdr).pos as nat),
    decreases old(rdr).tokens@.len() - old(rdr).pos, 1nat, 0nat,
{
    let n = rdr.tokens.len();
    if rdr.pos >= n {
        return Err(error("underflow"));
    }
    let t = chars_of(rdr.tokens[rdr.pos].as_str());
    assert(t@ == rdr.toks()[rdr.pos as int]);
    if is_tok(&t, "'") {
        read_quoted(rdr, "quote")
    } else if is_tok(&t, "`") {
        read_quoted(rdr, "quasiquote")
    } else if is_tok(&t, "~") {
        read_quoted(rdr, "unquote")
    } else if is_tok(&t, "~@") {
        read_quoted(rdr, "splice-unquote")
    } else if is_tok(&t, "^") {
        let p0 = rdr.pos;
        rdr.skip();
        let meta = match read_form(rdr) {
            Ok(m) => m,
            Err(e) => return Err(e),
        };
        if !(p0 < rdr.pos && rdr.pos <= n) {
            return Err(error("unexpected end of input"));
        }
        match read_form(rdr) {
            Ok(form) => {
                let mut l: Vec<MalVal> = Vec::new();
                l.push(MalVal::Symbol(owned("with-meta")));
                l.push(form);
                l.push(meta);
                let r = MalVal::List(l);
                proof {
                    lemma_val(r);
                    assert(vals(l@) =~= seq![Val::Symbol("with-meta"@), form.val(), meta.val()]);
                }
                Ok(r)
            },
            Err(e) => Err(e),
        }
    } else if is_tok(&t, "@") {
        read_quoted(rdr, "deref")
    } else if is_tok(&t, "(") {
        read_seq(rdr, SeqKind::List)
    } else if is_tok(&t, "[") {
        read_seq(rdr, SeqKind::Vector)
    } else if is_tok(&t, "{") {
        read_seq(rdr, SeqKind::Hashmap)
    } else if is_tok(&t, "]") {
        Err(error("unexpected ']'"))
    } else if is_tok(&t, ")") {
        Err(error("unexpected ')'"))
    } else if is_tok(&t, "}") {
        Err(error("unexpected '}'"))
    } else {
        read_atom(rdr)
    }
}

fn closer_str(kind: SeqKind) -> (s: &'static str)
    ensures
        s@ == closer(kind),
{
    match kind {
        SeqKind::List => ")",
        SeqKind::Vector => "]",
        SeqKind::Hashmap => "}",
    }
}

/// The key that a value read in key position gives (see `key_of`).
fn key_string(v: &MalVal) -> (k: String)
    ensures
        k@ == key_of(v.val()),
{
    match v {
        MalVal::Str(s) => s.clone(),
        _ => {
            let empty: Vec<MalVal> = Vec::new();
            assert(vals(empty@) =~= Seq::<Val>::empty());
            let mut out = String::new();
            if crate::types::print::pr_into(v, true, false, &empty, 0, &mut out) {
                assert(Seq::<char>::empty() + key_of(v.val()) =~= key_of(v.val()));
                out
            } else {
                String::new()
            }
        },
    }
}

/// Reads a bracketed form of the given kind: moves past its opening token, then
/// reads items (or map entries) up to its closing token (see `rseq`).
pub fn read_seq(rdr: &mut Reader, kind: SeqKind) -> (r: MalReturn)
    requires
        old(rdr).pos < usize::MAX,
    ensures
        final(rdr).tokens@ == old(rdr).tokens@,
        (final(rdr).pos as nat, rv(r)) == rseq(
            old(rdr).toks(),
            (old(rdr).pos + 1) as nat,
            kind,
            Seq::empty(),
            Seq::empty(),
        ),
    decreases old(rdr).tokens@.len() - old(rdr).pos, 0nat, 1nat,
{
    let n = rdr.tokens.len();
    let ghost toks = rdr.toks();
    rdr.skip();
    let ghost start = rdr.pos as nat;
    let c = closer_str(kind);
    if rdr.pos >= n {
        let mut m = owned("expected '");
        let ghost m0 = m@;
        crate::text::push_all(&mut m, c);
        let ghost m1 = m@;
        crate::text::push_all(&mut m, "', got EOF");
        assert(m0 == "expected '"@);
        assert(m1 == m0 + closer(kind));
        assert(m@ == m1 + "', got EOF"@);
        return Err(MalError::Error(m));
    }
    let mut seq: Vec<MalVal> = Vec::new();
    let mut hmap = MalMap::new();
    let cv = chars_of(c);
    assert(vals(seq@) =~= Seq::<Val>::empty());
    loop
        invariant
            rdr.tokens@ == old(rdr).tokens@,
            start == old(rdr).pos + 1,
            toks == rdr.toks(),
            n == toks.len(),
            start <= rdr.pos <= n,
            cv@ == closer(kind),
            c@ == closer(kind),
            rseq(toks, start, kind, Seq::empty(), Seq::empty()) == rseq(
                toks,
                rdr.pos as nat,
                kind,
                vals(seq@),
                hmap.view(),
            ),
        decreases n - rdr.pos,
    {
        if rdr.pos >= n {
            let mut m = owned("expected '");
            let ghost m0 = m@;
            crate::text::push_all(&mut m, c);
            let ghost m1 = m@;
            crate::text::push_all(&mut m, "', got EOF");
            assert(m0 == "expected '"@);
            assert(m1 == m0 + closer(kind));
            assert(m@ == m1 + "', got EOF"@);
            return Err(MalError::Error(m));
        }
        let t = chars_of(rdr.tokens[rdr.pos].as_str());
        assert(t@ == toks[rdr.pos as int]);
        if same_chars(&t, &cv) {
            rdr.skip();
            let r = match kind {
                SeqKind::List => MalVal::List(seq),
                SeqKind::Vector => MalVal::Vector(seq),
                SeqKind::Hashmap => MalVal::Hashmap(hmap),
            };
            proof {
                lemma_val(r);
            }
            return Ok(r);
        }
        let p0 = rdr.pos;
        match kind {
            SeqKind::Hashmap => {
                let kv = match read_form(rdr) {
                    Ok(v) => v,
                    Err(e) => return Err(e),
                };
                if !(p0 < rdr.pos && rdr.pos <= n) {
                    return Err(error("unexpected end of input"));
                }
                let p1 = rdr.pos;
                assert(rdr.tokens@.len() - rdr.pos < old(rdr).tokens@.len() - old(rdr).pos);
                let v = match read_form(rdr) {
                    Ok(v) => v,
                    Err(e) => return Err(e),
                };
                if !(p1 < rdr.pos && rdr.pos <= n) {
                    return Err(error("unexpected end of input"));
                }
                let k = key_string(&kv);
                hmap.insert(k, v);
            },
            _ => {
                let v = match read_form(rdr) {
                    Ok(v) => v,
                    Err(e) => return Err(e),
                };
                if !(p0 < rdr.pos && rdr.pos <= n) {
                    return Err(error("unexpected end of input"));
                }
                let ghost before = vals(seq@);
                seq.push(v);
                assert(vals(seq@) =~= before.push(v.val()));
            },
        }
    }
}

/// The tokens of a line as the tokenizer's regular expression captures them, in order.
pub uninterp spec fn regex_token_captures(line: Seq<char>) -> Seq<Seq<char>>;

/// The tokenizer's regular expression: leading blanks and commas, then as its
/// first group a token. It compiles, and its first group takes part in every match.
pub open spec fn token_pattern() -> Seq<char> {
    r###"[\s,]*(~@|[\[\]{}()'`~^@]|"(?:\\.|[^\\"])*"?|;.*|[^\s\[\]{}('"`,;)]*)"###@
}

/// `regex::Regex::new(pattern)` and `Regex::captures_iter(line)` of the `regex`
/// crate, for the tokenizer's pattern: the text of the first group of each
/// successive match in `line`, in order. What those are is not stated here; it
/// is named by `regex_token_captures`, which depends on the line alone.
#[verifier::external_body]
fn captures_first_group(pattern: &str, line: &str) -> (v: Vec<String>)
    requires
        pattern@ == token_pattern(),
    ensures
        strs(v@) == regex_token_captures(line@),
{
    let re = regex::Regex::new(pattern).unwrap();
    re.captures_iter(line).map(|cap| String::from(&cap[1])).collect()
}

/// The captures without the comments (those that begin with `;`).
pub open spec fn drop_comments(s: Seq<Seq<char>>) -> Seq<Seq<char>>
    decreases s.len(),
{
    if s.len() == 0 {
        Seq::empty()
    } else {
        drop_comments(s.drop_last()) + (if s.last().len() > 0 && s.last()[0] == ';' {
            Seq::empty()
        } else {
            seq![s.last()]
        })
    }
}

/// The captures `caps` less the comments (those that begin with `;`), in order.
pub fn drop_comment_tokens(caps: Vec<String>) -> (tokens: Vec<String>)
    ensures
        strs(tokens@) == drop_comments(strs(caps@)),
{
    let mut tokens: Vec<String> = Vec::new();
    for i in 0..caps.len()
        invariant
            strs(tokens@) == drop_comments(strs(caps@).take(i as int)),
    {
        let c = &caps[i];
        let ghost before = strs(tokens@);
        assert(strs(caps@).take(i + 1).drop_last() =~= strs(caps@).take(i as int));
        assert(strs(caps@).take(i + 1).last() == c@);
        if crate::text::starts_with_char(c.as_str(), ';') {
            assert(strs(tokens@) =~= before + Seq::<Seq<char>>::empty());
        } else {
            tokens.push(c.clone());
            assert(strs(tokens@) =~= before + seq![c@]);
        }
    }
    assert(strs(caps@).take(caps@.len() as int) =~= strs(caps@));
    tokens
}

/// The tokens of a line: its regular-expression captures less the comments.
pub fn tokenise(line: &str) -> (r: Result<Vec<String>, MalError>)
    ensures
        r matches Ok(v) && strs(v@) == drop_comments(regex_token_captures(line@)),
{
    let caps = captures_first_group(
        r###"[\s,]*(~@|[\[\]{}()'`~^@]|"(?:\\.|[^\\"])*"?|;.*|[^\s\[\]{}('"`,;)]*)"###,
        line,
    );
    Ok(drop_comment_tokens(caps))
}

/// The tokens of a line (see `tokenise`).
pub open spec fn tokens_of(line: Seq<char>) -> Seq<Seq<char>> {
    drop_comments(regex_token_captures(line))
}

/// Reading a line: the first form of its tokens, or the error `no input` when it
/// has none.
pub open spec fn read_str_spec(line: Seq<char>) -> Res {
    let toks = tokens_of(line);
    if toks.len() == 0 {
        err("no input"@)
    } else {
        rf(toks, 0).1
    }
}

/// Reads the first form of a line (see `read_str_spec`).
pub fn read_str(line: &str) -> (r: MalReturn)
    ensures
        rv(r) == read_str_spec(line@),
{
    let tokens = match tokenise(line) {
        Ok(t) => t,
        Err(e) => return Err(e),
    };
    if tokens.len() == 0 {
        return Err(error("no input"));
    }
    read_form(&mut Reader { tokens, pos: 0 })
}

} // verus!
