//! Integer arithmetic and comparison.
use crate::builtins::core_fns::register_one;
use crate::types::environment::MalEnv;
use crate::types::error::{panic_error, panic_res, rv, MalReturn, Res};
use crate::types::{eq_values, val_eq, vals, Builtin, MalVal, Val};
use vstd::prelude::*;

verus! {

/// The names under which `register` binds the arithmetic and comparison functions.
pub open spec fn math_names() -> Seq<(Seq<char>, Builtin)> {
    seq![
        ("+"@, Builtin::Add),
        ("-"@, Builtin::Sub),
        ("*"@, Builtin::Mul),
        ("/"@, Builtin::Div),
        ("="@, Builtin::Equal),
        ("<"@, Builtin::Less),
        ("<="@, Builtin::LessEq),
        (">"@, Builtin::Greater),
        (">="@, Builtin::GreaterEq),
    ]
}

/// Binds the arithmetic and comparison functions in frame `env` (see `math_names`).
pub fn register(env: &mut MalEnv)
    ensures
        final(env).view().symbols == crate::builtins::core_fns::bind_names(
            old(env).view().symbols,
            math_names(),
        ),
        final(env).outer == old(env).outer,
{
    register_one(env, "+", Builtin::Add);
    register_one(env, "-", Builtin::Sub);
    register_one(env, "*", Builtin::Mul);
    register_one(env, "/", Builtin::Div);
    register_one(env, "=", Builtin::Equal);
    register_one(env, "<", Builtin::Less);
    register_one(env, "<=", Builtin::LessEq);
    register_one(env, ">", Builtin::Greater);
    register_one(env, ">=", Builtin::GreaterEq);
    proof {
        reveal_with_fuel(crate::builtins::core_fns::bind_names, 10);
    }
}

/// The integers of the arguments, 0 for an argument that is not an integer.
pub open spec fn int_args(args: Seq<Val>) -> Seq<i64> {
    Seq::new(
        args.len(),
        |i: int|
            match args[i] {
                Val::Int(v) => v,
                _ => 0,
            },
    )
}

/// Integer division rounding toward zero (`/` on `int` is Euclidean division).
pub open spec fn tdiv(a: int, b: int) -> int {
    if a >= 0 {
        a / b
    } else {
        -((-a) / b)
    }
}

pub open spec fn is_arith_op(op: Seq<char>) -> bool {
    op == "+"@ || op == "-"@ || op == "*"@ || op == "/"@
}

pub open spec fn in_i64(n: int) -> bool {
    i64::MIN <= n <= i64::MAX
}

/// Folding `op` (`+`, `-`, `*` or `/`) over `xs[i..]` from `acc`; `None` when a
/// step overflows 64 bits or divides by zero.
pub open spec fn fold_op(op: Seq<char>, xs: Seq<i64>, i: nat, acc: int) -> Option<int>
    decreases xs.len() - i,
{
    if i >= xs.len() {
        Some(acc)
    } else {
        let x = xs[i as int] as int;
        if op == "/"@ && x == 0 {
            None
        } else {
            let n = if op == "+"@ {
                acc + x
            } else if op == "-"@ {
                acc - x
            } else if op == "*"@ {
                acc * x
            } else {
                tdiv(acc, x)
            };
            if in_i64(n) {
                fold_op(op, xs, i + 1, n)
            } else {
                None
            }
        }
    }
}

/// `+` sums from 0 and `*` multiplies from 1; `-` and `/` fold over the
/// integers after the first, starting from the first. `None` marks the inputs on
/// which the operation aborts: an overflow, a division by zero, `-` or `/` with no
/// integer, or an unknown operator.
pub open spec fn arith(op: Seq<char>, xs: Seq<i64>) -> Option<int> {
    if op == "+"@ {
        fold_op(op, xs, 0, 0)
    } else if op == "*"@ {
        fold_op(op, xs, 0, 1)
    } else if op == "-"@ || op == "/"@ {
        if xs.len() == 0 {
            None
        } else {
            fold_op(op, xs, 1, xs[0] as int)
        }
    } else {
        None
    }
}

/// Applies `func` to the integers `args` (see `arith`).
pub fn fn_op(func: &str, args: &Vec<i64>) -> (r: i64)
    requires
        arith(func@, args@) is Some,
    ensures
        r as int == arith(func@, args@)->Some_0,
{
    let f = crate::text::chars_of(func);
    let plus = crate::text::str_eq(func, "+");
    let minus = crate::text::str_eq(func, "-");
    let times = crate::text::str_eq(func, "*");
    let div = crate::text::str_eq(func, "/");
    let (mut acc, mut i): (i64, usize) = if plus {
        (0, 0)
    } else if times {
        (1, 0)
    } else {
        (args[0], 1)
    };
    while i < args.len()
        invariant
            plus == (func@ == "+"@),
            minus == (func@ == "-"@),
            times == (func@ == "*"@),
            div == (func@ == "/"@),
            plus || minus || times || div,
            1 <= i + 1,
            i <= args@.len(),
            arith(func@, args@) is Some,
            arith(func@, args@) == fold_op(func@, args@, i as nat, acc as int),
        decreases args@.len() - i,
    {
        let x = args[i];
        if plus {
            acc = acc + x;
        } else if minus {
            acc = acc - x;
        } else if times {
            acc = acc * x;
        } else {
            assert(x != 0);
            assert(!(acc == i64::MIN && x == -1)) by {
                if acc == i64::MIN && x == -1 {
                    assert(tdiv(acc as int, x as int) == 9223372036854775808int);
                }
            }
            acc = acc / x;
        }
        i = i + 1;
    }
    acc
}

/// The integer arguments of an arithmetic call.
pub fn ints_of(args: &Vec<MalVal>) -> (xs: Vec<i64>)
    ensures
        xs@ == int_args(vals(args@)),
{
    let mut xs: Vec<i64> = Vec::new();
    for i in 0..args.len()
        invariant
            xs@.len() == i,
            i <= args@.len(),
            forall|j: int| 0 <= j < i ==> xs@[j] == #[trigger] int_args(vals(args@))[j],
    {
        let x = match &args[i] {
            MalVal::Int(v) => *v,
            _ => 0,
        };
        xs.push(x);
    }
    assert(xs@ =~= int_args(vals(args@)));
    xs
}

/// The name of the operator of an arithmetic function.
pub open spec fn op_name(b: Builtin) -> Seq<char> {
    match b {
        Builtin::Add => "+"@,
        Builtin::Sub => "-"@,
        Builtin::Mul => "*"@,
        _ => "/"@,
    }
}

/// Calling `+`, `-`, `*` or `/`: the integer result, or an abort where `arith` has none.
pub open spec fn arith_call_spec(b: Builtin, args: Seq<Val>) -> Res {
    match arith(op_name(b), int_args(args)) {
        Some(n) => Ok(Val::Int(n as i64)),
        None => panic_res(),
    }
}

fn op_str(b: Builtin) -> (s: &'static str)
    ensures
        s@ == op_name(b),
{
    match b {
        Builtin::Add => "+",
        Builtin::Sub => "-",
        Builtin::Mul => "*",
        _ => "/",
    }
}

proof fn lemma_div_bounds(a: int, b: int)
    requires
        a >= 0,
        b != 0,
    ensures
        -a <= a / b <= a,
{
    if b > 0 {
        assert(0 <= a / b <= a) by (nonlinear_arith)
            requires
                a >= 0,
                b > 0,
        ;
    } else {
        assert(-a <= a / b <= 0) by (nonlinear_arith)
            requires
                a >= 0,
                b < 0,
        ;
    }
}

proof fn lemma_tdiv_range(a: i64, b: i64)
    requires
        b != 0,
        !(a == i64::MIN && b == -1),
    ensures
        in_i64(tdiv(a as int, b as int)),
{
    if a >= 0 {
        lemma_div_bounds(a as int, b as int);
    } else {
        lemma_div_bounds(-a, b as int);
        if a == i64::MIN {
            if b == 1 {
                assert((-(a as int)) / 1 == -(a as int));
            } else if b > 1 {
                assert(0 <= (-(a as int)) / (b as int) <= 4611686018427387904) by (nonlinear_arith)
                    requires
                        -(a as int) == 9223372036854775808int,
                        b >= 2,
                ;
            } else {
                assert(-4611686018427387904 <= (-(a as int)) / (b as int) <= 0) by (nonlinear_arith)
                    requires
                        -(a as int) == 9223372036854775808int,
                        b <= -2,
                ;
            }
        }
    }
}

/// Whether `fold_op` stays defined from index `i` on.
fn fold_ok(op: &str, xs: &Vec<i64>, i: usize, acc: i64) -> (b: bool)
    requires
        i <= xs@.len(),
        is_arith_op(op@),
    ensures
        b == (fold_op(op@, xs@, i as nat, acc as int) is Some),
    decreases xs@.len() - i,
{
    if i >= xs.len() {
        return true;
    }
    let x = xs[i];
    let div = crate::text::str_eq(op, "/");
    let plus = crate::text::str_eq(op, "+");
    let minus = crate::text::str_eq(op, "-");
    let times = crate::text::str_eq(op, "*");
    if div && x == 0 {
        return false;
    }
    let n: i128 = if plus {
        acc as i128 + x as i128
    } else if minus {
        acc as i128 - x as i128
    } else if times {
        let a = acc as i128;
        let y = x as i128;
        assert(-85070591730234615865843651857942052864int <= a * y
            <= 85070591730234615865843651857942052864int) by (nonlinear_arith)
            requires
                -9223372036854775808int <= a <= 9223372036854775807int,
                -9223372036854775808int <= y <= 9223372036854775807int,
        ;
        a * y
    } else {
        if acc == i64::MIN && x == -1 {
            assert(tdiv(acc as int, x as int) == 9223372036854775808int);
            return false;
        }
        proof {
            lemma_tdiv_range(acc, x);
        }
        (acc / x) as i128
    };
    if n < i64::MIN as i128 || n > i64::MAX as i128 {
        return false;
    }
    fold_ok(op, xs, i + 1, n as i64)
}

/// Calls `+`, `-`, `*` or `/` (see `arith_call_spec`).
pub fn arith_call(b: Builtin, args: &Vec<MalVal>) -> (r: MalReturn)
    ensures
        rv(r) == arith_call_spec(b, vals(args@)),
{
    let xs = ints_of(args);
    let op = op_str(b);
    let plus = crate::text::str_eq(op, "+");
    let times = crate::text::str_eq(op, "*");
    proof {
        reveal_strlit("+");
        reveal_strlit("-");
        reveal_strlit("*");
        reveal_strlit("/");
    }
    let ok = if plus {
        fold_ok(op, &xs, 0, 0)
    } else if times {
        fold_ok(op, &xs, 0, 1)
    } else if xs.len() == 0 {
        false
    } else {
        fold_ok(op, &xs, 1, xs[0])
    };
    if !ok {
        return Err(panic_error());
    }
    Ok(MalVal::Int(fn_op(op, &xs)))
}

/// The result of comparing two values.
#[derive(Clone, Copy, PartialEq, Eq, Structural, Debug)]
pub enum Order {
    Less,
    Equal,
    Greater,
}

/// Lexicographic order of character sequences by code point.
pub open spec fn str_order(a: Seq<char>, b: Seq<char>) -> Order
    decreases a.len(),
{
    if a.len() == 0 {
        if b.len() == 0 {
            Order::Equal
        } else {
            Order::Less
        }
    } else if b.len() == 0 {
        Order::Greater
    } else if a[0] < b[0] {
        Order::Less
    } else if a[0] > b[0] {
        Order::Greater
    } else {
        str_order(a.drop_first(), b.drop_first())
    }
}

/// The order of two values: integers by value, strings lexicographically, and
/// no order for any other pair.
pub open spec fn val_order(a: Val, b: Val) -> Option<Order> {
    match (a, b) {
        (Val::Int(x), Val::Int(y)) => Some(
            if x < y {
                Order::Less
            } else if x == y {
                Order::Equal
            } else {
                Order::Greater
            },
        ),
        (Val::Str(x), Val::Str(y)) => Some(str_order(x, y)),
        _ => None,
    }
}

/// Whether a pair of neighbouring arguments satisfies comparison `op`: `=` is
/// `val_eq` comparing atoms by contents (`None` on a cycle through atoms), `!=`
/// its negation (no name is bound to it), the orderings hold only for comparable
/// values.
pub open spec fn pair_holds(op: Builtin, a: Val, b: Val, atoms: Seq<Val>) -> Option<bool> {
    match op {
        Builtin::Equal => val_eq(a, b, atoms, atoms.len(), false),
        Builtin::NotEqual => match val_eq(a, b, atoms, atoms.len(), false) {
            Some(e) => Some(!e),
            None => None,
        },
        Builtin::Less => Some(val_order(a, b) == Some(Order::Less)),
        Builtin::LessEq => Some(
            val_order(a, b) == Some(Order::Less) || val_order(a, b) == Some(Order::Equal),
        ),
        Builtin::Greater => Some(val_order(a, b) == Some(Order::Greater)),
        _ => Some(val_order(a, b) == Some(Order::Greater) || val_order(a, b) == Some(Order::Equal)),
    }
}

/// Whether every pair of neighbouring arguments from index `i` on satisfies `op`,
/// stopping at the first pair that does not.
pub open spec fn chain_holds(op: Builtin, args: Seq<Val>, i: nat, atoms: Seq<Val>) -> Option<bool>
    decreases args.len() - i,
{
    if i + 1 >= args.len() {
        Some(true)
    } else {
        match pair_holds(op, args[i as int], args[i + 1 as int], atoms) {
            Some(true) => chain_holds(op, args, i + 1, atoms),
            r => r,
        }
    }
}

fn chars_order(a: &Vec<char>, b: &Vec<char>) -> (c: Order)
    ensures
        c == str_order(a@, b@),
{
    let mut i: usize = 0;
    assert(a@.skip(0) =~= a@);
    assert(b@.skip(0) =~= b@);
    while i < a.len() && i < b.len()
        invariant
            i <= a@.len(),
            i <= b@.len(),
            str_order(a@, b@) == str_order(a@.skip(i as int), b@.skip(i as int)),
        decreases a@.len() - i,
    {
        assert(a@.skip(i as int)[0] == a@[i as int]);
        assert(b@.skip(i as int)[0] == b@[i as int]);
        if a[i] < b[i] {
            return Order::Less;
        }
        if a[i] > b[i] {
            return Order::Greater;
        }
        assert(a@.skip(i as int).drop_first() =~= a@.skip(i + 1));
        assert(b@.skip(i as int).drop_first() =~= b@.skip(i + 1));
        i = i + 1;
    }
    if i >= a.len() {
        if i >= b.len() {
            Order::Equal
        } else {
            Order::Less
        }
    } else {
        Order::Greater
    }
}

/// The order of two values (see `val_order`).
pub fn compare(a: &MalVal, b: &MalVal) -> (r: Option<Order>)
    ensures
        r == val_order(a.val(), b.val()),
{
    match (a, b) {
        (MalVal::Int(x), MalVal::Int(y)) => Some(
            if *x < *y {
                Order::Less
            } else if *x == *y {
                Order::Equal
            } else {
                Order::Greater
            },
        ),
        (MalVal::Str(x), MalVal::Str(y)) => {
            let xs = crate::text::chars_of(x.as_str());
            let ys = crate::text::chars_of(y.as_str());
            Some(chars_order(&xs, &ys))
        },
        _ => None,
    }
}

/// Whether all neighbouring arguments satisfy comparison `op` (see `chain_holds`),
/// with atoms read from `atoms`.
pub fn fn_cmp(op: Builtin, args: &Vec<MalVal>, atoms: &Vec<MalVal>) -> (r: Option<bool>)
    ensures
        r == chain_holds(op, vals(args@), 0, vals(atoms@)),
{
    chain_from(op, args, atoms)
}

fn chain_from(op: Builtin, args: &Vec<MalVal>, atoms: &Vec<MalVal>) -> (r: Option<bool>)
    ensures
        r == chain_holds(op, vals(args@), 0, vals(atoms@)),
{
    let mut i: usize = 0;
    while i < args.len() && i + 1 < args.len()
        invariant
            i < args@.len() || args@.len() == 0,
            chain_holds(op, vals(args@), 0, vals(atoms@)) == chain_holds(op, vals(args@), i as nat, vals(atoms@)),
        decreases args@.len() - i,
    {
        let holds = match op {
            Builtin::Equal => eq_values(&args[i], &args[i + 1], atoms, atoms.len(), false),
            Builtin::NotEqual => match eq_values(&args[i], &args[i + 1], atoms, atoms.len(), false) {
                Some(e) => Some(!e),
                None => None,
            },
            Builtin::Less => Some(compare(&args[i], &args[i + 1]) == Some(Order::Less)),
            Builtin::LessEq => {
                let c = compare(&args[i], &args[i + 1]);
                Some(c == Some(Order::Less) || c == Some(Order::Equal))
            },
            Builtin::Greater => Some(compare(&args[i], &args[i + 1]) == Some(Order::Greater)),
            _ => {
                let c = compare(&args[i], &args[i + 1]);
                Some(c == Some(Order::Greater) || c == Some(Order::Equal))
            },
        };
        match holds {
            Some(true) => {},
            r => return r,
        }
        i = i + 1;
    }
    Some(true)
}

} // verus!
