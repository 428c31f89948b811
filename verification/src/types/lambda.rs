//! User-defined functions and macros.
use crate::types::environment::{Frame, MalEnv};
use crate::types::{lemma_val, dup_vec, map_insert, vals, MalVal, Val};
use vstd::prelude::*;

verus! {

/// A function made by `fn*` (or a macro made by `defmacro!`): its body, its
/// parameter list and the environment frame it closes over.
#[derive(Debug)]
pub struct Lambda {
    pub ast: Box<MalVal>,
    pub args: Vec<MalVal>,
    pub env: usize,
    pub is_macro: bool,
}

/// The parameters given by a parameter form: the items of a list or vector, else none.
pub open spec fn params_of(args: Val) -> Seq<Val> {
    match args {
        Val::List(a) => a,
        Val::Vector(a) => a,
        _ => Seq::empty(),
    }
}

/// Whether binding `argv` to `params` from index `i` on stays within `argv`:
/// a parameter at index `i` takes `argv[i]`, a parameter after `&` takes the
/// arguments from index `i - 1` on.
pub open spec fn bind_ok(params: Seq<Val>, argv: Seq<Val>, i: nat, rest: bool) -> bool
    decreases params.len() - i,
{
    if i >= params.len() {
        true
    } else {
        match params[i as int] {
            Val::Symbol(s) => if s == "&"@ {
                bind_ok(params, argv, i + 1, true)
            } else if rest {
                i >= 1 && i - 1 <= argv.len() && bind_ok(params, argv, i + 1, rest)
            } else {
                i < argv.len() && bind_ok(params, argv, i + 1, rest)
            },
            _ => bind_ok(params, argv, i + 1, rest),
        }
    }
}

/// The symbols bound by binding `argv` to `params` from index `i` on.
pub open spec fn bind_syms(
    params: Seq<Val>,
    argv: Seq<Val>,
    i: nat,
    rest: bool,
    syms: Seq<(Seq<char>, Val)>,
) -> Seq<(Seq<char>, Val)>
    decreases params.len() - i,
{
    if i >= params.len() {
        syms
    } else {
        match params[i as int] {
            Val::Symbol(s) => if s == "&"@ {
                bind_syms(params, argv, i + 1, true, syms)
            } else if rest {
                bind_syms(
                    params,
                    argv,
                    i + 1,
                    rest,
                    map_insert(syms, s, Val::List(argv.subrange(i - 1, argv.len() as int))),
                )
            } else {
                bind_syms(params, argv, i + 1, rest, map_insert(syms, s, argv[i as int]))
            },
            _ => bind_syms(params, argv, i + 1, rest, syms),
        }
    }
}

impl Lambda {
    /// The model of this lambda.
    pub open spec fn val(self) -> Val {
        Val::Lambda {
            ast: Box::new(self.ast.val()),
            params: vals(self.args@),
            env: self.env,
            is_macro: self.is_macro,
        }
    }

    /// A function with body `ast`, the parameters of `args`, closing over frame `env`.
    pub fn new(ast: MalVal, args: MalVal, env: usize) -> (l: Lambda)
        ensures
            l.val() == (Val::Lambda {
                ast: Box::new(ast.val()),
                params: params_of(args.val()),
                env: env,
                is_macro: false,
            }),
    {
        let a = match &args {
            MalVal::List(a) => dup_vec(a),
            MalVal::Vector(a) => dup_vec(a),
            _ => Vec::new(),
        };
        proof {
            lemma_val(args);
            if !(args.val() is List) && !(args.val() is Vector) {
                assert(vals(a@) =~= Seq::<Val>::empty());
            }
        }
        Lambda { ast: Box::new(ast), args: a, env, is_macro: false }
    }

    /// A macro with body `ast`, the parameters of `args`, closing over frame `env`.
    pub fn new_macro(ast: MalVal, args: MalVal, env: usize) -> (l: Lambda)
        ensures
            l.val() == (Val::Lambda {
                ast: Box::new(ast.val()),
                params: params_of(args.val()),
                env: env,
                is_macro: true,
            }),
    {
        let mut l = Lambda::new(ast, args, env);
        l.is_macro = true;
        l
    }

    /// A copy of this lambda with the same model.
    pub fn dup(&self) -> (r: Lambda)
        ensures
            r.val() == self.val(),
        decreases self,
    {
        Lambda { ast: Box::new(self.ast.dup()), args: dup_vec(&self.args), env: self.env, is_macro: self.is_macro }
    }

    /// The frame that a call with arguments `argv` runs in: its outer frame is the
    /// closure's, each parameter symbol is bound to its argument and the symbol
    /// after `&` to the list of the remaining arguments.
    pub fn bind(&self, argv: &[MalVal]) -> (e: MalEnv)
        requires
            bind_ok(vals(self.args@), vals(argv@), 0, false),
        ensures
            e.view() == (Frame {
                symbols: bind_syms(vals(self.args@), vals(argv@), 0, false, Seq::empty()),
                outer: Some(self.env),
            }),
    {
        let mut e = MalEnv::new(Some(self.env));
        let mut remaining = false;
        let mut i: usize = 0;
        let ghost params = vals(self.args@);
        let ghost av = vals(argv@);
        while i < self.args.len()
            invariant
                params == vals(self.args@),
                av == vals(argv@),
                i <= params.len(),
                e.outer == Some(self.env),
                bind_ok(params, av, i as nat, remaining),
                bind_syms(params, av, 0, false, Seq::empty()) == bind_syms(
                    params,
                    av,
                    i as nat,
                    remaining,
                    e.symbols.view(),
                ),
            decreases self.args@.len() - i,
        {
            assert(params[i as int] == self.args@[i as int].val());
            match &self.args[i] {
                MalVal::Symbol(s) => {
                    if crate::text::str_eq(s.as_str(), "&") {
                        remaining = true;
                    } else if remaining {
                        let mut rest: Vec<MalVal> = Vec::new();
                        let mut j = i - 1;
                        while j < argv.len()
                            invariant
                                i >= 1,
                                i - 1 <= j <= argv@.len(),
                                rest@.len() == j - (i - 1),
                                forall|t: int|
                                    0 <= t < rest@.len() ==> #[trigger] rest@[t].val()
                                        == argv@[t + i - 1].val(),
                            decreases argv@.len() - j,
                        {
                            rest.push(argv[j].dup());
                            j = j + 1;
                        }
                        assert(vals(rest@) =~= av.subrange(i - 1, av.len() as int));
                        let lst = MalVal::List(rest);
                        proof {
                            lemma_val(lst);
                        }
                        e.set(s.as_str(), lst);
                    } else {
                        e.set(s.as_str(), argv[i].dup());
                    }
                },
                _ => {},
            }
            i = i + 1;
        }
        e
    }

    /// Whether a call with the arguments `argv` has an argument for each
    /// parameter (see `bind_ok`).
    pub fn fits(&self, argv: &Vec<MalVal>) -> (b: bool)
        ensures
            b == bind_ok(vals(self.args@), vals(argv@), 0, false),
    {
        let ghost params = vals(self.args@);
        let ghost av = vals(argv@);
        let mut rest = false;
        let mut i: usize = 0;
        while i < self.args.len()
            invariant
                params == vals(self.args@),
                av == vals(argv@),
                i <= params.len(),
                bind_ok(params, av, 0, false) == bind_ok(params, av, i as nat, rest),
            decreases self.args@.len() - i,
        {
            assert(params[i as int] == self.args@[i as int].val());
            match &self.args[i] {
                MalVal::Symbol(s) => {
                    if crate::text::str_eq(s.as_str(), "&") {
                        rest = true;
                    } else if rest {
                        if !(i >= 1 && i - 1 <= argv.len()) {
                            return false;
                        }
                    } else if i >= argv.len() {
                        return false;
                    }
                },
                _ => {},
            }
            i = i + 1;
        }
        true
    }

    pub fn is_macro(&self) -> (b: bool)
        ensures
            b == self.is_macro,
    {
        self.is_macro
    }

    /// A copy of the parameter list.
    pub fn get_args(&self) -> (a: Vec<MalVal>)
        ensures
            vals(a@) == vals(self.args@),
    {
        dup_vec(&self.args)
    }

    /// A copy of the body.
    pub fn get_ast(&self) -> (a: MalVal)
        ensures
            a.val() == self.ast.val(),
    {
        self.ast.dup()
    }
}

} // verus!
