use vstd::prelude::*;
use crate::ast::Ast;
use crate::error::LangError;
use crate::literal::{int_literal, is_float_literal};
use crate::primitive::PrimV;
use crate::result::ValueV;
use crate::scope::EnvV;
use crate::userfunc::FnDefV;

verus! {

/// The outcome of one evaluation: a value, nothing, or an error.
pub type SpecOut = core::result::Result<Option<ValueV>, LangError>;

/// The truthiness rule: every outcome but the boolean false counts as true,
/// including nothing and every non-boolean value.
pub open spec fn truthy(v: Option<ValueV>) -> bool {
    v != Some(ValueV::Primitive(PrimV::B(false)))
}

/// What `not` makes of an evaluated argument: true only for the boolean
/// false, false for every other outcome including nothing.
pub open spec fn not_value(v: Option<ValueV>) -> ValueV {
    ValueV::Primitive(PrimV::B(v == Some(ValueV::Primitive(PrimV::B(false)))))
}

/// What `eq?` makes of two evaluated arguments: nothing equals nothing,
/// nothing never equals a value, and two values compare structurally.
pub open spec fn eq_value(a: Option<ValueV>, b: Option<ValueV>) -> ValueV {
    ValueV::Primitive(PrimV::B(a == b))
}

/// What a leaf atom stands for: first a 32-bit integer literal, then a
/// float literal, then a name looked up in the environment; anything else
/// is an undefined reference.
pub open spec fn leaf_value(a: Seq<char>, env: EnvV) -> SpecOut {
    if int_literal(a) is Some {
        Ok(Some(ValueV::Primitive(PrimV::I(int_literal(a)->Some_0))))
    } else if is_float_literal(a) {
        Ok(Some(ValueV::Primitive(PrimV::F(a))))
    } else if env.dom().contains(a) {
        Ok(Some(env[a]))
    } else {
        Err(LangError::UndefinedReference)
    }
}

/// All members of a parameter list are plain leaves.
pub open spec fn all_leaves(s: Seq<Ast>) -> bool {
    forall|i: int| 0 <= i < s.len() ==> (#[trigger] s[i]) is Leaf
}

/// The atom of a leaf.
pub open spec fn leaf_name(n: Ast) -> Seq<char> {
    match n {
        Ast::Leaf(s) => s,
        Ast::Group(_) => Seq::empty(),
    }
}

/// The names of a sequence of leaves.
pub open spec fn leaf_names(s: Seq<Ast>) -> Seq<Seq<char>> {
    Seq::new(s.len(), |i: int| leaf_name(s[i]))
}

/// Binds each parameter to its value, left to right, into `env`.
pub open spec fn bind_params(params: Seq<Seq<char>>, vals: Seq<ValueV>, env: EnvV) -> EnvV
    decreases params.len(),
{
    if params.len() == 0 || vals.len() == 0 {
        env
    } else {
        bind_params(
            params.drop_first(),
            vals.drop_first(),
            env.insert(params.first(), vals.first()),
        )
    }
}

/// Evaluates one tree against an environment, yielding the outcome and the
/// environment as the evaluation left it.  `fuel` bounds the depth of
/// user-function application.
pub open spec fn eval_spec(fuel: nat, n: Ast, env: EnvV) -> (SpecOut, EnvV)
    decreases fuel, n, 0int,
{
    match n {
        Ast::Leaf(a) => (leaf_value(a, env), env),
        Ast::Group(cs) => {
            if cs.len() == 0 {
                (Ok(None), env)
            } else {
                let (r0, env0) = eval_spec(fuel, cs[0], env);
                match r0 {
                    Err(e) => (Err(e), env0),
                    Ok(None) => (Ok(None), env0),
                    Ok(Some(op)) => {
                        let args = cs.subrange(1, cs.len() as int);
                        match op {
                            ValueV::Primitive(_) => (Err(LangError::CallOnPrimitive), env0),
                            ValueV::Builtin(id) => builtin_spec(fuel, id, args, env0),
                            ValueV::FnDef(f) => apply_spec(fuel, f, args, env0),
                        }
                    },
                }
            }
        },
    }
}

/// Dispatches a builtin by its identifier over unevaluated argument trees.
/// An identifier that names no builtin is an undefined reference.
pub open spec fn builtin_spec(fuel: nat, id: Seq<char>, args: Seq<Ast>, env: EnvV) -> (
    SpecOut,
    EnvV,
)
    decreases fuel, args, 3int,
{
    if id == seq!['d', 'e', 'f', 'i', 'n', 'e'] {
        define_spec(fuel, args, env)
    } else if id == seq!['i', 'f'] {
        if_spec(fuel, args, env)
    } else if id == seq!['e', 'q', '?'] {
        eqhuh_spec(fuel, args, env)
    } else if id == seq!['n', 'o', 't'] {
        not_spec(fuel, args, env)
    } else {
        (Err(LangError::UndefinedReference), env)
    }
}

/// `define`: exactly two arguments.  A leaf subject binds the evaluated
/// right-hand side to the name; a group subject `(name param...)` with leaf
/// parameters binds a function value.  The result is always nothing.
pub open spec fn define_spec(fuel: nat, args: Seq<Ast>, env: EnvV) -> (SpecOut, EnvV)
    decreases fuel, args, 2int,
{
    if args.len() != 2 {
        (Err(LangError::ArityError), env)
    } else {
        match args[0] {
            Ast::Leaf(name) => {
                let (r, env1) = eval_spec(fuel, args[1], env);
                match r {
                    Err(e) => (Err(e), env1),
                    Ok(None) => (Err(LangError::MissingValue), env1),
                    Ok(Some(v)) => (Ok(None), env1.insert(name, v)),
                }
            },
            Ast::Group(sig) => {
                if sig.len() == 0 {
                    (Err(LangError::SyntaxError), env)
                } else if !(sig[0] is Leaf) {
                    (Err(LangError::SyntaxError), env)
                } else if !all_leaves(sig.subrange(1, sig.len() as int)) {
                    (Err(LangError::InvalidParameter), env)
                } else {
                    let f = FnDefV {
                        params: leaf_names(sig.subrange(1, sig.len() as int)),
                        body: args[1],
                    };
                    (Ok(None), env.insert(leaf_name(sig[0]), ValueV::FnDef(f)))
                }
            },
        }
    }
}

/// `if`: two or three arguments.  Evaluates the condition; when it is
/// truthy evaluates the second argument, otherwise the third when present,
/// otherwise nothing.
pub open spec fn if_spec(fuel: nat, args: Seq<Ast>, env: EnvV) -> (SpecOut, EnvV)
    decreases fuel, args, 2int,
{
    if args.len() < 2 || args.len() > 3 {
        (Err(LangError::ArityError), env)
    } else {
        let (c, env1) = eval_spec(fuel, args[0], env);
        match c {
            Err(e) => (Err(e), env1),
            Ok(cv) => {
                if truthy(cv) {
                    eval_spec(fuel, args[1], env1)
                } else if args.len() == 3 {
                    eval_spec(fuel, args[2], env1)
                } else {
                    (Ok(None), env1)
                }
            },
        }
    }
}

/// `eq?`: exactly two arguments, both evaluated, compared structurally.
pub open spec fn eqhuh_spec(fuel: nat, args: Seq<Ast>, env: EnvV) -> (SpecOut, EnvV)
    decreases fuel, args, 2int,
{
    if args.len() != 2 {
        (Err(LangError::ArityError), env)
    } else {
        let (a, env1) = eval_spec(fuel, args[0], env);
        match a {
            Err(e) => (Err(e), env1),
            Ok(av) => {
                let (b, env2) = eval_spec(fuel, args[1], env1);
                match b {
                    Err(e) => (Err(e), env2),
                    Ok(bv) => (Ok(Some(eq_value(av, bv))), env2),
                }
            },
        }
    }
}

/// `not`: exactly one argument, evaluated; true only for the boolean false.
pub open spec fn not_spec(fuel: nat, args: Seq<Ast>, env: EnvV) -> (SpecOut, EnvV)
    decreases fuel, args, 2int,
{
    if args.len() != 1 {
        (Err(LangError::ArityError), env)
    } else {
        let (a, env1) = eval_spec(fuel, args[0], env);
        match a {
            Err(e) => (Err(e), env1),
            Ok(av) => (Ok(Some(not_value(av))), env1),
        }
    }
}

/// Evaluates argument trees left to right against the caller's
/// environment; an argument that evaluates to nothing is a missing value.
pub open spec fn eval_args_spec(fuel: nat, args: Seq<Ast>, env: EnvV) -> (
    core::result::Result<Seq<ValueV>, LangError>,
    EnvV,
)
    decreases fuel, args, 1int,
{
    if args.len() == 0 {
        (Ok(Seq::empty()), env)
    } else {
        let (r, env1) = eval_spec(fuel, args[0], env);
        match r {
            Err(e) => (Err(e), env1),
            Ok(None) => (Err(LangError::MissingValue), env1),
            Ok(Some(v)) => {
                let (rest, env2) = eval_args_spec(fuel, args.subrange(1, args.len() as int), env1);
                match rest {
                    Err(e) => (Err(e), env2),
                    Ok(vs) => (Ok(seq![v] + vs), env2),
                }
            },
        }
    }
}

/// Applies a user function: arity must match; the arguments are evaluated
/// against the caller's environment, the callee's environment is a copy of
/// the caller's with the parameters bound, and the body is evaluated there
/// with one unit of fuel less.  The callee's environment is discarded: the
/// caller keeps only what argument evaluation did to its own environment.
pub open spec fn apply_spec(fuel: nat, f: FnDefV, args: Seq<Ast>, env: EnvV) -> (SpecOut, EnvV)
    decreases fuel, args, 2int,
{
    if args.len() != f.params.len() {
        (Err(LangError::ArityError), env)
    } else {
        let (vr, env1) = eval_args_spec(fuel, args, env);
        match vr {
            Err(e) => (Err(e), env1),
            Ok(vals) => {
                if fuel == 0 {
                    (Err(LangError::StackOverflow), env1)
                } else {
                    let callee = bind_params(f.params, vals, env1);
                    let (r, _ignored) = eval_spec((fuel - 1) as nat, f.body, callee);
                    (r, env1)
                }
            },
        }
    }
}

/// Evaluates a whole program: each top-level tree in order against the same
/// threaded environment, keeping only the last outcome; an error stops the
/// run.
pub open spec fn exec_spec(fuel: nat, exprs: Seq<Ast>, env: EnvV) -> (SpecOut, EnvV)
    decreases exprs.len(),
{
    if exprs.len() == 0 {
        (Ok(None), env)
    } else {
        let (r, env1) = eval_spec(fuel, exprs[0], env);
        match r {
            Err(e) => (Err(e), env1),
            Ok(v) => {
                if exprs.len() == 1 {
                    (Ok(v), env1)
                } else {
                    exec_spec(fuel, exprs.subrange(1, exprs.len() as int), env1)
                }
            },
        }
    }
}

} // verus!
