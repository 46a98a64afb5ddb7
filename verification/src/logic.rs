use vstd::prelude::*;
use crate::ast::{ast_seq_height, lemma_ast_seq_height_index, lemma_nodes_view_index,
    lemma_nodes_view_len, nodes_view, AstNode};
use crate::error::LangError;
use crate::exec::{eval_node, opt_value_view, out_view, EvalResult};
use crate::primitive::Primitive;
use crate::result::{value_eq, Result};
use crate::scope::Scope;
use crate::semantics::{eqhuh_spec, if_spec, not_spec, truthy};

verus! {

/// Whether an evaluated outcome is exactly the boolean false: the one
/// outcome that does not count as true.
fn is_false_value(v: &Option<Result>) -> (r: bool)
    ensures
        r == !truthy(opt_value_view(*v)),
{
    match v {
        None => false,
        Some(Result::Primitive(Primitive::B(b))) => !*b,
        Some(Result::Primitive(Primitive::I(_))) => false,
        Some(Result::Primitive(Primitive::F(_))) => false,
        Some(Result::Builtin(_)) => false,
        Some(Result::FnDef(_)) => false,
    }
}

/// `if`: evaluates the condition, then the branch it picks.  Two or three
/// arguments; everything but the boolean false counts as true; a false
/// condition without an else-branch yields nothing.
pub fn ifdef(args: Vec<AstNode>, scope: &mut Scope, fuel: u64) -> (r: EvalResult)
    ensures
        out_view(r) == if_spec(fuel as nat, nodes_view(args@), old(scope)@).0,
        final(scope)@ == if_spec(fuel as nat, nodes_view(args@), old(scope)@).1,
    decreases fuel, ast_seq_height(nodes_view(args@)), 1int,
{
    broadcast use lemma_nodes_view_len, lemma_nodes_view_index;

    let ghost av = nodes_view(args@);
    if args.len() < 2 || args.len() > 3 {
        return Err(LangError::ArityError);
    }
    proof {
        lemma_ast_seq_height_index(av, 0);
        lemma_ast_seq_height_index(av, 1);
        if av.len() == 3 {
            lemma_ast_seq_height_index(av, 2);
        }
    }
    match eval_node(&args[0], scope, fuel) {
        Err(e) => Err(e),
        Ok(cv) => {
            if !is_false_value(&cv) {
                eval_node(&args[1], scope, fuel)
            } else if args.len() == 3 {
                eval_node(&args[2], scope, fuel)
            } else {
                Ok(None)
            }
        },
    }
}

/// `eq?`: evaluates both arguments and compares the outcomes: nothing
/// equals nothing, nothing never equals a value, values compare
/// structurally.
pub fn eqhuhdef(args: Vec<AstNode>, scope: &mut Scope, fuel: u64) -> (r: EvalResult)
    ensures
        out_view(r) == eqhuh_spec(fuel as nat, nodes_view(args@), old(scope)@).0,
        final(scope)@ == eqhuh_spec(fuel as nat, nodes_view(args@), old(scope)@).1,
    decreases fuel, ast_seq_height(nodes_view(args@)), 1int,
{
    broadcast use lemma_nodes_view_len, lemma_nodes_view_index;

    let ghost av = nodes_view(args@);
    if args.len() != 2 {
        return Err(LangError::ArityError);
    }
    proof {
        lemma_ast_seq_height_index(av, 0);
        lemma_ast_seq_height_index(av, 1);
    }
    match eval_node(&args[0], scope, fuel) {
        Err(e) => Err(e),
        Ok(a) => match eval_node(&args[1], scope, fuel) {
            Err(e) => Err(e),
            Ok(b) => {
                let same = match (&a, &b) {
                    (None, None) => true,
                    (Some(x), Some(y)) => value_eq(x, y),
                    _ => false,
                };
                proof {
                    assert(same == (opt_value_view(a) == opt_value_view(b)));
                }
                Ok(Some(Result::Primitive(Primitive::B(same))))
            },
        },
    }
}

/// `not`: evaluates its one argument; true only when the outcome is the
/// boolean false.
pub fn notdef(args: Vec<AstNode>, scope: &mut Scope, fuel: u64) -> (r: EvalResult)
    ensures
        out_view(r) == not_spec(fuel as nat, nodes_view(args@), old(scope)@).0,
        final(scope)@ == not_spec(fuel as nat, nodes_view(args@), old(scope)@).1,
    decreases fuel, ast_seq_height(nodes_view(args@)), 1int,
{
    broadcast use lemma_nodes_view_len, lemma_nodes_view_index;

    let ghost av = nodes_view(args@);
    if args.len() != 1 {
        return Err(LangError::ArityError);
    }
    proof {
        lemma_ast_seq_height_index(av, 0);
    }
    match eval_node(&args[0], scope, fuel) {
        Err(e) => Err(e),
        Ok(a) => Ok(Some(Result::Primitive(Primitive::B(is_false_value(&a))))),
    }
}

} // verus!
