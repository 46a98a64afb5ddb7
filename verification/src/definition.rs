use vstd::prelude::*;
use crate::ast::{ast_seq_height, ast_view, lemma_ast_seq_height_index, lemma_nodes_view_index,
    lemma_nodes_view_len, nodes_view, Ast, AstNode};
use crate::error::LangError;
use crate::exec::{eval_node, out_view, EvalResult};
use crate::result::Result;
use crate::scope::Scope;
use crate::semantics::{all_leaves, define_spec, leaf_name, leaf_names};
use crate::userfunc::FnDef;

verus! {

/// `define`: exactly two arguments.  `(define name expr)` evaluates `expr`
/// and binds the value to `name`; `(define (name param...) body)` binds a
/// function without evaluating `body`.  The result is always nothing: the
/// binding is the point.
pub fn definitiondef(args: Vec<AstNode>, scope: &mut Scope, fuel: u64) -> (r: EvalResult)
    ensures
        out_view(r) == define_spec(fuel as nat, nodes_view(args@), old(scope)@).0,
        final(scope)@ == define_spec(fuel as nat, nodes_view(args@), old(scope)@).1,
    decreases fuel, ast_seq_height(nodes_view(args@)), 1int,
{
    broadcast use lemma_nodes_view_len, lemma_nodes_view_index;

    let ghost av = nodes_view(args@);
    if args.len() != 2 {
        return Err(LangError::ArityError);
    }
    proof {
        lemma_ast_seq_height_index(av, 0);
        lemma_ast_seq_height_index(av, 1);
    }
    match &args[0] {
        AstNode::Leaf(varname) => {
            proof {
                assert(av[0] == Ast::Leaf(varname@));
            }
            match eval_node(&args[1], scope, fuel) {
                Err(e) => Err(e),
                Ok(None) => Err(LangError::MissingValue),
                Ok(Some(v)) => {
                    scope.insert(varname.clone(), v);
                    Ok(None)
                },
            }
        },
        AstNode::AST(sig) => {
            let ghost sv = nodes_view(sig@);
            proof {
                assert(av[0] == Ast::Group(sv));
            }
            if sig.len() == 0 {
                return Err(LangError::SyntaxError);
            }
            match &sig[0] {
                AstNode::AST(_) => {
                    proof {
                        assert(sv[0] == ast_view(sig@[0]));
                        assert(!(sv[0] is Leaf));
                    }
                    Err(LangError::SyntaxError)
                },
                AstNode::Leaf(fname) => {
                    proof {
                        assert(sv[0] == Ast::Leaf(fname@));
                    }
                    let ghost ps = sv.subrange(1, sv.len() as int);
                    let mut params: Vec<String> = Vec::new();
                    let mut i: usize = 1;
                    while i < sig.len()
                        invariant
                            1 <= i <= sig@.len(),
                            av == nodes_view(args@),
                            av.len() == 2,
                            av[0] == Ast::Group(sv),
                            sv[0] is Leaf,
                            scope@ == old(scope)@,
                            sv == nodes_view(sig@),
                            sv.len() == sig@.len(),
                            ps == sv.subrange(1, sv.len() as int),
                            ps.len() == sv.len() - 1,
                            params@.len() == i - 1,
                            forall|j: int|
                                0 <= j < i - 1 ==> (#[trigger] ps[j]) is Leaf && params@[j]@
                                    == leaf_name(ps[j]),
                        decreases sig@.len() - i,
                    {
                        proof {
                            broadcast use lemma_nodes_view_len, lemma_nodes_view_index;

                            assert(ps[i - 1] == sv[i as int]);
                            assert(sv[i as int] == ast_view(sig@[i as int]));
                        }
                        match &sig[i] {
                            AstNode::AST(_) => {
                                proof {
                                    assert(!((ps[i - 1]) is Leaf));
                                    assert(!all_leaves(ps));
                                }
                                return Err(LangError::InvalidParameter);
                            },
                            AstNode::Leaf(p) => {
                                params.push(p.clone());
                            },
                        }
                        i += 1;
                    }
                    proof {
                        assert(all_leaves(ps));
                        assert(params.deep_view() =~= leaf_names(ps));
                    }
                    let f = FnDef::new(params, args[1].clone());
                    scope.insert(fname.clone(), Result::FnDef(f));
                    Ok(None)
                },
            }
        },
    }
}

} // verus!
