use vstd::prelude::*;
use crate::ast::{
    ast_height, ast_view, lemma_ast_seq_height_index, lemma_ast_seq_height_subrange,
    lemma_nodes_view_index, lemma_nodes_view_len, lemma_nodes_view_subrange, nodes_view, Ast,
    AstNode,
};
use crate::definition::definitiondef;
use crate::logic::{eqhuhdef, ifdef, notdef};
use crate::error::LangError;
use crate::literal::is_float_text;
use crate::primitive::Primitive;
use crate::result::{Result, ValueV};
use crate::scope::Scope;
use crate::semantics::{builtin_spec, eval_spec, exec_spec, leaf_value, SpecOut};

verus! {

/// The outcome of one executable evaluation: a value, nothing, or an error.
pub type EvalResult = core::result::Result<Option<Result>, LangError>;

/// The model of an optional value.
pub open spec fn opt_value_view(v: Option<Result>) -> Option<ValueV> {
    match v {
        Some(x) => Some(x@),
        None => None,
    }
}

/// The model of an executable outcome.
pub open spec fn out_view(r: EvalResult) -> SpecOut {
    match r {
        Ok(v) => Ok(opt_value_view(v)),
        Err(e) => Err(e),
    }
}

/// Copies every node after the first: the argument list of a call.
pub fn tail_nodes(v: &Vec<AstNode>) -> (r: Vec<AstNode>)
    requires
        v@.len() >= 1,
    ensures
        nodes_view(r@) == nodes_view(v@).subrange(1, v@.len() as int),
        r@.len() == v@.len() - 1,
{
    let mut r: Vec<AstNode> = Vec::new();
    let mut i: usize = 1;
    while i < v.len()
        invariant
            1 <= i <= v@.len(),
            r@.len() == i - 1,
            forall|j: int| 0 <= j < r@.len() ==> ast_view(#[trigger] r@[j]) == ast_view(v@[j + 1]),
        decreases v@.len() - i,
    {
        r.push(v[i].clone());
        i += 1;
    }
    proof {
        broadcast use lemma_nodes_view_len, lemma_nodes_view_index;

        lemma_nodes_view_subrange(v@, 1, v@.len() as int);
        assert forall|j: int| 0 <= j < r@.len() implies nodes_view(r@)[j] == nodes_view(
            v@.subrange(1, v@.len() as int),
        )[j] by {
            assert(v@.subrange(1, v@.len() as int)[j] == v@[j + 1]);
        }
        assert(nodes_view(r@) =~= nodes_view(v@.subrange(1, v@.len() as int)));
    }
    r
}

/// Evaluates one syntax tree against an environment.  A leaf resolves as an
/// integer literal, then a float literal, then a name; a group evaluates
/// its head and applies the builtin or user function it names.  `fuel`
/// bounds the depth of user-function application.
pub fn eval_node(node: &AstNode, scope: &mut Scope, fuel: u64) -> (r: EvalResult)
    ensures
        out_view(r) == eval_spec(fuel as nat, node@, old(scope)@).0,
        final(scope)@ == eval_spec(fuel as nat, node@, old(scope)@).1,
    decreases fuel, ast_height(node@), 0int,
{
    broadcast use lemma_nodes_view_len, lemma_nodes_view_index;

    match node {
        AstNode::Leaf(l) => {
            let ghost a = l@;
            proof {
                assert(node@ == Ast::Leaf(a));
                assert(eval_spec(fuel as nat, node@, old(scope)@) == (
                    leaf_value(a, old(scope)@),
                    old(scope)@,
                ));
            }
            match crate::literal::parse_i32(l.as_str()) {
                Some(i) => Ok(Some(Result::Primitive(Primitive::I(i)))),
                None => {
                    if is_float_text(l.as_str()) {
                        Ok(Some(Result::Primitive(Primitive::F(l.clone()))))
                    } else {
                        match scope.get(l) {
                            Some(v) => Ok(Some(v)),
                            None => Err(LangError::UndefinedReference),
                        }
                    }
                },
            }
        },
        AstNode::AST(children) => {
            let ghost cs = nodes_view(children@);
            proof {
                assert(node@ == Ast::Group(cs));
            }
            if children.len() == 0 {
                return Ok(None);
            }
            proof {
                assert(cs[0] == ast_view(children@[0]));
                lemma_ast_seq_height_index(cs, 0);
            }
            let r0 = eval_node(&children[0], scope, fuel);
            proof {
                let step = eval_spec(fuel as nat, cs[0], old(scope)@);
                assert(out_view(r0) == step.0);
                assert(scope@ == step.1);
            }
            match r0 {
                Err(e) => {
                    proof {
                        assert(eval_spec(fuel as nat, node@, old(scope)@) == (
                            Err::<Option<ValueV>, LangError>(e),
                            scope@,
                        ));
                    }
                    Err(e)
                },
                Ok(None) => {
                    proof {
                        assert(eval_spec(fuel as nat, node@, old(scope)@) == (
                            Ok::<Option<ValueV>, LangError>(None),
                            scope@,
                        ));
                    }
                    Ok(None)
                },
                Ok(Some(op)) => {
                    proof {
                        lemma_ast_seq_height_subrange(cs, 1, cs.len() as int);
                    }
                    let args = tail_nodes(children);
                    let ghost av = cs.subrange(1, cs.len() as int);
                    match op {
                        Result::Primitive(_) => {
                            proof {
                                assert(eval_spec(fuel as nat, node@, old(scope)@) == (
                                    Err::<Option<ValueV>, LangError>(LangError::CallOnPrimitive),
                                    scope@,
                                ));
                            }
                            Err(LangError::CallOnPrimitive)
                        },
                        Result::Builtin(b) => {
                            let ghost env0 = scope@;
                            proof {
                                assert(eval_spec(fuel as nat, node@, old(scope)@) == builtin_spec(
                                    fuel as nat,
                                    b@,
                                    av,
                                    env0,
                                ));
                            }
                            proof {
                                reveal_strlit("define");
                                reveal_strlit("if");
                                reveal_strlit("eq?");
                                reveal_strlit("not");
                                assert("define"@ =~= seq!['d', 'e', 'f', 'i', 'n', 'e']);
                                assert("if"@ =~= seq!['i', 'f']);
                                assert("eq?"@ =~= seq!['e', 'q', '?']);
                                assert("not"@ =~= seq!['n', 'o', 't']);
                            }
                            let id_define: String = "define".to_owned();
                            let id_if: String = "if".to_owned();
                            let id_eq: String = "eq?".to_owned();
                            let id_not: String = "not".to_owned();
                            if b.id == id_define {
                                definitiondef(args, scope, fuel)
                            } else if b.id == id_if {
                                ifdef(args, scope, fuel)
                            } else if b.id == id_eq {
                                eqhuhdef(args, scope, fuel)
                            } else if b.id == id_not {
                                notdef(args, scope, fuel)
                            } else {
                                proof {
                                    assert(builtin_spec(fuel as nat, b@, av, env0) == (
                                        Err::<Option<ValueV>, LangError>(
                                            LangError::UndefinedReference,
                                        ),
                                        env0,
                                    ));
                                }
                                Err(LangError::UndefinedReference)
                            }
                        },
                        Result::FnDef(f) => {
                            proof {
                                assert(eval_spec(fuel as nat, node@, old(scope)@) == crate
                                    ::semantics::apply_spec(fuel as nat, f@, av, scope@));
                            }
                            f.exec(args, scope, fuel)
                        },
                    }
                },
            }
        },
    }
}

/// One syntax tree waiting to be evaluated.
#[derive(Debug)]
pub struct Program {
    pub ast: AstNode,
}

impl Program {
    /// Wraps a tree for evaluation.
    pub fn new(ast: AstNode) -> (r: Program)
        ensures
            r.ast@ == ast@,
    {
        Program { ast }
    }

    /// Evaluates the wrapped tree against an environment.
    pub fn exec(&self, scope: &mut Scope, fuel: u64) -> (r: EvalResult)
        ensures
            out_view(r) == eval_spec(fuel as nat, self.ast@, old(scope)@).0,
            final(scope)@ == eval_spec(fuel as nat, self.ast@, old(scope)@).1,
    {
        eval_node(&self.ast, scope, fuel)
    }
}

/// Evaluates a whole program: each top-level tree in order against the same
/// environment, keeping only the outcome of the last one; the first error
/// stops the run.
pub fn exec(exprs: &Vec<AstNode>, scope: &mut Scope, fuel: u64) -> (r: EvalResult)
    ensures
        out_view(r) == exec_spec(fuel as nat, nodes_view(exprs@), old(scope)@).0,
        final(scope)@ == exec_spec(fuel as nat, nodes_view(exprs@), old(scope)@).1,
{
    broadcast use lemma_nodes_view_len, lemma_nodes_view_index;

    let ghost ev = nodes_view(exprs@);
    let ghost env0 = old(scope)@;
    let mut last: Option<Result> = None;
    let mut i: usize = 0;
    proof {
        assert(ev.subrange(0, ev.len() as int) =~= ev);
    }
    while i < exprs.len()
        invariant
            i <= exprs@.len(),
            ev == nodes_view(exprs@),
            ev.len() == exprs@.len(),
            env0 == old(scope)@,
            i < exprs@.len() ==> exec_spec(fuel as nat, ev, env0) == exec_spec(
                fuel as nat,
                ev.subrange(i as int, ev.len() as int),
                scope@,
            ),
            i == exprs@.len() ==> exec_spec(fuel as nat, ev, env0) == (
                Ok::<Option<ValueV>, LangError>(opt_value_view(last)),
                scope@,
            ),
        decreases exprs@.len() - i,
    {
        let ghost sub_i = ev.subrange(i as int, ev.len() as int);
        proof {
            broadcast use lemma_nodes_view_len, lemma_nodes_view_index;

            assert(sub_i[0] == ev[i as int]);
            assert(sub_i.subrange(1, sub_i.len() as int) =~= ev.subrange(
                i + 1,
                ev.len() as int,
            ));
            assert(ev[i as int] == ast_view(exprs@[i as int]));
        }
        match eval_node(&exprs[i], scope, fuel) {
            Err(e) => {
                return Err(e);
            },
            Ok(v) => {
                last = v;
            },
        }
        i += 1;
    }
    Ok(last)
}

} // verus!
