use vstd::prelude::*;
use crate::ast::{ast_seq_height, ast_view, lemma_ast_seq_height_index, lemma_nodes_view_index,
    lemma_nodes_view_len, nodes_view, Ast, AstNode};
use crate::error::LangError;
use crate::exec::{eval_node, out_view, EvalResult};
use crate::result::{Result, ValueV};
use crate::scope::{EnvV, Scope};
use crate::semantics::{apply_spec, bind_params, eval_args_spec};

verus! {

/// Values already evaluated, prefixed to what argument evaluation still
/// owes.
spec fn args_compose(
    pre: Seq<ValueV>,
    rest: (core::result::Result<Seq<ValueV>, LangError>, EnvV),
) -> (core::result::Result<Seq<ValueV>, LangError>, EnvV) {
    match rest.0 {
        Err(e) => (Err(e), rest.1),
        Ok(vs) => (Ok(pre + vs), rest.1),
    }
}

/// Model of a user-defined function: its parameter names and its body.
#[verifier::ext_equal]
pub struct FnDefV {
    pub params: Seq<Seq<char>>,
    pub body: Ast,
}

/// A user-defined function: ordered parameter names and one unevaluated
/// body expression.  It captures no environment: the body is resolved
/// against whatever environment the call is made in.
#[derive(Debug, PartialEq)]
pub struct FnDef {
    pub params: Vec<String>,
    pub body: AstNode,
}

impl View for FnDef {
    type V = FnDefV;

    open spec fn view(&self) -> FnDefV {
        FnDefV { params: self.params.deep_view(), body: self.body@ }
    }
}

impl Clone for FnDef {
    fn clone(&self) -> (res: Self)
        ensures
            res@ == self@,
    {
        let mut ps: Vec<String> = Vec::new();
        let mut i: usize = 0;
        while i < self.params.len()
            invariant
                i <= self.params.len(),
                ps@.len() == i as int,
                forall|j: int| 0 <= j < i ==> #[trigger] ps@[j]@ == self.params@[j]@,
            decreases self.params.len() - i,
        {
            ps.push(self.params[i].clone());
            i += 1;
        }
        proof {
            assert(ps.deep_view() =~= self.params.deep_view());
        }
        FnDef { params: ps, body: self.body.clone() }
    }
}

impl FnDef {
    /// Applies the function: arity must match; each argument is evaluated
    /// against the caller's environment, the callee's environment is a copy
    /// of the caller's with the parameters bound over it, and the body is
    /// evaluated there with one unit of fuel less.  The callee's
    /// environment is discarded afterwards: nothing the body defines
    /// escapes to the caller.
    pub fn exec(&self, args: Vec<AstNode>, scope: &mut Scope, fuel: u64) -> (r: EvalResult)
        ensures
            out_view(r) == apply_spec(fuel as nat, self@, nodes_view(args@), old(scope)@).0,
            final(scope)@ == apply_spec(fuel as nat, self@, nodes_view(args@), old(scope)@).1,
        decreases fuel, ast_seq_height(nodes_view(args@)), 1int,
    {
        broadcast use lemma_nodes_view_len, lemma_nodes_view_index;

        let ghost av = nodes_view(args@);
        let ghost env0 = old(scope)@;
        if args.len() != self.params.len() {
            proof {
                assert(self@.params.len() == self.params@.len());
            }
            return Err(LangError::ArityError);
        }
        let mut vals: Vec<Result> = Vec::new();
        let mut i: usize = 0;
        proof {
            assert(av.subrange(0, av.len() as int) =~= av);
            assert(vals.deep_view() =~= Seq::<ValueV>::empty());
            let r0 = eval_args_spec(fuel as nat, av, env0);
            if r0.0 is Ok {
                assert(Seq::<ValueV>::empty() + r0.0->Ok_0 =~= r0.0->Ok_0);
            }
        }
        while i < args.len()
            invariant
                i <= args@.len(),
                av == nodes_view(args@),
                env0 == old(scope)@,
                av.len() == args@.len(),
                av.len() == self@.params.len(),
                vals@.len() == i as int,
                eval_args_spec(fuel as nat, av, env0) == args_compose(
                    vals.deep_view(),
                    eval_args_spec(fuel as nat, av.subrange(i as int, av.len() as int), scope@),
                ),
            decreases args@.len() - i,
        {
            let ghost sub_i = av.subrange(i as int, av.len() as int);
            proof {
                broadcast use lemma_nodes_view_len, lemma_nodes_view_index;

                assert(sub_i[0] == av[i as int]);
                lemma_ast_seq_height_index(av, i as int);
                assert(av[i as int] == ast_view(args@[i as int]));
                assert(sub_i.subrange(1, sub_i.len() as int) =~= av.subrange(
                    i + 1,
                    av.len() as int,
                ));
            }
            let ghost pre = vals.deep_view();
            match eval_node(&args[i], scope, fuel) {
                Err(e) => {
                    return Err(e);
                },
                Ok(None) => {
                    return Err(LangError::MissingValue);
                },
                Ok(Some(v)) => {
                    let ghost vw = v@;
                    vals.push(v);
                    proof {
                        assert(vals.deep_view() =~= pre.push(vw));
                        let r2 = eval_args_spec(
                            fuel as nat,
                            av.subrange(i + 1, av.len() as int),
                            scope@,
                        );
                        if r2.0 is Ok {
                            assert(pre + (seq![vw] + r2.0->Ok_0) =~= pre.push(vw) + r2.0->Ok_0);
                        }
                    }
                },
            }
            i += 1;
        }
        proof {
            assert(av.subrange(av.len() as int, av.len() as int) =~= Seq::<Ast>::empty());
            assert(vals.deep_view() + Seq::<ValueV>::empty() =~= vals.deep_view());
            assert(eval_args_spec(fuel as nat, av, env0) == (
                Ok::<Seq<ValueV>, LangError>(vals.deep_view()),
                scope@,
            ));
        }
        if fuel == 0 {
            return Err(LangError::StackOverflow);
        }
        let ghost env_args = scope@;
        let mut local = scope.clone();
        let ghost pv = self.params.deep_view();
        let ghost vv = vals.deep_view();
        let mut k: usize = 0;
        proof {
            assert(pv.subrange(0, pv.len() as int) =~= pv);
            assert(vv.subrange(0, vv.len() as int) =~= vv);
        }
        while k < self.params.len()
            invariant
                k <= self.params@.len(),
                self.params@.len() == vals@.len(),
                pv == self.params.deep_view(),
                vv == vals.deep_view(),
                pv.len() == self.params@.len(),
                vv.len() == vals@.len(),
                env_args == scope@,
                bind_params(pv, vv, env_args) == bind_params(
                    pv.subrange(k as int, pv.len() as int),
                    vv.subrange(k as int, vv.len() as int),
                    local@,
                ),
            decreases self.params@.len() - k,
        {
            let ghost psub = pv.subrange(k as int, pv.len() as int);
            let ghost vsub = vv.subrange(k as int, vv.len() as int);
            proof {
                assert(psub.first() == pv[k as int]);
                assert(vsub.first() == vv[k as int]);
                assert(pv[k as int] == self.params@[k as int]@);
                assert(vv[k as int] == vals@[k as int]@);
                assert(psub.drop_first() =~= pv.subrange(k + 1, pv.len() as int));
                assert(vsub.drop_first() =~= vv.subrange(k + 1, vv.len() as int));
            }
            local.insert(self.params[k].clone(), vals[k].clone());
            k += 1;
        }
        proof {
            assert(pv.subrange(pv.len() as int, pv.len() as int) =~= Seq::<Seq<char>>::empty());
            assert(local@ == bind_params(pv, vv, env_args));
        }
        let rb = eval_node(&self.body, &mut local, fuel - 1);
        rb
    }

    /// Packs parameter names and a body into a function value.
    pub fn new(params: Vec<String>, body: AstNode) -> (r: FnDef)
        ensures
            r@ == (FnDefV { params: params.deep_view(), body: body@ }),
    {
        FnDef { params, body }
    }
}

} // verus!
