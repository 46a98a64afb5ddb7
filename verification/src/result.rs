use vstd::prelude::*;
use crate::ast::ast_eq;
use crate::builtin::Builtin;
use crate::primitive::{prim_eq, PrimV, Primitive};
use crate::userfunc::{FnDef, FnDefV};

verus! {

/// Model of a value: a primitive, a builtin named by its identifier, or a
/// user-defined function.
#[verifier::ext_equal]
pub enum ValueV {
    Primitive(PrimV),
    Builtin(Seq<char>),
    FnDef(FnDefV),
}

/// Everything an evaluation can produce: a primitive literal, a reference
/// to a builtin special form, or a user-defined function.
#[derive(Debug, PartialEq)]
pub enum Result {
    Primitive(Primitive),
    Builtin(Builtin),
    FnDef(FnDef),
}

impl View for Result {
    type V = ValueV;

    open spec fn view(&self) -> ValueV {
        match self {
            Result::Primitive(p) => ValueV::Primitive(p@),
            Result::Builtin(b) => ValueV::Builtin(b@),
            Result::FnDef(f) => ValueV::FnDef(f@),
        }
    }
}

impl DeepView for Result {
    type V = ValueV;

    open spec fn deep_view(&self) -> ValueV {
        self.view()
    }
}

impl Clone for Result {
    fn clone(&self) -> (res: Self)
        ensures
            res@ == self@,
    {
        match self {
            Result::Primitive(p) => Result::Primitive(p.clone()),
            Result::Builtin(b) => Result::Builtin(b.clone()),
            Result::FnDef(f) => Result::FnDef(f.clone()),
        }
    }
}

fn fn_def_eq(x: &FnDef, y: &FnDef) -> (r: bool)
    ensures
        r == (x@ == y@),
{
    if x.params.len() != y.params.len() {
        proof {
            assert(x.params.deep_view().len() == x.params@.len());
            assert(y.params.deep_view().len() == y.params@.len());
        }
        return false;
    }
    let mut i: usize = 0;
    while i < x.params.len()
        invariant
            i <= x.params.len(),
            x.params@.len() == y.params@.len(),
            forall|j: int| 0 <= j < i ==> #[trigger] x.params@[j]@ == y.params@[j]@,
        decreases x.params@.len() - i,
    {
        if !(x.params[i] == y.params[i]) {
            proof {
                assert(x.params.deep_view()[i as int] != y.params.deep_view()[i as int]);
            }
            return false;
        }
        i += 1;
    }
    proof {
        assert(x.params.deep_view() =~= y.params.deep_view());
    }
    let be = ast_eq(&x.body, &y.body);
    proof {
        if be {
            assert(x@ =~= y@);
        }
    }
    be
}

/// Full structural equality of two values: primitives by kind and value,
/// builtins by identifier, functions by parameter names and body.
pub fn value_eq(a: &Result, b: &Result) -> (r: bool)
    ensures
        r == (a@ == b@),
{
    match (a, b) {
        (Result::Primitive(x), Result::Primitive(y)) => prim_eq(x, y),
        (Result::Builtin(x), Result::Builtin(y)) => x.id == y.id,
        (Result::FnDef(x), Result::FnDef(y)) => fn_def_eq(x, y),
        _ => false,
    }
}

} // verus!
