use vstd::prelude::*;

verus! {

/// Model of a primitive value.  A float is modelled by the text of its
/// literal; two floats are the same value when their literals are the same
/// text.
#[verifier::ext_equal]
pub enum PrimV {
    I(i32),
    F(Seq<char>),
    B(bool),
}

/// A primitive literal value: a 32-bit integer, a floating-point literal
/// kept as its source text, or a boolean.
#[derive(Debug, PartialEq)]
pub enum Primitive {
    I(i32),
    F(String),
    B(bool),
}

impl View for Primitive {
    type V = PrimV;

    open spec fn view(&self) -> PrimV {
        match self {
            Primitive::I(i) => PrimV::I(*i),
            Primitive::F(s) => PrimV::F(s@),
            Primitive::B(b) => PrimV::B(*b),
        }
    }
}

impl Clone for Primitive {
    fn clone(&self) -> (res: Self)
        ensures
            res@ == self@,
    {
        match self {
            Primitive::I(i) => Primitive::I(*i),
            Primitive::F(s) => Primitive::F(s.clone()),
            Primitive::B(b) => Primitive::B(*b),
        }
    }
}

/// Structural equality of two primitives: same kind and same value, with
/// floats compared by their literal text.
pub fn prim_eq(a: &Primitive, b: &Primitive) -> (r: bool)
    ensures
        r == (a@ == b@),
{
    match (a, b) {
        (Primitive::I(x), Primitive::I(y)) => *x == *y,
        (Primitive::F(x), Primitive::F(y)) => *x == *y,
        (Primitive::B(x), Primitive::B(y)) => *x == *y,
        _ => false,
    }
}

} // verus!
