use vstd::prelude::*;

verus! {

/// A native special form, named by its identifier.  Two builtins are equal
/// exactly when their identifiers are; the operation itself is chosen from
/// the identifier at call time.
#[derive(Debug, PartialEq)]
pub struct Builtin {
    pub id: String,
}

impl View for Builtin {
    type V = Seq<char>;

    open spec fn view(&self) -> Seq<char> {
        self.id@
    }
}

impl Clone for Builtin {
    fn clone(&self) -> (res: Self)
        ensures
            res@ == self@,
    {
        Builtin { id: self.id.clone() }
    }
}

} // verus!
