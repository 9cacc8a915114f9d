//! The identifier of the syntax tree.

use vstd::prelude::*;

verus! {

/// An identifier: the name as it stands in the source text.
#[derive(Debug, PartialEq, Eq)]
pub struct IdExpr {
    pub value: String,
}

impl View for IdExpr {
    type V = Seq<char>;

    open spec fn view(&self) -> Seq<char> {
        self.value@
    }
}

impl DeepView for IdExpr {
    type V = Seq<char>;

    open spec fn deep_view(&self) -> Seq<char> {
        self@
    }
}

impl Clone for IdExpr {
    fn clone(&self) -> (r: Self)
        ensures
            r == *self,
    {
        IdExpr { value: self.value.clone() }
    }
}

} // verus!
