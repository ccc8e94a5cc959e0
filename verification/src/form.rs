//! Visual shape handles.

use vstd::prelude::*;

verus! {

/// An opaque handle on a visual shape. The engine stores it and hands it
/// back with the render data; it never looks inside.
#[derive(Clone, Copy, Debug)]
pub struct Form {
    pub id: &'static str,
}

impl Form {
    /// The shape a slot carries until a spawn gives it another.
    pub fn sphere() -> (f: Form)
        ensures
            f == (Form { id: "sphere" }),
    {
        Form { id: "sphere" }
    }

    /// The handle's identifier.
    pub fn id(&self) -> (r: &'static str)
        ensures
            r == self.id,
    {
        self.id
    }
}

} // verus!
