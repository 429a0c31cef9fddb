use vstd::prelude::*;

verus! {

/// A client of the relational backend, which holds no connection yet.
pub struct Client {}

impl Client {
    pub fn new() -> Self {
        Client {}
    }
}

} // verus!
