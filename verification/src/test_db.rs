//! A minimal record type with a known construction state.

use vstd::prelude::*;

verus! {

pub struct Test {
    pub arg1: String,
    pub arg2: usize,
}

impl Test {
    pub fn new() -> (r: Self)
        ensures
            r.arg1@ == "a string"@,
            r.arg2 == 0,
    {
        Self { arg1: "a string".to_owned(), arg2: 0 }
    }
}

} // verus!
