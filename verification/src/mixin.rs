//! A named value, the example of the mix-in pattern.
use vstd::prelude::*;

verus! {

/// A value with a name.
pub struct MyStruct {
    pub name: String,
}

impl MyStruct {
    /// The name.
    pub fn name(&self) -> (n: &str)
        ensures
            n@ == self.name@,
    {
        self.name.as_str()
    }
}

} // verus!
