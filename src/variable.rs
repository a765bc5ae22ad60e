use vstd::prelude::*;

verus! {

/// A kind of value with a name.
pub trait Type {
    fn get_name(&self) -> &'static str;
}

impl Type for u32 {
    fn get_name(&self) -> &'static str {
        "unsigned"
    }
}

} // verus!
