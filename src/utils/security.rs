use vstd::prelude::*;

verus! {

/// Tells whether two strings hold the same characters.
pub fn compare_string(val1: &String, val2: &String) -> (r: bool)
    ensures
        r == (val1@ == val2@),
{
    *val1 == *val2
}

} // verus!
