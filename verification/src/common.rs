//! Small shared helpers: monotonicity of a date array.

use vstd::prelude::*;

verus! {

/// What `is_sorted_array` decides: the array runs monotonically in one
/// direction, where the direction is taken from the first pair and every later
/// adjacent pair must agree with it under the strict `>` test.
pub open spec fn spec_is_sorted(data: Seq<i32>) -> bool {
    &&& data.len() >= 2
    &&& forall|i: int|
        2 <= i < data.len() ==> (((#[trigger] data[i]) > data[i - 1]) == (data[1] > data[0]))
}

/// True when the array is consistently monotonic: ascending if the first pair
/// rises, otherwise never rising. Arrays shorter than two elements are refused.
pub fn is_sorted_array(data: &[i32]) -> (r: bool)
    ensures
        r == spec_is_sorted(data@),
{
    if data.len() < 2 {
        return false;
    }
    let is_asc = data[1] > data[0];
    let mut i: usize = 2;
    while i < data.len()
        invariant
            2 <= i <= data.len(),
            data@.len() >= 2,
            is_asc == (data@[1] > data@[0]),
            forall|j: int| 2 <= j < i ==> (((#[trigger] data@[j]) > data@[j - 1]) == is_asc),
        decreases data.len() - i,
    {
        if (data[i] > data[i - 1]) != is_asc {
            return false;
        }
        i = i + 1;
    }
    true
}

} // verus!
