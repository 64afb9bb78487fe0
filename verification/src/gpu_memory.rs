//! Choosing the Vulkan memory type for the texture shared between the engine (GL) and the UI
//! (Vulkan): the first memory type that the image accepts and that has all the wanted property
//! flags.

use vstd::prelude::*;

verus! {

/// Vulkan's cap on the number of memory types of a device.
pub const MAX_MEMORY_TYPES: usize = 32;

/// Whether memory type `i` is acceptable: its bit is set in `type_bits` and its property flags
/// contain all of `wanted`.
pub open spec fn memory_type_fits(type_flags: Seq<u32>, type_bits: u32, wanted: u32, i: int) -> bool {
    &&& type_bits & (1u32 << (i as u32)) != 0
    &&& type_flags[i] & wanted == wanted
}

/// The index of the first acceptable memory type among `type_flags` (the property flags of the
/// device's memory types, in order), or `None` when none is.
pub fn find_memory_type(type_flags: &[u32], type_bits: u32, wanted: u32) -> (found: Option<u32>)
    requires
        type_flags@.len() <= MAX_MEMORY_TYPES,
    ensures
        match found {
            Some(i) => {
                &&& i < type_flags@.len()
                &&& memory_type_fits(type_flags@, type_bits, wanted, i as int)
                &&& forall|j: int| 0 <= j < i ==> !memory_type_fits(type_flags@, type_bits, wanted, j)
            },
            None => forall|j: int| 0 <= j < type_flags@.len() ==> !memory_type_fits(type_flags@, type_bits, wanted, j),
        },
{
    let mut i: usize = 0;
    while i < type_flags.len()
        invariant
            i <= type_flags@.len() <= MAX_MEMORY_TYPES,
            forall|j: int| 0 <= j < i ==> !memory_type_fits(type_flags@, type_bits, wanted, j),
        decreases type_flags@.len() - i,
    {
        let bit = 1u32 << (i as u32);
        if type_bits & bit != 0 && type_flags[i] & wanted == wanted {
            return Some(i as u32);
        }
        i = i + 1;
    }
    None
}

} // verus!
