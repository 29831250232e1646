use vstd::prelude::*;

verus! {

/// Calls `Vec::try_reserve_exact` on `buffer`.
///
/// Trusted: the standard library documents that the call only changes the
/// capacity, never the contents, so `buffer` keeps its elements; whether the
/// allocator grants the request depends on the machine, so nothing is claimed
/// of the returned flag.
#[verifier::external_body]
pub(crate) fn try_reserve_exact<T>(buffer: &mut Vec<T>, additional: usize) -> (granted: bool)
    ensures
        final(buffer)@ == old(buffer)@,
{
    buffer.try_reserve_exact(additional).is_ok()
}

} // verus!
