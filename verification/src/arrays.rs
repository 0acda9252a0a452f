//! Arrays built element by element.
use vstd::prelude::*;

verus! {

/// `TryFrom<Vec<T>>` for `[T; N]` gives the elements of the vector, in order, if and only if there
/// are just `N` of them.
#[verifier::external_body]
pub(crate) fn array_from_vec<T, const N: usize>(elements: Vec<T>) -> (array: Option<[T; N]>)
    ensures
        array is Some <==> elements@.len() == N,
        array matches Some(a) ==> a@ == elements@,
{
    <[T; N]>::try_from(elements).ok()
}

} // verus!
