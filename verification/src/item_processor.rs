//! The batch-processor capability: a per-type contract that transforms every
//! record of a batch in place, element by element.

use vstd::prelude::*;

verus! {

/// The batch-processor capability. A record type supplies one in-place
/// transformation over a whole batch; it rewrites each element on its own and
/// neither drops, adds nor reorders elements.
pub trait Process: View + Sized {
    /// What processing does to one record, stated over the record's view.
    spec fn process_item(v: Self::V) -> Self::V;

    /// Transform the whole batch in place: afterwards the batch holds exactly
    /// as many records, and the record at each position is the transform of
    /// the record that stood there.
    fn process(data: &mut Vec<Self>)
        ensures
            final(data)@.len() == old(data)@.len(),
            forall|i: int|
                0 <= i < old(data)@.len() ==> (#[trigger] final(data)@[i])@ == Self::process_item(
                    old(data)@[i]@,
                ),
    ;
}

/// A whole batch after processing: each element transformed in place.
pub open spec fn process_batch_spec<T: Process>(batch: Seq<T::V>) -> Seq<T::V> {
    batch.map_values(|v: T::V| T::process_item(v))
}

/// Processing a batch keeps every element present at its position, with only
/// its field values possibly changed: the count is unchanged and the element
/// at each position is the in-place transform of the element that was there.
pub proof fn lemma_processing_preserves_elements<T: Process>(batch: Seq<T::V>)
    ensures
        process_batch_spec::<T>(batch).len() == batch.len(),
        forall|i: int|
            0 <= i < batch.len() ==> process_batch_spec::<T>(batch)[i] == T::process_item(batch[i]),
{
}

} // verus!
