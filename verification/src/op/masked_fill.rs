use vstd::prelude::*;

use crate::tensor::Tensor;

verus! {

/// The elements of `data`, with `value` in place of each element whose
/// mask entry is set; the shape of `data` is kept.
pub fn masked_fill<T: Copy>(data: &Tensor<T>, mask: &Tensor<bool>, value: T) -> (r: Tensor<T>)
    requires
        mask.data@.len() == data.data@.len(),
    ensures
        r.shape@ == data.shape@,
        r.data@.len() == data.data@.len(),
        forall|i: int|
            0 <= i < r.data@.len() ==> #[trigger] r.data@[i] == if mask.data@[i] {
                value
            } else {
                data.data@[i]
            },
{
    let mut out: Vec<T> = Vec::new();
    let mut i: usize = 0;
    while i < data.data.len()
        invariant
            i <= data.data@.len(),
            mask.data@.len() == data.data@.len(),
            out@.len() == i,
            forall|q: int|
                0 <= q < i ==> #[trigger] out@[q] == if mask.data@[q] {
                    value
                } else {
                    data.data@[q]
                },
        decreases data.data@.len() - i,
    {
        if mask.data[i] {
            out.push(value);
        } else {
            out.push(data.data[i]);
        }
        i = i + 1;
    }
    Tensor { shape: vstd::slice::slice_to_vec(data.shape.as_slice()), data: out }
}

} // verus!
