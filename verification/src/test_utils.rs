//! Columnar table construction: the reshaping step that turns a list of
//! per-entity attribute rows into the column-major table the enumerator
//! consumes.

use vstd::prelude::*;

verus! {

/// Transposes entity rows into attribute columns: column `k` of the
/// result holds attribute `k` of every row, in row order.
pub fn columns_from_rows<T: Copy>(rows: &Vec<Vec<T>>, width: usize) -> (cols: Vec<Vec<T>>)
    requires
        forall|r: int| 0 <= r < rows@.len() ==> (#[trigger] rows@[r])@.len() == width,
    ensures
        cols@.len() == width,
        forall|k: int| 0 <= k < width ==> (#[trigger] cols@[k])@.len() == rows@.len(),
        forall|k: int, r: int|
            0 <= k < width && 0 <= r < rows@.len() ==> (#[trigger] cols@[k]@[r]) == rows@[r]@[k],
{
    let mut cols: Vec<Vec<T>> = Vec::new();
    let mut k: usize = 0;
    while k < width
        invariant
            forall|r: int| 0 <= r < rows@.len() ==> (#[trigger] rows@[r])@.len() == width,
            k <= width,
            cols@.len() == k,
            forall|q: int| 0 <= q < k ==> (#[trigger] cols@[q])@.len() == rows@.len(),
            forall|q: int, r: int|
                0 <= q < k && 0 <= r < rows@.len() ==> (#[trigger] cols@[q]@[r]) == rows@[r]@[q],
        decreases width - k,
    {
        let mut colv: Vec<T> = Vec::new();
        let mut r: usize = 0;
        while r < rows.len()
            invariant
                forall|p: int| 0 <= p < rows@.len() ==> (#[trigger] rows@[p])@.len() == width,
                k < width,
                r <= rows@.len(),
                colv@.len() == r,
                forall|p: int| 0 <= p < r ==> colv@[p] == rows@[p]@[k as int],
            decreases rows@.len() - r,
        {
            colv.push(rows[r][k]);
            r = r + 1;
        }
        cols.push(colv);
        k = k + 1;
    }
    cols
}

} // verus!
