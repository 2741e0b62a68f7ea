//! Sub-track rows of the AV timeline: a new clip goes on the lowest row
//! where it overlaps no clip in time.

use vstd::prelude::*;
use vstd::set_lib::{lemma_int_range, lemma_len_subset, set_int_range};

verus! {

/// Some clip on row `r` overlaps the new clip; `busy` lists the rows of the
/// overlapping clips.
pub open spec fn row_taken(busy: Seq<u32>, r: int) -> bool {
    exists|k: int| 0 <= k < busy.len() && busy[k] == r
}

/// Pigeonhole: `busy` cannot fill more rows than it has entries.
proof fn lemma_rows_bounded(busy: Seq<u32>, r: int)
    requires
        0 <= r,
        forall|k: int| 0 <= k < r ==> row_taken(busy, k),
    ensures
        r <= busy.len(),
{
    let ints = busy.map_values(|x: u32| x as int);
    let rows = ints.to_set();
    assert(set_int_range(0, r).subset_of(rows)) by {
        assert forall|k: int| #[trigger] set_int_range(0, r).contains(k) implies rows.contains(k) by {
            assert(row_taken(busy, k));
            let w = choose|w: int| 0 <= w < busy.len() && busy[w] == k;
            assert(ints[w] == k);
        }
    }
    ints.lemma_cardinality_of_set();
    lemma_int_range(0, r);
    vstd::seq_lib::seq_to_set_is_finite(ints);
    lemma_len_subset(set_int_range(0, r), rows);
}

/// The lowest row that no overlapping clip occupies.
pub fn lowest_free_row(busy: &Vec<u32>) -> (row: u32)
    requires
        busy@.len() < u32::MAX,
    ensures
        !row_taken(busy@, row as int),
        forall|r: int| 0 <= r < row ==> row_taken(busy@, r),
        row <= busy@.len(),
{
    let n = busy.len();
    let mut row: u32 = 0;
    loop
        invariant
            n == busy@.len(),
            n < u32::MAX,
            forall|r: int| 0 <= r < row ==> row_taken(busy@, r),
            row <= n,
        decreases n - row,
    {
        let mut k: usize = 0;
        let mut taken = false;
        while k < n
            invariant
                n == busy@.len(),
                k <= n,
                taken == (exists|w: int| 0 <= w < k && busy@[w] == row),
            decreases n - k,
        {
            if busy[k] == row {
                taken = true;
            }
            k = k + 1;
        }
        if !taken {
            return row;
        }
        proof {
            lemma_rows_bounded(busy@, row + 1);
        }
        row = row + 1;
    }
}

} // verus!
