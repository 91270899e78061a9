//! Column headers of the region list format.

use vstd::prelude::*;

verus! {

/// The standard column names that may follow the three required columns
/// of a region line, in order.
pub open spec fn spec_bed_headers() -> Seq<Seq<char>> {
    seq![
        "name"@,
        "score"@,
        "strand"@,
        "thickStart"@,
        "thickEnd"@,
        "itemRgb"@,
        "blockCount"@,
        "blockSizes"@,
        "blockStarts"@,
    ]
}

/// The standard header names for the first `num_columns` metadata
/// columns; at most the nine standard names exist.
pub fn get_bed_headers(num_columns: usize) -> (r: Vec<&'static str>)
    ensures
        r@.len() == vstd::math::min(num_columns as int, 9),
        forall|i: int| 0 <= i < r@.len() ==> (#[trigger] r@[i])@ == spec_bed_headers()[i],
{
    let mut all: Vec<&'static str> = Vec::new();
    all.push("name");
    all.push("score");
    all.push("strand");
    all.push("thickStart");
    all.push("thickEnd");
    all.push("itemRgb");
    all.push("blockCount");
    all.push("blockSizes");
    all.push("blockStarts");
    if num_columns < 9 {
        all.truncate(num_columns);
    }
    proof {
        assert forall|i: int| 0 <= i < all@.len() implies (#[trigger] all@[i])@
            == spec_bed_headers()[i] by {
        }
    }
    all
}

} // verus!
