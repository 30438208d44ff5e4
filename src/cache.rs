//! Per-table attribute metadata shared by readers of the store.
use vstd::prelude::*;

verus! {

/// Schema metadata consulted before rows are decoded. It holds nothing yet:
/// column typing is fixed by the frame table's layout.
#[derive(Debug)]
pub struct SQLiteAttributeCache {}

impl SQLiteAttributeCache {
    /// An empty cache.
    pub fn new() -> (r: SQLiteAttributeCache)
        ensures
            r == (SQLiteAttributeCache {}),
    {
        SQLiteAttributeCache {}
    }
}

} // verus!
