use vstd::prelude::*;

verus! {

/// The total of a sheet, kept apart from the sheet. The total that counts
/// is the one the sheet itself holds.
#[derive(Copy, Clone, Debug, PartialEq, Eq, Structural)]
pub struct CachedSheetValue {
    pub sheet_id: i32,
    pub value: i64,
}

impl CachedSheetValue {
    pub fn new(sheet_id: i32, value: i64) -> (cached: CachedSheetValue)
        ensures
            cached == (CachedSheetValue { sheet_id, value }),
    {
        CachedSheetValue { sheet_id, value }
    }
}

} // verus!
