//! Paging of query results.

use vstd::prelude::*;

verus! {

/// A window over an ordered result set: at most `limit` rows, starting
/// `offset` rows in.
pub struct Page {
    pub limit: i64,
    pub offset: i64,
}

impl Page {
    /// The first page of `limit` rows.
    pub fn by<>(limit: i64) -> (page: Page)
        ensures
            page.limit == limit,
            page.offset == 0,
    {
        Page { limit, offset: 0 }
    }

    /// The page of the same size that starts `n` rows further on (or back,
    /// for a negative `n`).
    pub fn turn(&self, n: i64) -> (page: Page)
        requires
            i64::MIN <= self.offset + n <= i64::MAX,
        ensures
            page.limit == self.limit,
            page.offset == self.offset + n,
    {
        Page { limit: self.limit, offset: self.offset + n }
    }
}

} // verus!
