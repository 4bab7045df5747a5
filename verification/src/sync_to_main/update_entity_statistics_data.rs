//! The producer-facing record of which statistics facets changed for a
//! partition or row.
//!
//! Expiration facets are tri-state: `None` means no change, `Some(None)`
//! clears the expiration ("never expires"), and `Some(Some(t))` sets it to
//! the instant `t` of unix microseconds.

use vstd::prelude::*;

verus! {

pub struct UpdateEntityStatisticsData {
    pub partition_last_read_moment: bool,
    pub row_last_read_moment: bool,
    pub partition_expiration_moment: Option<Option<i64>>,
    pub row_expiration_moment: Option<Option<i64>>,
}

impl UpdateEntityStatisticsData {
    /// A request with no facet set is a no-op and must not reach the queues.
    pub fn has_data_to_update(&self) -> (r: bool)
        ensures
            r == (self.partition_last_read_moment || self.row_last_read_moment
                || self.partition_expiration_moment is Some || self.row_expiration_moment
                is Some),
    {
        self.partition_last_read_moment || self.row_last_read_moment
            || self.partition_expiration_moment.is_some() || self.row_expiration_moment.is_some()
    }
}

impl Default for UpdateEntityStatisticsData {
    /// The empty request: no facet set.
    fn default() -> (r: Self)
        ensures
            !r.partition_last_read_moment,
            !r.row_last_read_moment,
            r.partition_expiration_moment is None,
            r.row_expiration_moment is None,
    {
        Self {
            partition_last_read_moment: false,
            row_last_read_moment: false,
            partition_expiration_moment: None,
            row_expiration_moment: None,
        }
    }
}

} // verus!
