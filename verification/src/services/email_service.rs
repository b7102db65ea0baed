//! Figures about the stored records.

use vstd::prelude::*;

verus! {

/// A name with the number of records that bear it.
#[derive(Debug, Clone, PartialEq, Eq)]
pub struct NamedCount {
    pub name: String,
    pub count: usize,
}

/// How many records there are: in all, read and unread, marked as
/// important, and in each category.
#[derive(Debug, Clone)]
pub struct EmailStatistics {
    pub total_count: usize,
    pub read_count: usize,
    pub unread_count: usize,
    pub important_count: usize,
    pub category_counts: Vec<NamedCount>,
}

impl EmailStatistics {
    /// The statistics for the given counts. The records that are not unread
    /// are read.
    pub fn from_counts(
        total_count: usize,
        unread_count: usize,
        important_count: usize,
        category_counts: Vec<NamedCount>,
    ) -> (stats: EmailStatistics)
        requires
            unread_count <= total_count,
        ensures
            stats.total_count == total_count,
            stats.unread_count == unread_count,
            stats.read_count == total_count - unread_count,
            stats.important_count == important_count,
            stats.category_counts == category_counts,
    {
        EmailStatistics {
            total_count,
            read_count: total_count - unread_count,
            unread_count,
            important_count,
            category_counts,
        }
    }
}

} // verus!
