use vstd::prelude::*;

verus! {

/// Settings of a database: how many tables it may hold and whether it may be
/// changed at all.
pub struct DatabaseConfig {
    pub max_tables: usize,
    pub read_only: bool,
}

impl DatabaseConfig {
    /// A configuration with the given limit and mode.
    pub fn new(max_tables: usize, read_only: bool) -> (r: Self)
        ensures
            r.max_tables == max_tables,
            r.read_only == read_only,
    {
        Self { max_tables, read_only }
    }
}

} // verus!
