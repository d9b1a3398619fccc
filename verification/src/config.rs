use vstd::prelude::*;

verus! {

/// One level of the time hierarchy, coarsest first.
#[derive(Clone, Copy, Debug, PartialEq, Eq, Structural)]
pub enum IndexType {
    Year,
    Month,
    Day,
    Hour,
    Minute,
    Second,
}

/// Network-wide constants, fixed for the lifetime of a dataset.
///
/// Every validator must run with the same values; changing them for a
/// populated dataset is a non-goal, so there is no mutation path.
#[derive(Clone, Copy, Debug, PartialEq, Eq, Structural)]
pub struct Config {
    /// Width of every chunk, in milliseconds.
    pub max_chunk_interval: u64,
    /// Largest number of direct links one author may place on one chunk.
    pub direct_chunk_link_limit: usize,
    /// Largest number of links (direct plus overflow) one author may place on
    /// one chunk.
    pub enforce_spam_limit: usize,
}

impl Config {
    /// A usable configuration: chunks have positive width and the direct
    /// budget is at least one and no larger than the total budget.
    pub open spec fn wf(self) -> bool {
        &&& self.max_chunk_interval > 0
        &&& 1 <= self.direct_chunk_link_limit
        &&& self.direct_chunk_link_limit <= self.enforce_spam_limit
    }

    /// Builds a configuration, rejecting one whose limits could never admit a
    /// link or whose chunks would be empty.
    pub fn new(
        max_chunk_interval: u64,
        direct_chunk_link_limit: usize,
        enforce_spam_limit: usize,
    ) -> (r: Option<Config>)
        ensures
            r is Some <==> (max_chunk_interval > 0 && 1 <= direct_chunk_link_limit
                && direct_chunk_link_limit <= enforce_spam_limit),
            r is Some ==> r->0 == (Config {
                max_chunk_interval,
                direct_chunk_link_limit,
                enforce_spam_limit,
            }) && r->0.wf(),
    {
        if max_chunk_interval > 0 && 1 <= direct_chunk_link_limit
            && direct_chunk_link_limit <= enforce_spam_limit {
            Some(Config { max_chunk_interval, direct_chunk_link_limit, enforce_spam_limit })
        } else {
            None
        }
    }

    /// Hour-level nodes are materialized only for intervals under one hour.
    pub open spec fn spec_has_hour(self) -> bool {
        self.max_chunk_interval < 3_600_000
    }

    /// Minute-level nodes are materialized only for intervals under one
    /// minute.
    pub open spec fn spec_has_minute(self) -> bool {
        self.max_chunk_interval < 60_000
    }

    /// Second-level nodes are materialized only for intervals under one
    /// second.
    pub open spec fn spec_has_second(self) -> bool {
        self.max_chunk_interval < 1_000
    }

    /// How many levels of the hierarchy are materialized: year, month and day
    /// always, the finer levels only when one chunk does not already span
    /// them.
    pub open spec fn spec_depth(self) -> int {
        3 + (if self.spec_has_hour() { 1int } else { 0 })
            + (if self.spec_has_minute() { 1int } else { 0 })
            + (if self.spec_has_second() { 1int } else { 0 })
    }

    /// Whether path nodes at `level` exist in this configuration's tree.
    pub open spec fn spec_has_level(self, level: IndexType) -> bool {
        match level {
            IndexType::Year => true,
            IndexType::Month => true,
            IndexType::Day => true,
            IndexType::Hour => self.spec_has_hour(),
            IndexType::Minute => self.spec_has_minute(),
            IndexType::Second => self.spec_has_second(),
        }
    }

    /// Whether path nodes at `level` exist in this configuration's tree.
    pub fn has_level(&self, level: IndexType) -> (r: bool)
        ensures
            r == self.spec_has_level(level),
    {
        match level {
            IndexType::Year => true,
            IndexType::Month => true,
            IndexType::Day => true,
            IndexType::Hour => self.max_chunk_interval < 3_600_000,
            IndexType::Minute => self.max_chunk_interval < 60_000,
            IndexType::Second => self.max_chunk_interval < 1_000,
        }
    }

    /// Number of materialized levels.
    pub fn depth(&self) -> (r: usize)
        ensures
            r == self.spec_depth(),
            3 <= r <= 6,
    {
        let mut d: usize = 3;
        if self.max_chunk_interval < 3_600_000 {
            d += 1;
        }
        if self.max_chunk_interval < 60_000 {
            d += 1;
        }
        if self.max_chunk_interval < 1_000 {
            d += 1;
        }
        d
    }

    /// The materialized levels, coarsest first.
    pub fn index_depth(&self) -> (r: Vec<IndexType>)
        ensures
            r@.len() == self.spec_depth(),
            forall|i: int| 0 <= i < r@.len() ==> r@[i] == level_at(i),
    {
        let mut levels: Vec<IndexType> = Vec::new();
        levels.push(IndexType::Year);
        levels.push(IndexType::Month);
        levels.push(IndexType::Day);
        if self.max_chunk_interval < 3_600_000 {
            levels.push(IndexType::Hour);
        }
        if self.max_chunk_interval < 60_000 {
            levels.push(IndexType::Minute);
        }
        if self.max_chunk_interval < 1_000 {
            levels.push(IndexType::Second);
        }
        levels
    }
}

/// The level that the component at position `i` of a path encodes.
pub open spec fn level_at(i: int) -> IndexType {
    if i == 0 {
        IndexType::Year
    } else if i == 1 {
        IndexType::Month
    } else if i == 2 {
        IndexType::Day
    } else if i == 3 {
        IndexType::Hour
    } else if i == 4 {
        IndexType::Minute
    } else {
        IndexType::Second
    }
}

/// Position in a path of the component that encodes `level`.
pub open spec fn level_index(level: IndexType) -> int {
    match level {
        IndexType::Year => 0,
        IndexType::Month => 1,
        IndexType::Day => 2,
        IndexType::Hour => 3,
        IndexType::Minute => 4,
        IndexType::Second => 5,
    }
}

} // verus!
