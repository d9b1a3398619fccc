use vstd::prelude::*;

use crate::civil::{
    civil_from_unix, civil_of, date_valid, unix_from_civil, unix_of_civil, MAX_INDEXABLE_MS,
};
use crate::config::{level_at, level_index, Config, IndexType};

verus! {

/// One typed numeric component of a time path, e.g. `Year(2021)`.
#[derive(Clone, Copy, Debug, PartialEq, Eq, Structural)]
pub enum PathComp {
    Year(u32),
    Month(u32),
    Day(u32),
    Hour(u32),
    Minute(u32),
    Second(u32),
}

impl PathComp {
    /// The numeric value the component carries.
    pub open spec fn spec_value(self) -> int {
        match self {
            PathComp::Year(v) => v as int,
            PathComp::Month(v) => v as int,
            PathComp::Day(v) => v as int,
            PathComp::Hour(v) => v as int,
            PathComp::Minute(v) => v as int,
            PathComp::Second(v) => v as int,
        }
    }

    /// The numeric value the component carries.
    pub fn value(&self) -> (r: u32)
        ensures
            r as int == self.spec_value(),
    {
        match self {
            PathComp::Year(v) => *v,
            PathComp::Month(v) => *v,
            PathComp::Day(v) => *v,
            PathComp::Hour(v) => *v,
            PathComp::Minute(v) => *v,
            PathComp::Second(v) => *v,
        }
    }

    /// The level this component belongs to, together with the value range
    /// that level admits (years as indexed, months and days 1-based, clock
    /// fields 0-based).
    pub open spec fn matches_level(self, level: IndexType) -> bool {
        match self {
            PathComp::Year(v) => level == IndexType::Year && 1970 <= v <= 9999,
            PathComp::Month(v) => level == IndexType::Month && 1 <= v <= 12,
            PathComp::Day(v) => level == IndexType::Day && 1 <= v <= 31,
            PathComp::Hour(v) => level == IndexType::Hour && v < 24,
            PathComp::Minute(v) => level == IndexType::Minute && v < 60,
            PathComp::Second(v) => level == IndexType::Second && v < 60,
        }
    }
}

/// A path whose components are typed for their levels and in range.
pub open spec fn path_levels_ok(p: Seq<PathComp>) -> bool {
    &&& 1 <= p.len() <= 6
    &&& forall|i: int| 0 <= i < p.len() ==> (#[trigger] p[i]).matches_level(level_at(i))
}

/// A path of sound shape: non-empty, each component typed for its level and
/// in range, and the date part (when all three of year, month and day are
/// present) a real calendar date.
pub open spec fn wf_path_shape(p: Seq<PathComp>) -> bool {
    &&& path_levels_ok(p)
    &&& p.len() >= 3 ==> date_valid(p[0].spec_value(), p[1].spec_value(), p[2].spec_value())
}

/// A well-formed path for a configuration: sound shape, no deeper than the
/// configured depth.
pub open spec fn wf_path(cfg: Config, p: Seq<PathComp>) -> bool {
    &&& wf_path_shape(p)
    &&& p.len() <= cfg.spec_depth()
}

/// Path order: `a` names a period no newer than `b` — the same node, or
/// smaller at the first component where the two differ.
pub open spec fn path_le(a: Seq<PathComp>, b: Seq<PathComp>) -> bool {
    a == b || (exists|i: int|
        0 <= i < a.len() && i < b.len() && (#[trigger] a[i]).spec_value() < b[i].spec_value()
            && (forall|j: int| 0 <= j < i ==> a[j].spec_value() == b[j].spec_value()))
}

/// The civil tuple a path prefix of length `k` denotes: components beyond
/// the prefix default to the start of their period (month and day to 1, the
/// clock fields to 0).
pub open spec fn path_civil_at(p: Seq<PathComp>, k: int) -> (int, int, int, int, int, int) {
    (
        p[0].spec_value(),
        if k >= 2 { p[1].spec_value() } else { 1 },
        if k >= 3 { p[2].spec_value() } else { 1 },
        if k >= 4 { p[3].spec_value() } else { 0 },
        if k >= 5 { p[4].spec_value() } else { 0 },
        if k >= 6 { p[5].spec_value() } else { 0 },
    )
}

/// The path the index hangs a timestamp under: its civil decomposition,
/// truncated to the configured depth.
pub open spec fn spec_path_for_timestamp(cfg: Config, ts_ms: int) -> Seq<PathComp> {
    let c = civil_of(ts_ms / 1000);
    seq![
        PathComp::Year(c.0 as u32),
        PathComp::Month(c.1 as u32),
        PathComp::Day(c.2 as u32),
        PathComp::Hour(c.3 as u32),
        PathComp::Minute(c.4 as u32),
        PathComp::Second(c.5 as u32),
    ].take(cfg.spec_depth())
}

/// The start, in milliseconds, of the period that `ts_ms` falls in at
/// `level`: the boundary a path prefix down to that level denotes.
pub open spec fn spec_truncate(cfg: Config, ts_ms: int, level: IndexType) -> int {
    spec_path_ts(spec_path_for_timestamp(cfg, ts_ms), 1 + level_index(level))
}

/// The millisecond timestamp at which the period of a path prefix of length
/// `k` begins.
pub open spec fn spec_path_ts(p: Seq<PathComp>, k: int) -> int {
    let c = path_civil_at(p, k);
    unix_of_civil(c.0, c.1, c.2, c.3, c.4, c.5) * 1000
}

/// Maps a timestamp to its path in the depth-pruned time hierarchy. Levels
/// excluded by the configuration are omitted entirely, not defaulted.
pub fn path_for_timestamp(cfg: &Config, ts_ms: u64) -> (r: Vec<PathComp>)
    requires
        cfg.wf(),
        ts_ms <= MAX_INDEXABLE_MS,
    ensures
        r@ == spec_path_for_timestamp(*cfg, ts_ms as int),
        wf_path(*cfg, r@),
        r@.len() == cfg.spec_depth(),
{
    proof {
        vstd::arithmetic::div_mod::lemma_div_is_ordered(
            ts_ms as int,
            MAX_INDEXABLE_MS as int,
            1000,
        );
    }
    let secs: u64 = ts_ms / 1000;
    let c = civil_from_unix(secs);
    let mut p: Vec<PathComp> = Vec::new();
    p.push(PathComp::Year(c.0));
    p.push(PathComp::Month(c.1));
    p.push(PathComp::Day(c.2));
    if cfg.max_chunk_interval < 3_600_000 {
        p.push(PathComp::Hour(c.3));
    }
    if cfg.max_chunk_interval < 60_000 {
        p.push(PathComp::Minute(c.4));
    }
    if cfg.max_chunk_interval < 1_000 {
        p.push(PathComp::Second(c.5));
    }
    proof {
        assert(p@ =~= spec_path_for_timestamp(*cfg, ts_ms as int));
    }
    p
}

/// The boundary timestamp of the length-`k` prefix of a well-formed path.
pub(crate) fn prefix_ts(p: &Vec<PathComp>, k: usize) -> (r: u64)
    requires
        wf_path_shape(p@),
        1 <= k <= p@.len(),
    ensures
        r as int == spec_path_ts(p@, k as int),
        r <= MAX_INDEXABLE_MS,
{
    let y = p[0].value();
    let mo = if k >= 2 { p[1].value() } else { 1 };
    let d = if k >= 3 { p[2].value() } else { 1 };
    let h = if k >= 4 { p[3].value() } else { 0 };
    let mi = if k >= 5 { p[4].value() } else { 0 };
    let s = if k >= 6 { p[5].value() } else { 0 };
    proof {
        assert(p@[0].matches_level(level_at(0)));
        if k >= 2 {
            assert(p@[1].matches_level(level_at(1)));
        }
        if k >= 3 {
            assert(p@[2].matches_level(level_at(2)));
        }
        if k >= 4 {
            assert(p@[3].matches_level(level_at(3)));
        }
        if k >= 5 {
            assert(p@[4].matches_level(level_at(4)));
        }
        if k >= 6 {
            assert(p@[5].matches_level(level_at(5)));
        }
    }
    let r = unix_from_civil(y, mo, d, h, mi, s);
    match r {
        Some(secs) => secs * 1000,
        None => {
            proof {
                assert(false);
            }
            0
        },
    }
}

/// Whether two paths name the same node.
pub fn paths_equal(a: &Vec<PathComp>, b: &Vec<PathComp>) -> (r: bool)
    ensures
        r <==> a@ == b@,
{
    if a.len() != b.len() {
        return false;
    }
    let mut i: usize = 0;
    while i < a.len()
        invariant
            a@.len() == b@.len(),
            i <= a@.len(),
            forall|j: int| 0 <= j < i ==> a@[j] == b@[j],
        decreases a@.len() - i,
    {
        if a[i] != b[i] {
            return false;
        }
        i += 1;
    }
    proof {
        assert(a@ =~= b@);
    }
    true
}

/// A fresh copy of a path.
pub fn copy_path(p: &Vec<PathComp>) -> (r: Vec<PathComp>)
    ensures
        r@ == p@,
{
    let mut out: Vec<PathComp> = Vec::new();
    let mut i: usize = 0;
    while i < p.len()
        invariant
            i <= p@.len(),
            out@ == p@.take(i as int),
        decreases p@.len() - i,
    {
        out.push(p[i]);
        proof {
            assert(out@ =~= p@.take(i + 1));
        }
        i += 1;
    }
    proof {
        assert(p@.take(p@.len() as int) =~= p@);
    }
    out
}

/// The first `k` components of a path, as a fresh node.
pub fn prefix_of(p: &Vec<PathComp>, k: usize) -> (r: Vec<PathComp>)
    requires
        k <= p@.len(),
    ensures
        r@ == p@.take(k as int),
{
    let mut out: Vec<PathComp> = Vec::new();
    let mut i: usize = 0;
    while i < k
        invariant
            i <= k <= p@.len(),
            out@ == p@.take(i as int),
        decreases k - i,
    {
        out.push(p[i]);
        proof {
            assert(out@ =~= p@.take(i + 1));
        }
        i += 1;
    }
    out
}

/// Whether `q` names a node one level below `p`.
pub fn is_child_of(q: &Vec<PathComp>, p: &Vec<PathComp>) -> (r: bool)
    ensures
        r <==> crate::store::path_extends(q@, p@),
{
    if q.len() == 0 || q.len() - 1 != p.len() {
        return false;
    }
    let pre = prefix_of(q, p.len());
    paths_equal(&pre, p)
}

/// Whether every prefix boundary of `p` falls inside the per-level window
/// `[lo[k-1], hi[k-1]]`.
pub(crate) fn path_in_bounds(p: &Vec<PathComp>, lo: &Vec<u64>, hi: &Vec<u64>) -> (r: bool)
    requires
        wf_path_shape(p@),
        p@.len() == lo@.len(),
        p@.len() == hi@.len(),
    ensures
        r <==> (forall|k: int|
            1 <= k <= p@.len() ==> lo@[k - 1] as int <= #[trigger] spec_path_ts(p@, k)
                && spec_path_ts(p@, k) <= hi@[k - 1] as int),
{
    let mut k: usize = 1;
    while k <= p.len()
        invariant
            1 <= k <= p@.len() + 1,
            wf_path_shape(p@),
            p@.len() == lo@.len(),
            p@.len() == hi@.len(),
            forall|x: int|
                1 <= x < k ==> lo@[x - 1] as int <= #[trigger] spec_path_ts(p@, x)
                    && spec_path_ts(p@, x) <= hi@[x - 1] as int,
        decreases p@.len() + 1 - k,
    {
        let t = prefix_ts(p, k);
        if t < lo[k - 1] || t > hi[k - 1] {
            return false;
        }
        k += 1;
    }
    true
}

/// A prefix of a path of sound shape keeps its shape, and stays within any
/// depth the full path was within.
pub proof fn lemma_wf_path_take(cfg: Config, p: Seq<PathComp>, k: int)
    requires
        wf_path(cfg, p),
        1 <= k <= p.len(),
    ensures
        wf_path(cfg, p.take(k)),
{
    assert forall|i: int| 0 <= i < k implies (#[trigger] p.take(k)[i]).matches_level(
        level_at(i),
    ) by {
        assert(p[i].matches_level(level_at(i)));
    }
    if k >= 3 {
        assert(p.take(k)[0] == p[0]);
        assert(p.take(k)[1] == p[1]);
        assert(p.take(k)[2] == p[2]);
    }
}

/// Whether `c` may stand at position `i` of a path.
fn comp_ok(c: &PathComp, i: usize) -> (r: bool)
    requires
        i < 6,
    ensures
        r == c.matches_level(level_at(i as int)),
{
    match c {
        PathComp::Year(v) => i == 0 && 1970 <= *v && *v <= 9999,
        PathComp::Month(v) => i == 1 && 1 <= *v && *v <= 12,
        PathComp::Day(v) => i == 2 && 1 <= *v && *v <= 31,
        PathComp::Hour(v) => i == 3 && *v < 24,
        PathComp::Minute(v) => i == 4 && *v < 60,
        PathComp::Second(v) => i == 5 && *v < 60,
    }
}

/// Reverses a path: the timestamp at which the period the path names
/// begins, with the omitted finer levels defaulted to the start of their
/// period. `None` exactly for a path that the tree could never hold — one
/// too deep for this configuration, typed or numbered out of range, or
/// naming no real calendar date.
pub fn timestamp_for_path(cfg: &Config, path: &Vec<PathComp>) -> (r: Option<u64>)
    requires
        cfg.wf(),
    ensures
        r is Some <==> wf_path(*cfg, path@),
        r is Some ==> r->0 as int == spec_path_ts(path@, path@.len() as int),
        r is Some ==> r->0 <= MAX_INDEXABLE_MS,
{
    let n = path.len();
    let depth = cfg.depth();
    if n == 0 || n > depth {
        return None;
    }
    let mut i: usize = 0;
    while i < n
        invariant
            i <= n,
            n == path@.len(),
            1 <= n <= 6,
            forall|j: int| 0 <= j < i ==> (#[trigger] path@[j]).matches_level(level_at(j)),
        decreases n - i,
    {
        if !comp_ok(&path[i], i) {
            return None;
        }
        i += 1;
    }
    let y = path[0].value();
    let mo = if n >= 2 {
        path[1].value()
    } else {
        1
    };
    let d = if n >= 3 {
        path[2].value()
    } else {
        1
    };
    let h = if n >= 4 {
        path[3].value()
    } else {
        0
    };
    let mi = if n >= 5 {
        path[4].value()
    } else {
        0
    };
    let s = if n >= 6 {
        path[5].value()
    } else {
        0
    };
    match unix_from_civil(y, mo, d, h, mi, s) {
        Some(secs) => Some(secs * 1000),
        None => None,
    }
}

/// The start-of-period boundaries of `from` and `until` at `level`, or
/// `None` when this configuration does not materialize that level —
/// callers skip such levels when building or walking paths.
pub fn truncate_boundaries(cfg: &Config, from: u64, until: u64, level: IndexType) -> (r: Option<
    (u64, u64),
>)
    requires
        cfg.wf(),
        from <= MAX_INDEXABLE_MS,
        until <= MAX_INDEXABLE_MS,
    ensures
        r is Some <==> cfg.spec_has_level(level),
        r is Some ==> (r->0).0 as int == spec_truncate(*cfg, from as int, level) && (r->0).1 as int
            == spec_truncate(*cfg, until as int, level),
{
    if !cfg.has_level(level) {
        return None;
    }
    let k: usize = match level {
        IndexType::Year => 1,
        IndexType::Month => 2,
        IndexType::Day => 3,
        IndexType::Hour => 4,
        IndexType::Minute => 5,
        IndexType::Second => 6,
    };
    proof {
        // The finer levels imply the coarser ones, so a materialized level
        // always lies within the configured depth.
        assert(cfg.spec_has_second() ==> cfg.spec_has_minute());
        assert(cfg.spec_has_minute() ==> cfg.spec_has_hour());
        assert(k as int == 1 + level_index(level));
        assert(k <= cfg.spec_depth());
    }
    let fp = path_for_timestamp(cfg, from);
    let up = path_for_timestamp(cfg, until);
    let tf = prefix_ts(&fp, k);
    let tu = prefix_ts(&up, k);
    Some((tf, tu))
}

/// Law: truncating a timestamp at any materialized level gives the same
/// boundary as building its path and reversing the prefix that reaches that
/// level — the tree's addresses and its period boundaries agree.
pub proof fn lemma_truncation_consistent(cfg: Config, ts_ms: int, level: IndexType)
    requires
        cfg.wf(),
        cfg.spec_has_level(level),
    ensures
        ({
            let p = spec_path_for_timestamp(cfg, ts_ms);
            let k = 1 + level_index(level);
            spec_truncate(cfg, ts_ms, level) == spec_path_ts(p.take(k), k)
        }),
{
    let p = spec_path_for_timestamp(cfg, ts_ms);
    let k = 1 + level_index(level);
    assert(k <= p.len());
    assert(path_civil_at(p.take(k), k) == path_civil_at(p, k));
}

} // verus!
