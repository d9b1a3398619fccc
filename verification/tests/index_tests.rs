use time_chunk_index::chunk::TimeChunk;
use time_chunk_index::config::{Config, IndexType};
use time_chunk_index::entry::{index_at, index_entry, TimestampedEntry};
use time_chunk_index::errors::IndexError;
use time_chunk_index::get_current_index;
use time_chunk_index::get_indexes_between;
use time_chunk_index::get_most_recent_indexes;
use time_chunk_index::links::direct_links;
use time_chunk_index::store::Store;
use time_chunk_index::tree::{
    path_for_timestamp, paths_equal, timestamp_for_path, truncate_boundaries, PathComp,
};

const INTERVAL: u64 = 100_000; // one chunk spans 100 seconds
const NOW: u64 = 10_000_000; // a "current time" past every chunk used below

fn config() -> Config {
    Config::new(INTERVAL, 2, 5).unwrap()
}

fn store_with_genesis() -> Store {
    let mut store = Store::new(config());
    let genesis = TimeChunk { from: 0, until: INTERVAL };
    assert_eq!(genesis.create_chunk(&mut store, true, NOW), Ok(()));
    store
}

#[test]
fn config_rejects_unusable_limits() {
    assert!(Config::new(0, 2, 5).is_none());
    assert!(Config::new(100, 0, 5).is_none());
    assert!(Config::new(100, 6, 5).is_none());
    assert!(Config::new(100, 2, 2).is_some());
}

#[test]
fn index_depth_follows_interval_magnitude() {
    assert_eq!(Config::new(500, 1, 1).unwrap().index_depth().len(), 6);
    assert_eq!(Config::new(30_000, 1, 1).unwrap().index_depth().len(), 5);
    assert_eq!(Config::new(1_800_000, 1, 1).unwrap().index_depth().len(), 4);
    assert_eq!(Config::new(7_200_000, 1, 1).unwrap().index_depth().len(), 3);
    let levels = config().index_depth();
    assert_eq!(
        levels,
        vec![IndexType::Year, IndexType::Month, IndexType::Day, IndexType::Hour]
    );
}

#[test]
fn path_for_known_instant() {
    // 1_000_000_000 seconds after the epoch is 2001-09-09 01:46:40 UTC.
    let cfg = config();
    let p = path_for_timestamp(&cfg, 1_000_000_000_000);
    assert_eq!(
        p,
        vec![
            PathComp::Year(2001),
            PathComp::Month(9),
            PathComp::Day(9),
            PathComp::Hour(1),
        ]
    );
}

#[test]
fn truncation_matches_reversed_path_prefixes() {
    let cfg = config();
    let ts: u64 = 1_000_000_000_000;
    let p = path_for_timestamp(&cfg, ts);
    let expected: [(IndexType, u64); 4] = [
        (IndexType::Year, 978_307_200_000),
        (IndexType::Month, 999_302_400_000),
        (IndexType::Day, 999_993_600_000),
        (IndexType::Hour, 999_997_200_000),
    ];
    for (k, (level, boundary)) in expected.iter().enumerate() {
        let (tf, tu) = truncate_boundaries(&cfg, ts, ts, *level).unwrap();
        assert_eq!(tf, *boundary);
        assert_eq!(tu, *boundary);
        let prefix: Vec<PathComp> = p[..k + 1].to_vec();
        assert_eq!(timestamp_for_path(&cfg, &prefix), Some(*boundary));
    }
    // Levels finer than the interval are not materialized.
    assert_eq!(truncate_boundaries(&cfg, ts, ts, IndexType::Minute), None);
    assert_eq!(truncate_boundaries(&cfg, ts, ts, IndexType::Second), None);
}

#[test]
fn reversing_rejects_paths_the_tree_cannot_hold() {
    let cfg = config();
    assert_eq!(timestamp_for_path(&cfg, &vec![]), None);
    assert_eq!(
        timestamp_for_path(&cfg, &vec![PathComp::Year(1970), PathComp::Month(13)]),
        None
    );
    assert_eq!(
        timestamp_for_path(
            &cfg,
            &vec![PathComp::Year(2001), PathComp::Month(2), PathComp::Day(30)]
        ),
        None
    );
    assert_eq!(
        timestamp_for_path(
            &cfg,
            &vec![PathComp::Year(2001), PathComp::Month(2), PathComp::Day(28)]
        ),
        Some(983_318_400_000)
    );
}

#[test]
fn genesis_scenario_alignment() {
    // A dataset with 100-second chunks anchored at zero: a chunk starting at
    // 250 seconds is off the grid and rejected, one at 300 seconds lands on
    // it and is accepted.
    let mut store = store_with_genesis();
    let misaligned = TimeChunk { from: 250_000, until: 350_000 };
    assert_eq!(
        misaligned.create_chunk(&mut store, false, NOW),
        Err(IndexError::Validation)
    );
    let aligned = TimeChunk { from: 300_000, until: 400_000 };
    assert_eq!(aligned.create_chunk(&mut store, false, NOW), Ok(()));
}

#[test]
fn chunk_must_not_start_in_the_future() {
    let mut store = store_with_genesis();
    let future = TimeChunk { from: NOW + INTERVAL, until: NOW + 2 * INTERVAL };
    assert_eq!(
        future.create_chunk(&mut store, false, NOW + INTERVAL - 1),
        Err(IndexError::Validation)
    );
}

#[test]
fn chunk_width_must_equal_interval() {
    let mut store = store_with_genesis();
    let narrow = TimeChunk { from: 300_000, until: 350_000 };
    assert_eq!(
        narrow.create_chunk(&mut store, false, NOW),
        Err(IndexError::Validation)
    );
    let inverted = TimeChunk { from: 300_000, until: 200_000 };
    assert_eq!(
        inverted.create_chunk(&mut store, false, NOW),
        Err(IndexError::Validation)
    );
}

#[test]
fn chunk_creation_is_idempotent() {
    let mut store = store_with_genesis();
    let c = TimeChunk { from: 300_000, until: 400_000 };
    assert_eq!(c.create_chunk(&mut store, false, NOW), Ok(()));
    let before = get_indexes_between(&store, 0, 500_000, None).unwrap().len();
    assert_eq!(c.create_chunk(&mut store, false, NOW), Ok(()));
    let after = get_indexes_between(&store, 0, 500_000, None).unwrap().len();
    assert_eq!(before, after);
    // Re-committing the genesis chunk is a no-op too.
    let genesis = TimeChunk { from: 0, until: INTERVAL };
    assert_eq!(genesis.create_chunk(&mut store, true, NOW), Ok(()));
    assert_eq!(
        get_indexes_between(&store, 0, 500_000, None).unwrap().len(),
        after
    );
}

#[test]
fn second_genesis_with_other_bounds_is_rejected() {
    let mut store = store_with_genesis();
    let other = TimeChunk { from: 100_000, until: 200_000 };
    assert_eq!(
        other.create_chunk(&mut store, true, NOW),
        Err(IndexError::Validation)
    );
}

#[test]
fn non_genesis_needs_genesis_first() {
    let mut store = Store::new(config());
    let c = TimeChunk { from: 0, until: INTERVAL };
    assert_eq!(
        c.create_chunk(&mut store, false, NOW),
        Err(IndexError::Validation)
    );
}

#[test]
fn validate_chunk_replays_creation_rules() {
    let mut store = Store::new(config());
    let genesis = TimeChunk { from: 0, until: INTERVAL };
    // Validation demands a stored genesis, even for the genesis chunk.
    assert_eq!(
        genesis.validate_chunk(&store, NOW),
        Err(IndexError::Validation)
    );
    genesis.create_chunk(&mut store, true, NOW).unwrap();
    assert_eq!(genesis.validate_chunk(&store, NOW), Ok(()));
    let aligned = TimeChunk { from: 300_000, until: 400_000 };
    assert_eq!(aligned.validate_chunk(&store, NOW), Ok(()));
    let misaligned = TimeChunk { from: 250_000, until: 350_000 };
    assert_eq!(
        misaligned.validate_chunk(&store, NOW),
        Err(IndexError::Validation)
    );
    assert_eq!(
        aligned.validate_chunk(&store, 250_000),
        Err(IndexError::Validation)
    );
}

#[test]
fn previous_chunk_is_found_by_identity() {
    let mut store = store_with_genesis();
    let c = TimeChunk { from: 300_000, until: 400_000 };
    c.create_chunk(&mut store, false, NOW).unwrap();
    // Three whole intervals back sits the genesis chunk.
    assert_eq!(
        c.get_previous_chunk(&store, 3),
        Some(TimeChunk { from: 0, until: INTERVAL })
    );
    // One interval back nothing was ever committed.
    assert_eq!(c.get_previous_chunk(&store, 1), None);
    // Before the epoch nothing can exist.
    assert_eq!(c.get_previous_chunk(&store, 4), None);
}

#[test]
fn spam_limited_attachment_scenario() {
    // Two direct links per author, five links in total: links one and two
    // land on the chunk, three through five chain, the sixth is rejected.
    let mut store = Store::new(Config::new(INTERVAL, 2, 5).unwrap());
    let chunk = TimeChunk { from: 0, until: INTERVAL };
    chunk.create_chunk(&mut store, true, NOW).unwrap();
    let author = 7;
    for t in 1u64..=5 {
        assert_eq!(chunk.add_link(&mut store, 100 + t, 1, author), Ok(()));
    }
    assert_eq!(
        chunk.add_link(&mut store, 106, 1, author),
        Err(IndexError::Validation)
    );
    // Only the first two are direct; all five are reachable.
    assert_eq!(direct_links(&store, &chunk, None), vec![101, 102]);
    assert_eq!(
        chunk.get_links(&store, 100),
        vec![101, 102, 103, 104, 105]
    );
}

#[test]
fn links_keep_per_author_budgets_apart() {
    let mut store = Store::new(Config::new(INTERVAL, 1, 3).unwrap());
    let chunk = TimeChunk { from: 0, until: INTERVAL };
    chunk.create_chunk(&mut store, true, NOW).unwrap();
    for author in [1u64, 2, 3] {
        assert_eq!(chunk.add_link(&mut store, 10 * author, 0, author), Ok(()));
        assert_eq!(chunk.add_link(&mut store, 10 * author + 1, 0, author), Ok(()));
    }
    // One direct link per author, the second chained; every target present.
    assert_eq!(direct_links(&store, &chunk, None), vec![10, 20, 30]);
    assert_eq!(
        chunk.get_links(&store, 100),
        vec![10, 20, 30, 11, 21, 31]
    );
}

#[test]
fn collected_links_are_deduplicated_and_truncated() {
    let mut store = Store::new(Config::new(INTERVAL, 1, 4).unwrap());
    let chunk = TimeChunk { from: 0, until: INTERVAL };
    chunk.create_chunk(&mut store, true, NOW).unwrap();
    let author = 1;
    chunk.add_link(&mut store, 50, 0, author).unwrap();
    chunk.add_link(&mut store, 60, 0, author).unwrap();
    chunk.add_link(&mut store, 50, 0, author).unwrap(); // repeat target
    chunk.add_link(&mut store, 70, 0, author).unwrap();
    assert_eq!(chunk.get_links(&store, 100), vec![50, 60, 70]);
    assert_eq!(chunk.get_links(&store, 2), vec![50, 60]);
    assert_eq!(chunk.get_links(&store, 0), Vec::<u64>::new());
}

#[test]
fn tagged_fetch_filters_direct_links() {
    let mut store = store_with_genesis();
    let chunk = TimeChunk { from: 0, until: INTERVAL };
    chunk.add_link(&mut store, 101, 1, 1).unwrap();
    chunk.add_link(&mut store, 102, 2, 1).unwrap();
    assert_eq!(direct_links(&store, &chunk, Some(1)), vec![101]);
    assert_eq!(direct_links(&store, &chunk, Some(2)), vec![102]);
    assert_eq!(direct_links(&store, &chunk, Some(3)), Vec::<u64>::new());
    assert_eq!(direct_links(&store, &chunk, None), vec![101, 102]);
}

#[test]
fn narrow_window_is_rejected_for_any_inputs() {
    let store = store_with_genesis();
    assert!(matches!(
        get_indexes_between(&store, 0, INTERVAL - 1, None),
        Err(IndexError::Range)
    ));
    assert!(matches!(
        get_indexes_between(&store, 500_000, 500_000, None),
        Err(IndexError::Range)
    ));
    // An inverted window is narrower still.
    assert!(matches!(
        get_indexes_between(&store, 500_000, 400_000, None),
        Err(IndexError::Range)
    ));
}

#[test]
fn window_walk_collects_committed_chunks() {
    let mut store = store_with_genesis();
    let c2 = TimeChunk { from: 300_000, until: 400_000 };
    c2.create_chunk(&mut store, false, NOW).unwrap();
    let chunk = TimeChunk { from: 0, until: INTERVAL };
    chunk.add_link(&mut store, 42, 1, 1).unwrap();
    let found = get_indexes_between(&store, 0, 500_000, None).unwrap();
    let bounds: Vec<(u64, u64)> = found.iter().map(|e| e.index.hash()).collect();
    assert!(bounds.contains(&(0, INTERVAL)));
    assert!(bounds.contains(&(300_000, 400_000)));
    let genesis_entry = found.iter().find(|e| e.index.from == 0).unwrap();
    assert_eq!(genesis_entry.links, vec![42]);
}

#[test]
fn current_index_reads_only_the_current_leaf() {
    let mut store = store_with_genesis();
    // The genesis chunk sits in hour zero of 1970-01-01; a current time in
    // the same hour finds it.
    let current = get_current_index(&store, 50_000, None).unwrap();
    assert_eq!(current.index, TimeChunk { from: 0, until: INTERVAL });
    // A current time one hour later looks at an empty leaf.
    assert!(get_current_index(&store, 3_600_000, None).is_none());
    // Even though another chunk exists elsewhere in the tree.
    let far = TimeChunk { from: 7_200_000, until: 7_300_000 };
    far.create_chunk(&mut store, false, NOW).unwrap();
    assert!(get_current_index(&store, 3_600_000, None).is_none());
}

#[test]
fn most_recent_index_walks_the_newest_path() {
    let mut store = Store::new(config());
    assert!(get_most_recent_indexes(&store, None).is_none());
    let genesis = TimeChunk { from: 0, until: INTERVAL };
    genesis.create_chunk(&mut store, true, 1_000_000).unwrap();
    // A chunk one hour later hangs under a newer hour node.
    let later = TimeChunk { from: 3_600_000, until: 3_700_000 };
    later.create_chunk(&mut store, false, 4_000_000).unwrap();
    let recent = get_most_recent_indexes(&store, None).unwrap();
    assert_eq!(recent.index, later);
}

#[test]
fn newest_child_is_selected_by_component_value() {
    let mut store = store_with_genesis();
    let later = TimeChunk { from: 3_600_000, until: 3_700_000 };
    later.create_chunk(&mut store, false, NOW).unwrap();
    let day = vec![PathComp::Year(1970), PathComp::Month(1), PathComp::Day(1)];
    let kids = store.children_paths(&day);
    assert_eq!(kids.len(), 2);
    let newest = store.find_newest_child(&day, IndexType::Hour).unwrap();
    let expected = vec![
        PathComp::Year(1970),
        PathComp::Month(1),
        PathComp::Day(1),
        PathComp::Hour(1),
    ];
    assert!(paths_equal(&newest, &expected));
}

#[test]
fn missing_children_report_not_found() {
    let store = Store::new(config());
    let root: Vec<PathComp> = vec![];
    assert_eq!(
        store.find_newest_child(&root, IndexType::Year),
        Err(IndexError::NotFound)
    );
}

#[test]
fn unmaterialized_level_returns_path_unchanged() {
    let store = store_with_genesis();
    let hour = vec![
        PathComp::Year(1970),
        PathComp::Month(1),
        PathComp::Day(1),
        PathComp::Hour(0),
    ];
    // Minute nodes do not exist for a 100-second interval: nothing deeper
    // to search, the path itself comes back.
    let r = store.find_newest_child(&hour, IndexType::Minute).unwrap();
    assert!(paths_equal(&r, &hour));
}

#[test]
fn indexing_an_entry_files_it_under_its_chunk() {
    let mut store = store_with_genesis();
    let payload = TimestampedEntry { time: 250_000, addr: 777 };
    assert_eq!(index_entry(&mut store, &payload, 5, 9, NOW), Ok(()));
    // The owning chunk [200_000, 300_000) was created on demand.
    let owning = TimeChunk { from: 200_000, until: 300_000 };
    assert_eq!(owning.get_links(&store, 10), vec![777]);
    assert_eq!(direct_links(&store, &owning, Some(5)), vec![777]);
}

#[test]
fn indexing_without_genesis_fails() {
    let mut store = Store::new(config());
    assert_eq!(
        index_at(&mut store, 250_000, 777, 5, 9, NOW),
        Err(IndexError::Validation)
    );
}

#[test]
fn instant_beyond_calendar_range_is_rejected() {
    let mut store = store_with_genesis();
    let payload = TimestampedEntry { time: u64::MAX, addr: 1 };
    assert_eq!(
        index_entry(&mut store, &payload, 0, 1, NOW),
        Err(IndexError::Validation)
    );
}

#[test]
fn error_descriptions_name_the_failure() {
    assert_eq!(IndexError::Validation.describe(), "validation rule violated");
    assert_eq!(
        IndexError::Range.describe(),
        "time frame is smaller than the chunk interval"
    );
    assert_eq!(IndexError::NotFound.describe(), "no entries found below path");
}

#[test]
fn chunk_hash_is_its_bounds() {
    let c = TimeChunk { from: 300_000, until: 400_000 };
    assert_eq!(c.hash(), (300_000, 400_000));
}
