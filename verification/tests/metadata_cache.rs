use powerfs_fuse::entry::{CachedEntry, EntryState, HoldState, Now, Reliability};
use powerfs_fuse::meta_model::DentryLeaseStatus;
use powerfs_fuse::metadata_cache::MetadataCache;
use powerfs_fuse::names::NameMap;

const T0: Now = Now { mono_ms: 10_000, unix_secs: 1_700_000_000 };

fn at(ms: u64) -> Now {
    Now { mono_ms: T0.mono_ms + ms, unix_secs: T0.unix_secs + (ms / 1000) as i64 }
}

fn new_cache() -> MetadataCache {
    MetadataCache::new(0, 0, T0)
}

fn entry(inode: u64, name: &str) -> CachedEntry {
    CachedEntry {
        inode,
        parent: 1,
        name: name.to_string(),
        is_dir: false,
        is_symlink: false,
        symlink_target: None,
        nlink: 1,
        fid: None,
        size: 0,
        mode: 0o644,
        uid: 0,
        gid: 0,
        atime: 0,
        mtime: 0,
        ctime: 0,
        xattrs: NameMap::new(),
        chunks: Vec::new(),
        hard_link_id: String::new(),
        hard_link_counter: 0,
        content_size: 0,
        disk_size: 0,
        generation: 0,
        placement: None,
        reliability: Reliability::SingleReplica,
        replica_chunks: Vec::new(),
        shard_id: None,
        cached_at: T0.mono_ms,
        state: EntryState::default(),
        hold: HoldState::default(),
        cap: None,
        dentry_lease: None,
        dir_shared_gen: 0,
    }
}

#[test]
fn test_root_inode() {
    let mut cache = new_cache();
    let root = cache.get_inode(1, T0.mono_ms).unwrap();
    assert!(root.is_dir);
    assert_eq!(root.inode, 1);
}

#[test]
fn test_allocate_inode() {
    let mut cache = new_cache();
    let ino1 = cache.allocate_inode();
    let ino2 = cache.allocate_inode();
    assert_eq!(ino1, 2);
    assert_eq!(ino2, 3);
}

#[test]
fn test_insert_and_get() {
    let mut cache = new_cache();
    let inode = cache.allocate_inode();
    cache.insert(
        CachedEntry {
            size: 100,
            atime: T0.unix_secs,
            mtime: T0.unix_secs,
            ctime: T0.unix_secs,
            ..entry(inode, "test.txt")
        },
        T0.mono_ms,
    );

    let entry = cache.get_inode(inode, T0.mono_ms).unwrap();
    assert_eq!(entry.name, "test.txt");
    assert!(!entry.is_dir);
    assert_eq!(entry.size, 100);
    assert_eq!(entry.nlink, 1);
}

#[test]
fn test_remove() {
    let mut cache = new_cache();
    let inode = cache.allocate_inode();
    cache.insert(entry(inode, "temp.txt"), T0.mono_ms);

    assert!(cache.get_inode(inode, T0.mono_ms).is_some());
    cache.remove(inode);
    assert!(cache.get_inode(inode, T0.mono_ms).is_none());
}

#[test]
fn test_list_children() {
    let mut cache = new_cache();
    for name in &["a.txt", "b.txt", "c.txt"] {
        let ino = cache.allocate_inode();
        cache.insert(entry(ino, name), T0.mono_ms);
    }

    let children = cache.list_children(1);
    assert_eq!(children.len(), 3);
}

#[test]
fn test_update_size() {
    let mut cache = new_cache();
    let inode = cache.allocate_inode();
    cache.insert(entry(inode, "file.txt"), T0.mono_ms);

    cache.update_size(inode, 1024, T0);
    let entry = cache.get_inode(inode, T0.mono_ms).unwrap();
    assert_eq!(entry.size, 1024);
}

#[test]
fn test_rename_file() {
    let mut cache = new_cache();
    let ino = cache.allocate_inode();
    cache.insert(CachedEntry { size: 100, ..entry(ino, "old.txt") }, T0.mono_ms);

    cache.rename(1, "old.txt", 1, "new.txt", T0).unwrap();

    assert!(cache.lookup_in_cache(1, "old.txt", T0.mono_ms).is_none());
    let entry = cache.lookup_in_cache(1, "new.txt", T0.mono_ms).unwrap();
    assert_eq!(entry.inode, ino);
    assert_eq!(entry.name, "new.txt");
}

#[test]
fn test_nlink() {
    let mut cache = new_cache();
    let inode = cache.allocate_inode();
    cache.insert(entry(inode, "file.txt"), T0.mono_ms);

    assert_eq!(cache.get_nlink(inode), 1);
    cache.inc_nlink(inode);
    assert_eq!(cache.get_nlink(inode), 2);
    assert!(!cache.dec_nlink(inode));
    assert_eq!(cache.get_nlink(inode), 1);
    assert!(cache.dec_nlink(inode));
    assert_eq!(cache.get_nlink(inode), 0);
}

#[test]
fn test_symlink() {
    let mut cache = new_cache();
    let inode = cache.allocate_inode();
    cache.insert(CachedEntry { mode: 0o777, ..entry(inode, "link") }, T0.mono_ms);

    cache.set_symlink_target(inode, "/target/path".to_string());
    let entry = cache.get_inode(inode, T0.mono_ms).unwrap();
    assert!(entry.is_symlink);
    assert_eq!(entry.size, 12);
    assert_eq!(cache.get_symlink_target(inode), Some("/target/path".to_string()));
}

#[test]
fn test_metadata_ttl_expiry() {
    // A lifetime of one second.
    let mut cache = MetadataCache::with_capacity_and_ttl(100, 1000, 0, 0, T0);
    let inode = cache.allocate_inode();
    cache.insert(entry(inode, "ttl-file.txt"), T0.mono_ms);

    // A fresh entry is returned.
    assert!(cache.get_inode(inode, T0.mono_ms).is_some());

    // Two seconds later it is stale.
    assert!(
        cache.get_inode(inode, at(2000).mono_ms).is_none(),
        "TTL-expired entry should be treated as stale"
    );
}

#[test]
fn test_metadata_ttl_refresh_on_update() {
    // A lifetime of two seconds.
    let mut cache = MetadataCache::with_capacity_and_ttl(100, 2000, 0, 0, T0);
    let inode = cache.allocate_inode();
    cache.insert(entry(inode, "refresh-file.txt"), T0.mono_ms);

    // Refreshed after half a second.
    cache.update_size(inode, 4096, at(500));

    // The lifetime counted from the insertion is over, but not the one counted
    // from the refresh.
    assert!(
        cache.get_inode(inode, at(500 + 1700).mono_ms).is_some(),
        "Refresh on update_size should keep entry fresh"
    );
}

#[test]
fn test_path_generation_update_and_get() {
    let mut cache = new_cache();

    assert!(cache.get_path_generation("/test/file.txt").is_none());

    cache.update_path_generation("/test/file.txt", 5);
    assert_eq!(cache.get_path_generation("/test/file.txt"), Some(5));

    cache.update_path_generation("/test/file.txt", 10);
    assert_eq!(cache.get_path_generation("/test/file.txt"), Some(10));
}

#[test]
fn test_path_generation_stale_detection() {
    let mut cache = new_cache();
    let ino = cache.allocate_inode();
    cache.insert(CachedEntry { generation: 1, ..entry(ino, "stale.txt") }, T0.mono_ms);

    // No generation is known: not stale.
    assert!(cache.get_path_generation("/stale.txt").is_none());

    // A newer generation than the cached one: stale.
    cache.update_path_generation("/stale.txt", 5);
    let cached_gen = cache.get_inode(ino, T0.mono_ms).unwrap().generation;
    assert!(cache.get_path_generation("/stale.txt").is_some_and(|g| g > cached_gen));

    // The same generation: not stale.
    cache.update_path_generation("/stale.txt", 1);
    assert!(!cache.get_path_generation("/stale.txt").is_some_and(|g| g > cached_gen));
}

#[test]
fn test_clear_all_empties_and_reinitializes() {
    let mut cache = new_cache();
    let ino = cache.allocate_inode();
    cache.insert(CachedEntry { generation: 1, ..entry(ino, "clear_test.txt") }, T0.mono_ms);
    cache.update_path_generation("/clear_test.txt", 5);

    assert!(cache.get_inode(ino, T0.mono_ms).is_some());

    cache.clear_all(0, 0, T0);

    assert!(cache.get_inode(ino, T0.mono_ms).is_none(), "Entry should be cleared");
    assert!(cache.get_inode(1, T0.mono_ms).is_some(), "Root should be re-initialized");
    assert!(
        cache.get_path_generation("/clear_test.txt").is_none(),
        "Generation tracking should be cleared"
    );
}

#[test]
fn test_state_transition_flushing_to_dirty_on_failure() {
    let mut cache = new_cache();
    let ino = cache.allocate_inode();
    cache.insert(CachedEntry { generation: 1, ..entry(ino, "flush_fail.txt") }, T0.mono_ms);

    // A write.
    cache.mark_dirty(ino);
    assert_eq!(cache.get_entry_state(ino).unwrap(), EntryState::Dirty);

    // A flush starts.
    cache.mark_flushing(ino);
    assert_eq!(cache.get_entry_state(ino).unwrap(), EntryState::Flushing);

    // The flush fails.
    cache.mark_dirty(ino);
    assert_eq!(
        cache.get_entry_state(ino).unwrap(),
        EntryState::Dirty,
        "Flushing→Dirty on failure must recover to Dirty, not stay Flushing"
    );

    // A flush succeeds.
    cache.mark_flushing(ino);
    cache.mark_clean(ino, T0.mono_ms);
    assert_eq!(cache.get_entry_state(ino).unwrap(), EntryState::Clean);
}

#[test]
fn test_concurrent_write_during_flushing_keeps_dirty() {
    let mut cache = new_cache();
    let ino = cache.allocate_inode();
    cache.insert(CachedEntry { generation: 1, ..entry(ino, "concurrent.txt") }, T0.mono_ms);

    // A write, then a flush starts.
    cache.mark_dirty(ino);
    cache.mark_flushing(ino);
    assert_eq!(cache.get_entry_state(ino).unwrap(), EntryState::Flushing);

    // A write while the flush runs.
    cache.mark_dirty(ino);
    assert_eq!(cache.get_entry_state(ino).unwrap(), EntryState::Dirty);

    // The flush ends: the newer write is not lost.
    cache.mark_clean(ino, T0.mono_ms);
    assert_eq!(
        cache.get_entry_state(ino).unwrap(),
        EntryState::Dirty,
        "Dirty→Clean must be rejected: concurrent write made entry Dirty during flush"
    );
}

#[test]
fn test_pin_unpin_via_entry_hold() {
    let mut cache = MetadataCache::with_capacity_and_ttl(100, 60_000, 0, 0, T0);
    let ino = cache.allocate_inode();
    cache.insert(CachedEntry { generation: 1, ..entry(ino, "pinned.txt") }, T0.mono_ms);

    assert!(!cache.is_pinned(ino));

    cache.pin_inode(ino);
    assert!(cache.is_pinned(ino));

    cache.pin_inode(ino);
    assert!(cache.is_pinned(ino));

    cache.unpin_inode(ino);
    assert!(cache.is_pinned(ino), "should still be pinned after first unpin");

    cache.unpin_inode(ino);
    assert!(!cache.is_pinned(ino), "should be unpinned after all handles closed");
}

#[test]
fn test_pinned_inode_bypasses_ttl_via_hold() {
    let mut cache = MetadataCache::with_capacity_and_ttl(100, 50, 0, 0, T0);
    let pinned_ino = cache.allocate_inode();
    let unpinned_ino = cache.allocate_inode();

    let make_entry = |ino: u64| CachedEntry {
        generation: 1,
        ..entry(ino, &format!("file_{}.txt", ino))
    };

    cache.insert(make_entry(pinned_ino), T0.mono_ms);
    cache.insert(make_entry(unpinned_ino), T0.mono_ms);

    cache.pin_inode(pinned_ino);

    let later = at(100).mono_ms;
    assert!(cache.get_inode(pinned_ino, later).is_some(), "pinned inode should bypass TTL expiry");
    assert!(
        cache.get_inode(unpinned_ino, later).is_none(),
        "unpinned inode should be expired by TTL"
    );
}

#[test]
fn test_lru_eviction_preserves_pinned_via_hold() {
    // A small cache, to force eviction.
    let mut cache = MetadataCache::with_capacity_and_ttl(3, 60_000, 0, 0, T0);

    let make_entry = |ino: u64, name: &str| CachedEntry { generation: 1, ..entry(ino, name) };

    let ino_a = cache.allocate_inode();
    let ino_b = cache.allocate_inode();
    let ino_c = cache.allocate_inode();
    cache.insert(make_entry(ino_a, "a"), T0.mono_ms);
    cache.insert(make_entry(ino_b, "b"), T0.mono_ms);
    cache.insert(make_entry(ino_c, "c"), T0.mono_ms);

    cache.pin_inode(ino_b);

    let ino_d = cache.allocate_inode();
    cache.insert(make_entry(ino_d, "d"), T0.mono_ms);

    assert!(cache.peek_inode(ino_b).is_some(), "pinned entry should survive LRU eviction");
    assert!(
        cache.is_pinned(ino_b),
        "pinned entry should still be marked as pinned after re-insertion"
    );
}

#[test]
fn stale_entries_are_not_found() {
    let mut cache = new_cache();
    cache.insert(entry(8, "a"), T0.mono_ms);
    cache.insert(entry(9, "b"), T0.mono_ms);
    cache.mark_dirty(9);
    cache.mark_stale(8);
    cache.mark_stale(9);
    assert!(cache.get_inode(8, T0.mono_ms).is_none());
    assert!(cache.peek_inode(8).is_some());
    cache.pin_inode(8);
    assert!(cache.get_inode(8, T0.mono_ms).is_some());
    assert!(cache.get_inode(9, T0.mono_ms).is_some());
}

#[test]
fn tombstones_stay() {
    let mut e = entry(8, "a");
    assert!(e.try_transition(EntryState::Clean));
    assert!(e.try_transition(EntryState::Tombstone));
    for target in
        [EntryState::New, EntryState::Clean, EntryState::Dirty, EntryState::Flushing, EntryState::Stale]
    {
        assert!(!e.try_transition(target));
        assert_eq!(e.state, EntryState::Tombstone);
    }
}

#[test]
fn open_entries_stay_while_another_can_go() {
    let mut cache = MetadataCache::with_capacity(4, 0, 0, T0);
    cache.insert(entry(8, "a"), T0.mono_ms);
    cache.insert(entry(9, "b"), T0.mono_ms);
    cache.insert(entry(10, "c"), T0.mono_ms);
    cache.pin_inode(1);
    cache.pin_inode(8);
    cache.pin_inode(8);
    cache.get_inode(9, T0.mono_ms);
    cache.get_inode(10, T0.mono_ms);
    // The two least recently used entries are open.
    cache.insert(entry(11, "d"), T0.mono_ms);
    assert_eq!(cache.peek_inode(1).unwrap().hold, HoldState::Pinned { open_count: 1 });
    assert_eq!(cache.peek_inode(8).unwrap().hold, HoldState::Pinned { open_count: 2 });
    assert!(cache.peek_inode(9).is_none());
    assert!(cache.peek_inode(10).is_some());
    assert!(cache.peek_inode(11).is_some());
}

#[test]
fn where_every_entry_is_open_one_goes() {
    let mut cache = MetadataCache::with_capacity(2, 0, 0, T0);
    cache.insert(entry(8, "a"), T0.mono_ms);
    cache.pin_inode(1);
    cache.pin_inode(8);
    // An entry that is not open stays out.
    cache.insert(entry(9, "b"), T0.mono_ms);
    assert!(cache.is_pinned(1));
    assert!(cache.is_pinned(8));
    assert!(cache.peek_inode(9).is_none());
    // One that is open takes a place.
    cache.insert_pinned(entry(10, "c"), T0.mono_ms);
    assert!(cache.is_pinned(10));
    assert_eq!([1, 8, 10].iter().filter(|k| cache.peek_inode(**k).is_some()).count(), 2);
}

#[test]
fn outdated_path_is_dropped_with_its_listing() {
    let mut cache = MetadataCache::with_capacity(4, 0, 0, T0);
    cache.insert(entry(8, "a"), T0.mono_ms);
    cache.insert(entry(9, "b"), T0.mono_ms);
    cache.mark_dir_complete(1, 0);
    cache.invalidate_path("/a");
    assert!(cache.peek_inode(8).is_none());
    assert!(cache.peek_inode(9).is_some());
    // What the directory holds has to be asked for again.
    assert_eq!(cache.check_dentry_lease(1, "a", T0.mono_ms), DentryLeaseStatus::Miss);
    // An unknown path changes nothing.
    cache.invalidate_path("/none");
    assert!(cache.peek_inode(9).is_some());
}
