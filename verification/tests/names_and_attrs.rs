use powerfs_fuse::client_cap::{CapSet, ClientCap};
use powerfs_fuse::entry::{CachedEntry, EntryState, Now, Reliability, UpdateAttrParams};
use powerfs_fuse::file_locks::FileLock;
use powerfs_fuse::fs::attrs::{
    normalize_xattr_name, setattr_params, statfs_of, xattr_reply, FallocStep, SetattrParams,
    SetattrValid, XattrReply,
};
use powerfs_fuse::fs::names::{
    begin_walk, dot_rows, group_unlinks, mkdir_mode, row_offset, row_taken, Existence, LookupStep,
    UnlinkStep, WalkStep,
};
use powerfs_fuse::fs::PowerFsFs;
use powerfs_fuse::meta_model::DentryLeaseStatus;
use powerfs_fuse::metadata_cache::MetadataCache;
use powerfs_fuse::names::NameMap;
use powerfs_fuse::records::{
    attr_to_cached_entry, create_fuse_entry, create_negative_entry, create_stat, make_blank,
    MetadataAttr, MetadataDirEntry, Stat,
};
use powerfs_fuse::scan::{EACCES, EAGAIN, EINVAL, ENOENT, EOPNOTSUPP, ERANGE};

const T0: Now = Now { mono_ms: 10_000, unix_secs: 1_700_000_000 };
const NOW: u64 = 10_000;

fn attr(inode: u64, mode: u32) -> MetadataAttr {
    MetadataAttr {
        inode,
        file_type: 8,
        mode,
        uid: 1,
        gid: 2,
        size: 3,
        nlink: 1,
        atime: 4,
        mtime: 5,
        ctime: 6,
        symlink_target: None,
        volume_id: None,
        file_key: None,
        chunks: Vec::new(),
        placement: None,
        reliability: Reliability::SingleReplica,
        replica_chunks: Vec::new(),
        shard_id: None,
        is_inline: false,
        inline_max_size: None,
        inline_data: None,
        dir_version: 0,
        dentry_lease_ttl_ms: 0,
    }
}

fn new_fs() -> PowerFsFs {
    PowerFsFs::new(0, 0, T0)
}

fn dir_entry(inode: u64, parent: u64, name: &str) -> CachedEntry {
    CachedEntry { is_dir: true, mode: 0o755, nlink: 2, ..make_blank(inode, parent, name, NOW) }
}

#[test]
fn lookup_asks_the_server_and_keeps_the_answer() {
    let mut fs = new_fs();
    assert_eq!(fs.lookup_begin(1, ".", NOW), LookupStep::Dot);
    assert_eq!(fs.lookup_begin(1, "..", NOW), LookupStep::DotDot);
    assert_eq!(fs.lookup_begin(1, "a", NOW), LookupStep::Ask);
    let answer = fs.lookup_finish(1, "a", Some(attr(9, 0o644)), NOW);
    assert_eq!(answer.inode, 9);
    assert_eq!(fs.lookup_begin(1, "a", NOW), LookupStep::Reply { entry: answer });
    assert_eq!(fs.lookup_finish(1, "b", None, NOW), create_negative_entry());
}

#[test]
fn complete_listing_answers_for_absent_names() {
    let mut cache = MetadataCache::new(0, 0, T0);
    cache.insert(dir_entry(5, 1, "d"), NOW);
    assert_eq!(cache.check_dentry_lease(5, "x", NOW), DentryLeaseStatus::Miss);
    cache.mark_dir_complete(5, 3);
    cache.update_dir_version(5, 3);
    cache.mark_dir_complete(5, 3);
    assert_eq!(cache.check_dentry_lease(5, "x", NOW), DentryLeaseStatus::NegativeComplete);
    assert_eq!(cache.get_dir_version(5), 3);
    cache.update_dir_version(5, 4);
    assert_eq!(cache.check_dentry_lease(5, "x", NOW), DentryLeaseStatus::Miss);
}

#[test]
fn dentry_lease_runs_out() {
    let mut cache = MetadataCache::new(0, 0, T0);
    cache.insert(make_blank(9, 1, "a", NOW), NOW);
    cache.grant_dentry_lease(1, "a", 500, 0, NOW);
    assert_eq!(cache.check_dentry_lease(1, "a", NOW + 499), DentryLeaseStatus::LeaseValid);
    assert_ne!(cache.check_dentry_lease(1, "a", NOW + 501), DentryLeaseStatus::LeaseValid);
    cache.grant_dentry_lease(1, "a", 500, 0, NOW);
    cache.invalidate_dentry_leases(1);
    assert_ne!(cache.check_dentry_lease(1, "a", NOW), DentryLeaseStatus::LeaseValid);
    assert_eq!(cache.get_inode_by_name(1, "a").unwrap().inode, 9);
}

#[test]
fn paths_are_found_by_the_parents() {
    let mut cache = MetadataCache::new(0, 0, T0);
    cache.insert(dir_entry(5, 1, "d"), NOW);
    cache.insert(make_blank(9, 5, "f", NOW), NOW);
    assert_eq!(cache.get_path_by_parent_chain(9, NOW), Some("/d/f".to_string()));
    assert_eq!(cache.get_path("/d/f"), Some(9));
    assert_eq!(cache.inode_to_path(9), Some("/d/f".to_string()));
    assert_eq!(cache.get_path_by_parent_chain(1, NOW), Some("/".to_string()));
    cache.remove(9);
    assert_eq!(cache.get_path("/d/f"), None);
    assert_eq!(cache.get_path_by_parent_chain(9, NOW), None);
}

#[test]
fn rename_replaces_its_target() {
    let mut cache = MetadataCache::new(0, 0, T0);
    cache.insert(make_blank(8, 1, "a", NOW), NOW);
    cache.insert(make_blank(9, 1, "b", NOW), NOW);
    assert_eq!(cache.rename(1, "a", 1, "b", T0), Ok(()));
    assert!(cache.peek_inode(9).is_none());
    assert_eq!(cache.get_path("/b"), Some(8));
    assert_eq!(cache.get_path("/a"), None);
    assert!(cache.rename(1, "gone", 1, "b", T0).is_err());
}

#[test]
fn refresh_keeps_what_only_the_client_knows() {
    let mut cache = MetadataCache::new(0, 0, T0);
    cache.insert(CachedEntry { size: 9, content_size: 9, ..make_blank(8, 1, "a", NOW) }, NOW);
    cache.set_xattr(8, "user.x", b"1");
    cache.pin_inode(8);
    cache.mark_dirty(8);
    cache.insert(CachedEntry { size: 4, content_size: 4, ..make_blank(8, 1, "a", NOW) }, NOW);
    let e = cache.peek_inode(8).unwrap();
    assert_eq!((e.size, e.content_size), (9, 9));
    assert_eq!(e.state, EntryState::Dirty);
    assert_eq!(cache.get_xattr(8, "user.x"), Some(b"1".to_vec()));
    assert!(cache.is_pinned(8));
}

#[test]
fn invalidate_all_spares_local_changes() {
    let mut cache = MetadataCache::new(0, 0, T0);
    cache.insert(make_blank(8, 1, "a", NOW), NOW);
    cache.insert(make_blank(9, 1, "b", NOW), NOW);
    cache.mark_dirty(9);
    cache.invalidate_all(NOW);
    assert!(cache.get_inode(8, NOW).is_none());
    assert!(cache.get_inode(9, NOW).is_some());
}

#[test]
fn least_recently_used_entry_goes_first() {
    let mut cache = MetadataCache::with_capacity(3, 0, 0, T0);
    cache.insert(make_blank(8, 1, "a", NOW), NOW);
    cache.insert(make_blank(9, 1, "b", NOW), NOW);
    cache.get_inode(1, NOW);
    cache.get_inode(8, NOW);
    cache.insert(make_blank(10, 1, "c", NOW), NOW);
    assert!(cache.peek_inode(9).is_none());
    assert!(cache.peek_inode(8).is_some());
    assert!(cache.peek_inode(10).is_some());
}

#[test]
fn directory_listings_age() {
    let mut cache = MetadataCache::new(0, 0, T0);
    let rows = vec![(8, "a".to_string(), false)];
    cache.set_dir_listing(1, rows.clone(), NOW);
    assert_eq!(cache.get_dir_listing(1, NOW), Some(rows.clone()));
    assert_eq!(cache.get_dir_listing(1, NOW + 5001), None);
    cache.insert(make_blank(9, 1, "b", NOW), NOW);
    assert_eq!(cache.get_dir_listing(1, NOW), None);
}

#[test]
fn xattrs_are_kept_by_name() {
    let mut cache = MetadataCache::new(0, 0, T0);
    cache.insert(make_blank(8, 1, "a", NOW), NOW);
    cache.set_xattr(8, "user.x", b"1");
    cache.set_xattr(8, "user.y", b"2");
    cache.set_xattr(8, "user.x", b"3");
    assert_eq!(cache.get_xattr(8, "user.x"), Some(b"3".to_vec()));
    let mut names = cache.list_xattrs(8);
    names.sort();
    assert_eq!(names, vec!["user.x".to_string(), "user.y".to_string()]);
    assert!(cache.remove_xattr(8, "user.x"));
    assert!(!cache.remove_xattr(8, "user.x"));
    assert_eq!(cache.get_xattr(8, "user.x"), None);
}

#[test]
fn attributes_change_one_by_one() {
    let mut cache = MetadataCache::new(0, 0, T0);
    cache.insert(CachedEntry { mode: 0o644, ..make_blank(8, 1, "a", NOW) }, NOW);
    cache.update_attr(8, UpdateAttrParams { uid: Some(7), ..UpdateAttrParams::default() }, T0);
    let e = cache.peek_inode(8).unwrap();
    assert_eq!((e.uid, e.gid, e.mode), (7, 0, 0o644));
    assert_eq!(e.ctime, T0.unix_secs);
}

#[test]
fn walk_follows_cached_names() {
    let mut fs = new_fs();
    fs.cache.insert(dir_entry(5, 1, "d"), NOW);
    let mut walk = begin_walk("/d/f");
    assert_eq!(fs.resolve_path_inode(&mut walk, NOW), WalkStep::Ask);
    assert_eq!((walk.current, walk.next), (5, 1));
    fs.cache.insert(make_blank(9, 5, "f", NOW), NOW);
    assert_eq!(fs.resolve_path_inode(&mut walk, NOW), WalkStep::Done { inode: 9 });
    let mut root = begin_walk("/");
    assert_eq!(fs.resolve_path_inode(&mut root, NOW), WalkStep::Done { inode: 1 });
    assert!(!fs.resolve_answered(&mut begin_walk("/x"), None, NOW));
}

#[test]
fn existence_is_known_or_asked() {
    let mut fs = new_fs();
    fs.cache.insert(make_blank(9, 1, "f", NOW), NOW);
    assert_eq!(fs.entry_exists(1, "f", NOW), Existence::Exists);
    assert_eq!(fs.entry_exists(1, "g", NOW), Existence::Ask);
}

#[test]
fn last_name_takes_the_file_along() {
    let mut fs = new_fs();
    fs.cache.insert(make_blank(9, 1, "f", NOW), NOW);
    fs.cache.grant_cap(9, ClientCap::new(1, "t".into(), CapSet::exclusive(), 1, true, 1));
    match fs.unlink_begin(1, "f", NOW) {
        UnlinkStep::Found { entry } => assert_eq!(entry.inode, 9),
        other => panic!("{:?}", other),
    }
    let done = fs.unlink_apply(9, 1, "f", 2, NOW);
    assert!(done.last_name);
    assert!(done.cap.is_some());
    assert!(done.batch.is_empty());
    assert!(fs.cache.peek_inode(9).is_none());
    assert_eq!(fs.take_pending_unlinks(), vec![(1, "f".to_string(), 2)]);
    assert!(matches!(fs.unlink_begin(1, "g", NOW), UnlinkStep::Ask));
}

#[test]
fn unlinks_are_sent_in_batches() {
    let mut fs = new_fs();
    for i in 0..15u64 {
        fs.cache.insert(make_blank(100 + i, 1, &format!("f{}", i), NOW), NOW);
        assert!(fs.unlink_apply(100 + i, 1, &format!("f{}", i), 2, NOW).batch.is_empty());
    }
    fs.cache.insert(make_blank(200, 1, "last", NOW), NOW);
    let batch = fs.unlink_apply(200, 1, "last", 2, NOW).batch;
    assert_eq!(batch.len(), 16);
    assert!(fs.take_pending_unlinks().is_empty());
}

#[test]
fn unlinks_are_grouped_by_shard() {
    let queue =
        vec![(1, "a".to_string(), 7), (1, "b".to_string(), 8), (2, "c".to_string(), 7)];
    assert_eq!(
        group_unlinks(&queue),
        vec![
            (7, vec![(1, "a".to_string()), (2, "c".to_string())]),
            (8, vec![(1, "b".to_string())]),
        ]
    );
}

#[test]
fn hard_link_counts_one_more_name() {
    let mut fs = new_fs();
    fs.cache.insert(make_blank(9, 1, "f", NOW), NOW);
    let e = fs.link_begin(9, NOW).unwrap();
    let answer = fs.link_finish(&e, 9, 1, "g", T0);
    assert_eq!(answer.attr.unwrap().nlink, 2);
    assert!(fs.link_begin(77, NOW).is_err());
}

#[test]
fn symlink_has_its_target_as_size() {
    let mut fs = new_fs();
    let answer = fs.symlink_finish(9, 1, "l", "/to/x", T0);
    let stat = answer.attr.unwrap();
    assert_eq!(stat.size, 5);
    assert_eq!(stat.mode, 0o120777);
    assert_eq!(fs.readlink_begin(9), Some("/to/x".to_string()));
}

#[test]
fn new_epoch_puts_entries_out_of_date() {
    let mut fs = new_fs();
    fs.cache.insert(make_blank(9, 1, "f", NOW), NOW);
    assert!(fs.check_cache_epoch(5, NOW));
    assert!(fs.cache.get_inode(9, NOW).is_none());
    assert!(!fs.check_cache_epoch(5, NOW));
}

#[test]
fn readdir_goes_on_where_it_stopped() {
    let mut fs = new_fs();
    assert_eq!(fs.readdir_cursor(1, 0), "");
    fs.readdir_end(1, 0, Some("m".to_string()), true);
    assert_eq!(fs.readdir_cursor(1, 2), "m");
    // A listing from the start forgets the place.
    assert_eq!(fs.readdir_cursor(1, 0), "");
    assert!(row_offset(0, 0) < row_offset(0, 1));
}

fn row(inode: u64, name: &str) -> MetadataDirEntry {
    MetadataDirEntry {
        inode,
        name: name.to_string(),
        file_type: 8,
        attrs: Some(attr(inode, 0o100640)),
        child_shard_id: 4,
    }
}

#[test]
fn listed_child_is_a_hint() {
    let mut fs = new_fs();
    fs.readdir_emitted(1, &row(9, "f"), NOW);
    let e = fs.cache.peek_inode(9).unwrap();
    assert_eq!(e.state, EntryState::Stale);
    assert_eq!((e.parent, e.mode, e.size, e.shard_id), (1, 0o640, 3, Some(4)));
    assert!(fs.cache.get_inode(9, NOW).is_none());
}

#[test]
fn listed_name_can_be_unlinked() {
    let mut fs = new_fs();
    fs.readdir_page(1, 0, &vec![row(8, "a"), row(9, "b")], 2, NOW);
    assert_eq!(fs.entry_exists(1, "a", NOW), Existence::Ask);
    // A name that the full listing does not have is known to be absent.
    assert_eq!(fs.entry_exists(1, "c", NOW), Existence::Absent);
    assert!(matches!(fs.unlink_begin(1, "c", NOW), UnlinkStep::Fail { errno: ENOENT }));
    assert!(matches!(fs.unlink_begin(1, "a", NOW), UnlinkStep::Ask));
    let e = fs.unlink_fetched(1, "a", &attr(8, 0o100640), NOW);
    assert!(fs.unlink_apply(e.inode, 1, "a", 2, NOW).last_name);
    assert!(fs.cache.peek_inode(8).is_none());
    assert_eq!(fs.entry_exists(1, "a", NOW), Existence::Absent);
}

#[test]
fn listed_directory_can_be_removed() {
    let mut fs = new_fs();
    fs.readdir_page(1, 0, &vec![row(8, "a")], 1, NOW);
    assert!(matches!(fs.lookup_begin(1, "a", NOW), LookupStep::Reply { entry } if entry.inode == 8));
    fs.rmdir_finish(1, "a", NOW);
    assert!(fs.cache.peek_inode(8).is_none());
    assert_eq!(fs.lookup_begin(1, "a", NOW), LookupStep::Reply { entry: create_negative_entry() });
}

#[test]
fn listed_name_can_be_renamed() {
    let mut fs = new_fs();
    fs.readdir_page(1, 0, &vec![row(8, "a"), row(9, "b")], 2, NOW);
    // The cache has only a hint of the source: both names have to be asked for.
    fs.rename_finish(1, "a", 1, "b", T0);
    assert!(fs.cache.get_inode_by_name(1, "a").is_none());
    assert!(fs.cache.get_inode_by_name(1, "b").is_none());
    assert_eq!(fs.lookup_begin(1, "b", NOW), LookupStep::Ask);
    // A source that the cache can answer for moves along.
    fs.cache.insert(make_blank(10, 1, "c", NOW), NOW);
    fs.cache.insert(make_blank(11, 1, "d", NOW), NOW);
    fs.rename_finish(1, "c", 1, "d", T0);
    assert!(fs.cache.get_inode_by_name(1, "c").is_none());
    assert_eq!(fs.cache.get_inode_by_name(1, "d").unwrap().inode, 10);
    assert!(fs.cache.peek_inode(11).is_none());
}

#[test]
fn row_without_attributes_keeps_a_listing_from_being_full() {
    let mut fs = new_fs();
    let bare = MetadataDirEntry { attrs: None, ..row(9, "b") };
    fs.readdir_page(1, 0, &vec![row(8, "a"), bare], 2, NOW);
    assert!(matches!(fs.unlink_begin(1, "b", NOW), UnlinkStep::Ask));
    assert_eq!(fs.entry_exists(1, "c", NOW), Existence::Ask);
}

#[test]
fn full_listing_ends_with_a_lost_child() {
    let mut fs = new_fs();
    fs.readdir_page(1, 0, &vec![row(8, "a")], 1, NOW);
    assert_eq!(fs.entry_exists(1, "x", NOW), Existence::Absent);
    // The server declares the child out of date; its name still stands.
    fs.cache.invalidate_inode(8);
    assert_eq!(fs.entry_exists(1, "a", NOW), Existence::Ask);
}

#[test]
fn new_epoch_takes_listings_and_leases_back() {
    let mut fs = new_fs();
    fs.readdir_page(1, 0, &vec![row(8, "a")], 1, NOW);
    fs.cache.grant_dentry_lease(1, "a", 60_000, 0, NOW);
    assert!(fs.check_cache_epoch(7, NOW));
    assert_eq!(fs.lookup_begin(1, "a", NOW), LookupStep::Ask);
    assert_eq!(fs.lookup_begin(1, "x", NOW), LookupStep::Ask);
}

#[test]
fn refused_row_is_offered_again() {
    let mut fs = new_fs();
    assert_eq!(dot_rows(0), (true, true));
    assert_eq!(dot_rows(1), (false, true));
    assert_eq!(dot_rows(2), (false, false));
    assert!(row_taken(Some(24)));
    assert!(!row_taken(Some(0)));
    assert!(!row_taken(None));
    let rows = vec![row(8, "a"), row(9, "b"), row(10, "c")];
    assert_eq!(fs.readdir_cursor(1, 0), "");
    fs.readdir_page(1, 0, &rows, 2, NOW);
    assert_eq!(fs.readdir_cursor(1, 4), "b");
    assert!(fs.cache.peek_inode(9).is_some());
    assert!(fs.cache.peek_inode(10).is_none());
    assert_eq!(row_offset(4, 0), 5);
    // Nothing taken: the page starts at the same place again.
    fs.readdir_page(1, 4, &vec![row(10, "c")], 0, NOW);
    assert_eq!(fs.readdir_cursor(1, 4), "b");
}

#[test]
fn modes_of_new_directories() {
    assert_eq!(mkdir_mode(0o755) & 0o7777, 0o755);
}

#[test]
fn stat_speaks_of_the_entry() {
    let e = CachedEntry { size: 1025, mode: 0o644, ..make_blank(9, 1, "f", NOW) };
    let s = create_stat(&e);
    assert_eq!((s.ino, s.mode, s.size), (9, 0o100644, 1025));
    let d = create_stat(&dir_entry(5, 1, "d"));
    assert_eq!(d.mode, 0o040755);
    assert_eq!(create_fuse_entry(&e).inode, 9);
    let c = attr_to_cached_entry(&attr(9, 0o600), 1, "f", NOW);
    assert_eq!((c.uid, c.gid, c.size, c.mode & 0o777), (1, 2, 3, 0o600));
}

#[test]
fn access_goes_by_the_mode() {
    let mut fs = new_fs();
    fs.cache.insert(CachedEntry { mode: 0o400, uid: 5, ..make_blank(9, 1, "f", NOW) }, NOW);
    assert_eq!(fs.access(9, 4, NOW), Ok(()));
    assert_eq!(fs.access(9, 2, NOW), Err(EACCES));
    assert_eq!(fs.access(10, 4, NOW), Err(ENOENT));
    // What belongs to the superuser may be used in any way.
    fs.cache.insert(CachedEntry { mode: 0o400, ..make_blank(11, 1, "g", NOW) }, NOW);
    assert_eq!(fs.access(11, 2, NOW), Ok(()));
}

#[test]
fn setattr_takes_what_is_valid() {
    let nothing = SetattrValid {
        mode: false,
        uid: false,
        gid: false,
        size: false,
        atime: false,
        mtime: false,
        atime_now: false,
        mtime_now: false,
    };
    let stat = Stat {
        ino: 0,
        mode: 0o100600,
        nlink: 1,
        uid: 3,
        gid: 4,
        size: 77,
        blksize: 0,
        blocks: 0,
        atime: 5,
        mtime: 6,
        ctime: 0,
    };
    let none = setattr_params(nothing, stat, T0.unix_secs);
    assert_eq!(
        none,
        SetattrParams { mode: None, uid: None, gid: None, size: None, atime: None, mtime: None }
    );
    let some = setattr_params(
        SetattrValid { uid: true, size: true, mtime_now: true, ..nothing },
        stat,
        T0.unix_secs,
    );
    assert_eq!((some.uid, some.gid, some.size), (Some(3), None, Some(77)));
    assert_eq!(some.mtime, Some(T0.unix_secs as u64));
}

#[test]
fn truncated_file_loses_its_chunks() {
    let mut fs = new_fs();
    fs.cache.insert(CachedEntry { size: 10, ..make_blank(9, 1, "f", NOW) }, NOW);
    fs.chunk_cache.put(9, 0, vec![1u8; 10].into(), 0, 0);
    let p = SetattrParams {
        mode: None,
        uid: None,
        gid: None,
        size: Some(4),
        atime: None,
        mtime: None,
    };
    assert!(fs.setattr_check(9, Some(4)).is_ok());
    let reply = fs.setattr_apply(9, p, T0).unwrap();
    assert_eq!(reply.stat.size, 4);
    assert_eq!(fs.chunk_cache.get(9, 0).unwrap().data.len(), 4);
    fs.setattr_apply(9, SetattrParams { size: Some(0), ..p }, T0);
    assert!(!fs.chunk_cache.has_chunks(9));
}

#[test]
fn fallocate_grows_a_file() {
    let mut fs = new_fs();
    fs.cache.insert(CachedEntry { size: 10, ..make_blank(9, 1, "f", NOW) }, NOW);
    assert_eq!(fs.fallocate(9, 0, 5, 20, NOW), FallocStep::Grow { size: 25 });
    assert_eq!(fs.fallocate(9, 0, 0, 5, NOW), FallocStep::Done);
    assert_eq!(fs.fallocate(9, 0, 0, 0, NOW), FallocStep::Fail { errno: EINVAL });
    assert_eq!(fs.fallocate(9, 0x10, 0, 5, NOW), FallocStep::Fail { errno: EOPNOTSUPP });
    fs.fallocate_finish(9, 25, T0);
    assert_eq!(fs.cache.peek_inode(9).unwrap().size, 25);
}

#[test]
fn locks_of_a_mount() {
    let mut fs = new_fs();
    let a = FileLock { start: 0, end: 10, lock_type: 1, pid: 1 };
    assert_eq!(fs.setlk(9, a), Ok(()));
    let b = FileLock { start: 5, end: 6, lock_type: 2, pid: 2 };
    assert_eq!(fs.setlk(9, b), Err(EAGAIN));
    assert_eq!(fs.getlk(9, b).pid, 1);
}

#[test]
fn xattr_answers_fit_the_room() {
    assert!(matches!(xattr_reply(vec![1, 2], 0), Ok(XattrReply::Count { len: 2 })));
    assert!(matches!(xattr_reply(vec![1, 2], 1), Err(ERANGE)));
    match xattr_reply(vec![1, 2], 2) {
        Ok(XattrReply::Value { data }) => assert_eq!(data, vec![1, 2]),
        other => panic!("{:?}", other),
    }
    assert_eq!(normalize_xattr_name("user.powerfs.layout"), "powerfs.layout");
    assert_eq!(normalize_xattr_name("user.other"), "user.other");
}

#[test]
fn file_system_size_is_told_in_blocks() {
    let s = statfs_of(8192, 4096);
    assert_eq!((s.bsize, s.blocks, s.bfree, s.bavail, s.namemax), (4096, 2, 1, 1, 255));
}

#[test]
fn name_map_holds_each_name_once() {
    let mut m: NameMap<u64> = NameMap::new();
    m.insert("a".to_string(), 1);
    m.insert("b".to_string(), 2);
    m.insert("a".to_string(), 3);
    assert_eq!(m.len(), 2);
    assert_eq!(m.get("a"), Some(&3));
    assert_eq!(m.name_of(2), Some("b".to_string()));
    m.remove_value(3);
    assert_eq!(m.get("a"), None);
    assert!(m.remove("b"));
    assert_eq!(m.len(), 0);
}
