use bytes::Bytes;
use powerfs_fuse::client_cap::{CapSet, ClientCap};
use powerfs_fuse::entry::{CachedEntry, Now, ROOT_INODE};
use powerfs_fuse::fs::invalidate::{Ack, InvalidateHandler, Notification};
use powerfs_fuse::fs::PowerFsFs;
use powerfs_fuse::inline::InlineBuffer;
use powerfs_fuse::records::make_blank;

const T0: Now = Now { mono_ms: 10_000, unix_secs: 1_700_000_000 };

fn new_fs() -> PowerFsFs {
    PowerFsFs::new(0, 0, T0)
}

fn make_invalidate_msg(inode: u64, version: u64) -> Notification {
    Notification::Invalidate { inode, version, parent: 0, name: String::new() }
}

fn make_test_entry(inode: u64, name: &str, generation: u64) -> CachedEntry {
    CachedEntry { mode: 0o644, generation, ..make_blank(inode, 1, name, T0.mono_ms) }
}

#[test]
fn test_invalidate_stale_cache() {
    let mut fs = new_fs();
    let inode = fs.cache.allocate_inode();

    fs.cache.insert(make_test_entry(inode, "test.txt", 1), T0.mono_ms);
    assert!(fs.cache.get_inode(inode, T0.mono_ms).is_some());

    // Version 5 is newer than the cached 1.
    let mut handler = InvalidateHandler::new();
    handler.handle_notification(&mut fs, &make_invalidate_msg(inode, 5));

    assert!(fs.cache.get_inode(inode, T0.mono_ms).is_none());
}

#[test]
fn test_invalidate_skip_fresh_cache() {
    let mut fs = new_fs();
    let inode = fs.cache.allocate_inode();

    fs.cache.insert(make_test_entry(inode, "fresh.txt", 10), T0.mono_ms);

    // Version 5 is older than the cached 10.
    let mut handler = InvalidateHandler::new();
    handler.handle_notification(&mut fs, &make_invalidate_msg(inode, 5));

    assert!(fs.cache.get_inode(inode, T0.mono_ms).is_some());
}

#[test]
fn test_invalidate_inode_not_in_cache() {
    let mut fs = new_fs();
    let mut handler = InvalidateHandler::new();

    handler.handle_notification(&mut fs, &make_invalidate_msg(99999, 1));

    assert!(fs.cache.get_inode(99999, T0.mono_ms).is_none());
}

#[test]
fn test_invalidate_zero_inode_ignored() {
    let mut fs = new_fs();
    let mut handler = InvalidateHandler::new();

    let effects = handler.handle_notification(&mut fs, &make_invalidate_msg(0, 1));
    assert!(effects.forget_inodes.is_empty());
    assert!(!effects.evicted);
}

#[test]
fn test_invalidate_root_inode_never_evicted() {
    let mut fs = new_fs();
    let mut handler = InvalidateHandler::new();

    assert!(fs.cache.peek_inode(ROOT_INODE).is_some());

    handler.handle_notification(&mut fs, &make_invalidate_msg(ROOT_INODE, 99999));

    assert!(
        fs.cache.peek_inode(ROOT_INODE).is_some(),
        "root inode must never be evicted by InvalidateHandler"
    );
}

#[test]
fn test_non_invalidate_message_ignored() {
    let mut fs = new_fs();
    let mut handler = InvalidateHandler::new();

    let effects = handler.handle_notification(&mut fs, &Notification::Other);
    assert!(effects.forget_inodes.is_empty());
    assert!(effects.ack.is_none());
}

#[test]
fn test_invalidate_skip_pinned_inode() {
    // An open inode is not invalidated, even where the server's version is
    // newer: it may be this client's own change that comes back.
    let mut fs = new_fs();
    let inode = fs.cache.allocate_inode();

    fs.cache.insert(make_test_entry(inode, "open.txt", 1), T0.mono_ms);
    fs.cache.pin_inode(inode);
    assert!(fs.cache.is_pinned(inode));

    let mut handler = InvalidateHandler::new();
    handler.handle_notification(&mut fs, &make_invalidate_msg(inode, 5));
    assert!(fs.cache.get_inode(inode, T0.mono_ms).is_some());

    // The same version again is a duplicate.
    fs.cache.unpin_inode(inode);
    handler.handle_notification(&mut fs, &make_invalidate_msg(inode, 5));
    assert!(
        fs.cache.get_inode(inode, T0.mono_ms).is_some(),
        "duplicate notification should be suppressed"
    );

    // A newer version invalidates.
    handler.handle_notification(&mut fs, &make_invalidate_msg(inode, 6));
    assert!(fs.cache.get_inode(inode, T0.mono_ms).is_none());
}

#[test]
fn test_duplicate_notification_suppressed_after_pin() {
    let mut fs = new_fs();
    let inode = fs.cache.allocate_inode();

    fs.cache.insert(make_test_entry(inode, "write.bin", 1), T0.mono_ms);
    fs.cache.pin_inode(inode);

    let mut handler = InvalidateHandler::new();

    // Skipped while the file is open.
    handler.handle_notification(&mut fs, &make_invalidate_msg(inode, 5));
    assert!(fs.cache.get_inode(inode, T0.mono_ms).is_some());

    fs.cache.unpin_inode(inode);

    handler.handle_notification(&mut fs, &make_invalidate_msg(inode, 5));
    assert!(
        fs.cache.get_inode(inode, T0.mono_ms).is_some(),
        "duplicate notification must not evict after unpin"
    );
}

#[test]
fn test_duplicate_notification_suppressed_during_flush_drain() {
    let mut fs = new_fs();
    let inode = fs.cache.allocate_inode();

    fs.cache.insert(make_test_entry(inode, "flush.bin", 1), T0.mono_ms);

    // A chunk that is put is dirty.
    fs.chunk_cache.put(inode, 0, Bytes::from(vec![0u8; 4096]), 0, 0);
    assert!(fs.chunk_cache.has_chunks(inode));
    assert!(fs.chunk_cache.has_dirty_chunks(inode));

    let mut handler = InvalidateHandler::new();

    handler.handle_notification(&mut fs, &make_invalidate_msg(inode, 5));
    assert!(fs.cache.get_inode(inode, T0.mono_ms).is_some());

    // A flush clears the dirty marks and keeps the data.
    fs.chunk_cache.clear_dirty(inode);
    assert!(!fs.chunk_cache.has_dirty_chunks(inode));
    assert!(fs.chunk_cache.has_chunks(inode));

    handler.handle_notification(&mut fs, &make_invalidate_msg(inode, 5));
    assert!(
        fs.cache.get_inode(inode, T0.mono_ms).is_some(),
        "inode must not be evicted during flush drain window"
    );
}

#[test]
fn outdated_inode_leaves_every_cache() {
    let mut fs = new_fs();
    let mut handler = InvalidateHandler::new();
    fs.cache.insert(make_test_entry(7, "x", 1), T0.mono_ms);
    fs.chunk_cache.put(7, 0, Bytes::from(vec![1u8; 10]), 0, 0);
    fs.chunk_cache.clear_dirty(7);
    let effects = handler.handle_notification(&mut fs, &make_invalidate_msg(7, 5));
    assert!(effects.evicted);
    assert!(effects.forget_inodes.contains(&7));
    assert!(fs.cache.peek_inode(7).is_none());
    assert!(!fs.chunk_cache.has_chunks(7));
}

#[test]
fn dirty_inline_buffer_protects_its_inode() {
    let mut fs = new_fs();
    let mut handler = InvalidateHandler::new();
    fs.cache.insert(make_test_entry(7, "x", 1), T0.mono_ms);
    fs.inline_buffers.insert(
        7,
        InlineBuffer {
            data: vec![1, 2, 3],
            dirty: true,
            original_len: 0,
            modified_in_place: false,
            needs_refresh: false,
        },
    );
    let effects = handler.handle_notification(&mut fs, &make_invalidate_msg(7, 5));
    assert!(!effects.evicted);
    assert!(fs.cache.peek_inode(7).is_some());
}

#[test]
fn versions_are_remembered_per_inode_and_name() {
    let mut handler = InvalidateHandler::new();
    assert!(!handler.is_duplicate(4, 1));
    handler.mark_processed(4, 3);
    assert!(handler.is_duplicate(4, 3));
    assert!(handler.is_duplicate(4, 2));
    assert!(!handler.is_duplicate(4, 4));
    assert!(!handler.is_duplicate(5, 3));
    handler.mark_dentry_processed(1, "a", 3);
    assert!(handler.is_duplicate_dentry(1, "a", 3));
    assert!(!handler.is_duplicate_dentry(1, "a", 4));
    assert!(!handler.is_duplicate_dentry(1, "b", 3));
    assert!(!handler.is_duplicate_dentry(2, "a", 3));
}

#[test]
fn changed_name_is_forgotten_once() {
    let mut fs = new_fs();
    let mut handler = InvalidateHandler::new();
    let note = Notification::Invalidate { inode: 1, version: 5, parent: 1, name: "a".to_string() };
    assert!(handler.handle_notification(&mut fs, &note).forget_name);
    assert!(!handler.handle_notification(&mut fs, &note).forget_name);
}

#[test]
fn recall_of_a_clean_cap_is_answered_at_once() {
    let mut fs = new_fs();
    let mut handler = InvalidateHandler::new();
    fs.cache.insert(make_test_entry(7, "x", 1), T0.mono_ms);
    fs.cache.grant_cap(7, ClientCap::new(1, "t".into(), CapSet::exclusive(), 1, true, 1));
    let packed = CapSet::cap_r().0 << 4;
    let note = Notification::CapRecall { inode: 7, packed, epoch: 2 };
    assert_eq!(handler.handle_notification(&mut fs, &note).ack, Some(Ack::Immediate));
    assert_eq!(fs.cache.get_cap(7).unwrap().issued, CapSet::cap_r());
}

#[test]
fn recall_of_a_dirty_cap_waits_for_a_flush() {
    let mut fs = new_fs();
    let mut handler = InvalidateHandler::new();
    fs.cache.insert(make_test_entry(7, "x", 1), T0.mono_ms);
    fs.cache.grant_cap(7, ClientCap::new(1, "t".into(), CapSet::exclusive(), 1, true, 1));
    fs.cache.mark_dirty_cap_w(7);
    let note = Notification::CapRecall { inode: 7, packed: CapSet::cap_r().0 << 4, epoch: 2 };
    assert_eq!(handler.handle_notification(&mut fs, &note).ack, Some(Ack::AfterFlush));
}

#[test]
fn upgrade_gives_the_cap_back() {
    let mut fs = new_fs();
    let mut handler = InvalidateHandler::new();
    fs.cache.insert(make_test_entry(7, "x", 1), T0.mono_ms);
    fs.cache.grant_cap(7, ClientCap::new(1, "t".into(), CapSet::cap_r(), 1, true, 1));
    let granted = CapSet::cap_w().union(CapSet::cap_x()).0;
    let note = Notification::CapUpgrade { inode: 7, granted, epoch: 2, sn: 3 };
    handler.handle_notification(&mut fs, &note);
    assert!(fs.cache.get_cap(7).unwrap().issued.is_exclusive());
}
