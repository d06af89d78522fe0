use powerfs_fuse::chunk_cache::ChunkCache;
use powerfs_fuse::client_cap::{CapSet, ClientCap};
use powerfs_fuse::entry::{
    CachedEntry, CachedFileChunk, EntryState, Fid, FileChunk, HoldState, Now, Placement,
    Reliability, VolumeId,
};
use powerfs_fuse::fs::open::{close_syncs, opened_for_writing, LeaseRelease, OpenStep};
use powerfs_fuse::fs::read::{ChunkStep, EcStep, ReadPlan, ReadStep};
use powerfs_fuse::fs::sync::InlineSyncAction;
use powerfs_fuse::fs::write::{Backpressure, ChunkWrite, WritePlan, WriteStep};
use powerfs_fuse::fs::{FlushJob, FlushStep, PowerFsFs};
use powerfs_fuse::inline::{InlineBuffer, SyncPlan};
use powerfs_fuse::records::{make_blank, FilerAttrs, FilerEntry, MetadataAttr};
use powerfs_fuse::scan::{EFBIG, EIO, ENOENT};

const T0: Now = Now { mono_ms: 10_000, unix_secs: 1_700_000_000 };
const NOW: u64 = 10_000;

fn flat_entry(inode: u64) -> CachedEntry {
    CachedEntry {
        fid: Some(Fid { volume_id: VolumeId(3), cookie: 0, file_key: 500 }),
        mode: 0o644,
        ..make_blank(inode, 1, "flat", NOW)
    }
}

fn small_fs(chunk_size: u64) -> PowerFsFs {
    let mut fs = PowerFsFs::new(0, 0, T0);
    fs.chunk_cache = ChunkCache::with_max_bytes(chunk_size, 1_000_000);
    fs
}

fn chunk_plan(step: WriteStep) -> WritePlan {
    match step {
        WriteStep::Chunks { plan } => plan,
        other => panic!("{:?}", other),
    }
}

fn write_all(fs: &mut PowerFsFs, inode: u64, offset: u64, data: &[u8], base: &[u8]) {
    let plan = chunk_plan(fs.write_begin(inode, offset, false, data.to_vec(), T0));
    for idx in plan.first_chunk..=plan.last_chunk {
        if let ChunkWrite::ReadFirst { .. } = fs.write_chunk(&plan, idx) {
            fs.write_chunk_over(&plan, idx, Some(base.to_vec()));
        }
    }
    assert_eq!(fs.write_finish(&plan, T0), data.len());
}

fn flat_plan(step: ReadStep) -> (ReadPlan, Option<(u64, u64)>) {
    match step {
        ReadStep::Flat { plan, lease, .. } => (plan, lease),
        other => panic!("{:?}", other),
    }
}

fn read_back(fs: &mut PowerFsFs, inode: u64, offset: u64, size: u32) -> Result<Vec<u8>, i32> {
    match fs.read_begin(inode, size, offset, NOW) {
        ReadStep::Flat { plan, .. } => {
            assert!(plan.missing.is_empty());
            fs.flat_finish(&plan)
        }
        ReadStep::Striped { plan } => {
            assert!(plan.missing.is_empty());
            fs.striped_finish(&plan)
        }
        ReadStep::Reply { data } => Ok(data),
        ReadStep::Fail { errno } => Err(errno),
        other => panic!("{:?}", other),
    }
}

fn send_job(step: FlushStep) -> FlushJob {
    match step {
        FlushStep::Send { job } => job,
        other => panic!("{:?}", other),
    }
}

#[test]
fn flat_file_is_read_back() {
    let mut fs = small_fs(8);
    fs.cache.insert(flat_entry(7), NOW);
    let data: Vec<u8> = (1..=20).collect();
    write_all(&mut fs, 7, 3, &data, &[]);
    assert_eq!(read_back(&mut fs, 7, 3, 20), Ok(data.clone()));
    // The gap before the data reads as zeros.
    let mut whole = vec![0u8; 3];
    whole.extend_from_slice(&data);
    assert_eq!(read_back(&mut fs, 7, 0, 100), Ok(whole));
    let e = fs.cache.peek_inode(7).unwrap();
    assert_eq!(e.size, 23);
    assert_eq!(e.chunks.iter().map(|c| c.size).collect::<Vec<u64>>(), vec![8, 8, 7]);
    assert_eq!(e.chunks.iter().map(|c| c.needle_id).collect::<Vec<u64>>(), vec![500, 501, 502]);
    assert_eq!(e.state, EntryState::Dirty);
}

#[test]
fn overwrite_keeps_the_rest_of_a_chunk() {
    let mut fs = small_fs(8);
    fs.cache.insert(flat_entry(7), NOW);
    write_all(&mut fs, 7, 0, &[1; 16], &[]);
    write_all(&mut fs, 7, 6, &[2; 4], &[]);
    assert_eq!(
        read_back(&mut fs, 7, 0, 16),
        Ok(vec![1, 1, 1, 1, 1, 1, 2, 2, 2, 2, 1, 1, 1, 1, 1, 1])
    );
}

#[test]
fn uncached_chunk_is_read_before_it_is_overwritten() {
    let mut fs = small_fs(8);
    let chunk =
        CachedFileChunk { offset: 0, size: 8, mtime: 0, needle_id: 900, volume_id: 4, crc32: 0 };
    fs.cache.insert(
        CachedEntry { size: 8, content_size: 8, chunks: vec![chunk], ..flat_entry(7) },
        NOW,
    );
    let plan = chunk_plan(fs.write_begin(7, 2, false, vec![9, 9], T0));
    match fs.write_chunk(&plan, 0) {
        ChunkWrite::ReadFirst { needle, len } => {
            assert_eq!((needle.volume_id, needle.needle_id, len), (4, 900, 8));
        }
        other => panic!("{:?}", other),
    }
    fs.write_chunk_over(&plan, 0, Some(vec![1, 2, 3, 4, 5, 6, 7, 8]));
    fs.write_finish(&plan, T0);
    assert_eq!(read_back(&mut fs, 7, 0, 8), Ok(vec![1, 2, 9, 9, 5, 6, 7, 8]));
}

#[test]
fn data_that_cannot_be_read_first_becomes_zeros() {
    let mut fs = small_fs(8);
    fs.cache.insert(CachedEntry { size: 8, content_size: 8, ..flat_entry(7) }, NOW);
    let plan = chunk_plan(fs.write_begin(7, 2, false, vec![9, 9], T0));
    assert!(matches!(fs.write_chunk(&plan, 0), ChunkWrite::ReadFirst { .. }));
    fs.write_chunk_over(&plan, 0, None);
    fs.write_finish(&plan, T0);
    assert_eq!(read_back(&mut fs, 7, 0, 8), Ok(vec![0, 0, 9, 9, 0, 0, 0, 0]));
}

#[test]
fn appending_write_starts_at_the_end() {
    let mut fs = small_fs(8);
    fs.cache.insert(flat_entry(7), NOW);
    write_all(&mut fs, 7, 0, &[1; 5], &[]);
    assert_eq!(fs.write_position(7, 0, true, NOW), Some(5));
    assert_eq!(fs.write_position(7, 2, false, NOW), Some(2));
    assert_eq!(fs.write_position(8, 2, true, NOW), None);
    let plan = chunk_plan(fs.write_begin(7, 0, true, vec![2; 5], T0));
    assert_eq!((plan.offset, plan.first_chunk, plan.last_chunk), (5, 0, 1));
}

#[test]
fn unknown_file_cannot_be_written_or_read() {
    let mut fs = small_fs(8);
    assert!(matches!(
        fs.write_begin(7, 0, false, vec![1], T0),
        WriteStep::Fail { errno: ENOENT }
    ));
    assert_eq!(read_back(&mut fs, 7, 0, 8), Err(ENOENT));
}

#[test]
fn striped_file_is_bounded_by_its_units() {
    let mut fs = small_fs(8);
    let unit =
        CachedFileChunk { offset: 0, size: 0, mtime: 0, needle_id: 100, volume_id: 4, crc32: 0 };
    fs.cache.insert(
        CachedEntry {
            placement: Some(Placement::Stripe { stripe_size: 16, stripe_count: 1 }),
            chunks: vec![unit],
            ..make_blank(7, 1, "s", NOW)
        },
        NOW,
    );
    assert!(matches!(
        fs.write_begin(7, 10, false, vec![1; 7], T0),
        WriteStep::Fail { errno: EFBIG }
    ));
    write_all(&mut fs, 7, 4, &[5; 12], &[]);
    assert_eq!(read_back(&mut fs, 7, 4, 12), Ok(vec![5; 12]));
    let job = send_job(fs.flush_begin(7, NOW));
    let needles: Vec<(u64, u64)> = job.items.iter().map(|i| (i.volume_id, i.file_key)).collect();
    assert_eq!(needles, vec![(4, 100), (4, 101)]);
}

#[test]
fn small_file_stays_in_its_buffer() {
    let mut fs = small_fs(8);
    fs.cache.insert(make_blank(7, 1, "f", NOW), NOW);
    assert!(matches!(
        fs.write_begin(7, 2, false, vec![1, 2, 3], T0),
        WriteStep::Done { written: 3 }
    ));
    assert_eq!(read_back(&mut fs, 7, 0, 100), Ok(vec![0, 0, 1, 2, 3]));
    assert_eq!(fs.cache.peek_inode(7).unwrap().size, 5);
    assert!(fs.inline_buffers.get(&7).unwrap().dirty);
}

#[test]
fn unpinned_small_file_is_brought_to_the_server_at_once() {
    let mut fs = small_fs(8);
    fs.cache.insert(make_blank(7, 1, "f", NOW), NOW);
    fs.inline_buffers.insert(7, InlineBuffer::default());
    assert!(matches!(
        fs.write_begin(7, 0, false, vec![1], T0),
        WriteStep::SyncInline { written: 1 }
    ));
    assert_eq!(fs.cache.get_entry_state(7), Some(EntryState::Flushing));
    fs.write_inline_synced(7, false, NOW);
    assert_eq!(fs.cache.get_entry_state(7), Some(EntryState::Dirty));
}

#[test]
fn file_that_outgrows_its_buffer_moves_to_a_volume() {
    let mut fs = small_fs(16_384);
    fs.cache.insert(make_blank(7, 1, "f", NOW), NOW);
    fs.cache.pin_inode(7);
    fs.write_begin(7, 0, false, vec![1, 2], T0);
    let (merged, size) = match fs.write_begin(7, 2, false, vec![3; 8192], T0) {
        WriteStep::Migrate { merged, new_size } => (merged, new_size),
        other => panic!("{:?}", other),
    };
    assert_eq!((merged.len(), size), (8194, 8194));
    assert_eq!(fs.write_migrated(7, merged.clone(), size, None, T0), Err(EFBIG));
    assert_eq!(fs.inline_buffers.get(&7).unwrap().data, vec![1, 2]);
    assert_eq!(fs.write_migrated(7, merged.clone(), size, Some((5, 60)), T0), Ok(()));
    assert!(!fs.inline_buffers.contains_key(&7));
    assert_eq!(read_back(&mut fs, 7, 0, 8194), Ok(merged));
    let job = send_job(fs.flush_begin(7, NOW));
    assert_eq!((job.items[0].volume_id, job.items[0].file_key), (5, 60));
}

#[test]
fn flush_sends_the_dirty_chunks() {
    let mut fs = small_fs(8);
    fs.cache.insert(flat_entry(7), NOW);
    write_all(&mut fs, 7, 0, &[1; 12], &[]);
    assert!(fs.has_dirty_for_inode(7));
    assert_eq!(fs.all_dirty_inodes(), vec![7]);
    assert!(fs.take_has_dirty());
    assert!(!fs.take_has_dirty());
    let job = send_job(fs.flush_begin(7, NOW));
    assert_eq!(job.dirty, vec![0, 1]);
    assert_eq!(job.volume, Some(3));
    assert!(job.stuck.is_empty());
    assert_eq!(job.items.len(), 2);
    assert_eq!(job.items[1].file_key, 501);
    assert_eq!(job.items[1].offset, 8);
    assert_eq!(&job.items[1].data[..], &[1u8; 4][..]);
    assert_eq!(fs.cache.get_entry_state(7), Some(EntryState::Flushing));
    assert_eq!(fs.flush_finish(7, &job.items, &job.stuck, &vec![true, true], NOW), Ok(()));
    assert_eq!(fs.cache.get_entry_state(7), Some(EntryState::Clean));
    assert!(!fs.chunk_cache.has_dirty_chunks(7));
    // The list has the checksums of what was sent.
    let e = fs.cache.peek_inode(7).unwrap();
    assert_eq!(e.chunks[0].crc32, crc32fast::hash(&[1u8; 8]));
    assert!(matches!(fs.flush_begin(7, NOW), FlushStep::Finished { result: Ok(()) }));
}

#[test]
fn refused_chunks_wait_for_the_next_flush() {
    let mut fs = small_fs(8);
    fs.cache.insert(flat_entry(7), NOW);
    write_all(&mut fs, 7, 0, &[1; 12], &[]);
    let job = send_job(fs.flush_begin(7, NOW));
    assert_eq!(fs.flush_finish(7, &job.items, &job.stuck, &vec![true, false], NOW), Err(EIO));
    assert_eq!(fs.cache.get_entry_state(7), Some(EntryState::Dirty));
    assert!(fs.dirty.is_dirty(7, 1));
    assert!(!fs.dirty.is_dirty(7, 0));
    assert!(!fs.chunk_cache.get(7, 0).unwrap().dirty);
    assert!(fs.chunk_cache.get(7, 8).unwrap().dirty);
    let again = send_job(fs.flush_begin(7, NOW));
    assert_eq!(again.dirty, vec![1]);
    assert_eq!(fs.flush_abort(7, &again.dirty), Err(EIO));
    assert!(fs.has_dirty_for_inode(7));
    // Whatever the servers answered, the data is still there.
    assert_eq!(read_back(&mut fs, 7, 0, 12), Ok(vec![1; 12]));
}

#[test]
fn chunk_without_a_place_waits_on() {
    let mut fs = small_fs(8);
    fs.cache.insert(
        CachedEntry {
            placement: Some(Placement::Stripe { stripe_size: 8, stripe_count: 1 }),
            chunks: vec![CachedFileChunk {
                offset: 0,
                size: 0,
                mtime: 0,
                needle_id: 100,
                volume_id: 4,
                crc32: 0,
            }],
            ..make_blank(7, 1, "s", NOW)
        },
        NOW,
    );
    fs.chunk_cache.put(7, 0, vec![1u8; 8].into(), 0, 0);
    fs.chunk_cache.put(7, 8, vec![2u8; 8].into(), 0, 0);
    fs.mark_dirty(7, 0);
    fs.mark_dirty(7, 1);
    fs.mark_dirty(7, 1_048_576);
    let job = send_job(fs.flush_begin(7, NOW));
    assert_eq!(job.items.len(), 1);
    assert_eq!(job.stuck, vec![1, 1_048_576]);
    assert_eq!(fs.flush_finish(7, &job.items, &job.stuck, &vec![true], NOW), Err(EIO));
    assert!(!fs.dirty.is_dirty(7, 0));
    assert!(fs.dirty.is_dirty(7, 1));
    assert!(fs.dirty.is_dirty(7, 1_048_576));
    assert!(fs.chunk_cache.get(7, 8).unwrap().dirty);
}

#[test]
fn unanswered_chunk_counts_as_refused() {
    let mut fs = small_fs(8);
    fs.cache.insert(flat_entry(7), NOW);
    write_all(&mut fs, 7, 0, &[1; 12], &[]);
    let job = send_job(fs.flush_begin(7, NOW));
    assert_eq!(fs.flush_finish(7, &job.items, &job.stuck, &vec![true], NOW), Err(EIO));
    assert!(fs.dirty.is_dirty(7, 1));
}

#[test]
fn flush_of_an_unplaced_file_fails() {
    let mut fs = small_fs(8);
    fs.cache.insert(make_blank(7, 1, "f", NOW), NOW);
    fs.mark_dirty(7, 0);
    assert!(matches!(fs.flush_begin(7, NOW), FlushStep::Finished { result: Err(_) }));
    assert!(fs.has_dirty_for_inode(7));
    fs.mark_dirty(8, 0);
    assert!(matches!(fs.flush_begin(8, NOW), FlushStep::Finished { result: Err(_) }));
}

#[test]
fn missing_chunks_are_listed_for_a_read() {
    let mut fs = small_fs(8);
    fs.cache.insert(CachedEntry { size: 20, content_size: 20, ..flat_entry(7) }, NOW);
    let (plan, lease) = flat_plan(fs.read_begin(7, 10, 4, NOW));
    assert_eq!((plan.offset, plan.end), (4, 14));
    assert_eq!(lease, Some((0, 1)));
    let missing: Vec<(u64, u64, u64)> =
        plan.missing.iter().map(|m| (m.idx, m.offset, m.size)).collect();
    assert_eq!(missing, vec![(0, 0, 8), (1, 8, 8), (2, 16, 4)]);
    let needle = fs.flat_target(&plan, 1);
    assert_eq!((needle.volume_id, needle.needle_id), (3, 501));
    for i in 0..3 {
        let data = vec![i as u8 + 1; plan.missing[i].size as usize];
        assert_eq!(fs.flat_chunk_read(&plan, i, Ok(data)), ChunkStep::Stored);
    }
    assert_eq!(
        fs.copy_out(7, plan.offset, plan.end, None),
        Ok(vec![1, 1, 1, 1, 2, 2, 2, 2, 2, 2])
    );
}

#[test]
fn missing_needle_is_a_hole_or_waits_for_a_flush() {
    let mut fs = small_fs(8);
    let replica =
        CachedFileChunk { offset: 8, size: 8, mtime: 0, needle_id: 70, volume_id: 9, crc32: 0 };
    fs.cache.insert(
        CachedEntry {
            size: 24,
            content_size: 24,
            replica_chunks: vec![replica],
            ..flat_entry(7)
        },
        NOW,
    );
    let (plan, _) = flat_plan(fs.read_begin(7, 24, 0, NOW));
    let lost = || Err("needle not found".to_string());
    assert_eq!(fs.flat_chunk_read(&plan, 0, lost()), ChunkStep::Deferred);
    assert_eq!(fs.flat_deferred(&plan, 0), ChunkStep::Stored);
    assert_eq!(fs.copy_out(7, 0, 8, None), Ok(vec![0; 8]));
    fs.mark_dirty(7, 2);
    assert_eq!(fs.flat_chunk_read(&plan, 2, lost()), ChunkStep::Deferred);
    match fs.flat_deferred(&plan, 2) {
        ChunkStep::FlushThenRead { needle } => {
            assert_eq!((needle.volume_id, needle.needle_id), (3, 502));
        }
        other => panic!("{:?}", other),
    }
    match fs.flat_chunk_read(&plan, 1, Err("timeout".to_string())) {
        ChunkStep::TryReplica { needle } => {
            assert_eq!((needle.volume_id, needle.needle_id), (9, 70));
        }
        other => panic!("{:?}", other),
    }
    assert_eq!(
        fs.flat_chunk_read(&plan, 2, Err("timeout".to_string())),
        ChunkStep::Fail { errno: EIO }
    );
}

#[test]
fn read_beyond_the_end_is_empty() {
    let mut fs = small_fs(8);
    fs.cache.insert(CachedEntry { size: 20, content_size: 20, ..flat_entry(7) }, NOW);
    assert_eq!(read_back(&mut fs, 7, 20, 5), Ok(Vec::new()));
}

#[test]
fn copy_fails_where_a_chunk_is_missing() {
    let fs = small_fs(8);
    assert_eq!(fs.copy_out(7, 0, 4, None), Err(EIO));
    assert_eq!(fs.copy_out(7, 4, 4, None), Ok(Vec::new()));
}

#[test]
fn damaged_replica_is_not_served() {
    let mut fs = small_fs(8);
    let chunk = CachedFileChunk {
        offset: 0,
        size: 4,
        mtime: 0,
        needle_id: 900,
        volume_id: 4,
        crc32: crc32fast::hash(b"good"),
    };
    fs.cache.insert(
        CachedEntry { size: 4, content_size: 4, chunks: vec![chunk], ..flat_entry(7) },
        NOW,
    );
    let (plan, _) = flat_plan(fs.read_begin(7, 4, 0, NOW));
    // The primary copy may have been recoded since; a replica may not.
    assert_eq!(
        fs.replica_read(&plan, 0, Some(b"evil".to_vec())),
        ChunkStep::Fail { errno: EIO }
    );
    assert!(fs.chunk_cache.get(7, 0).is_none());
    assert_eq!(fs.replica_read(&plan, 0, Some(b"good".to_vec())), ChunkStep::Stored);
    assert_eq!(fs.copy_out(7, 0, 4, None), Ok(b"good".to_vec()));
}

#[test]
fn erasure_groups_are_joined_from_their_data_shards() {
    let fs = small_fs(8);
    let all = vec![Some(vec![1u8, 2]), Some(vec![3u8]), None];
    match fs.ec_decide(2, &all) {
        EcStep::Complete { data } => assert_eq!(data, vec![1, 2, 3]),
        other => panic!("{:?}", other),
    }
    let lost = vec![Some(vec![1u8, 2]), None, Some(vec![9u8])];
    assert!(matches!(fs.ec_decide(2, &lost), EcStep::Decode));
    let gone = vec![None, None, Some(vec![9u8])];
    assert!(matches!(fs.ec_decide(2, &gone), EcStep::Fail { errno: EIO }));
}

#[test]
fn erasure_coded_file_asks_for_its_groups() {
    let mut fs = small_fs(1_048_576);
    let shard =
        CachedFileChunk { offset: 0, size: 1, mtime: 0, needle_id: 1, volume_id: 1, crc32: 0 };
    fs.cache.insert(
        CachedEntry {
            size: 100,
            content_size: 100,
            reliability: Reliability::EC { data: 2, parity: 1 },
            chunks: vec![shard; 3],
            ..flat_entry(7)
        },
        NOW,
    );
    match fs.read_begin(7, 10, 0, NOW) {
        ReadStep::Erasure { ec } => {
            assert_eq!((ec.first_group, ec.end_group), (0, 1));
            assert_eq!((ec.data_shards, ec.parity_shards), (2, 1));
            assert!(!fs.ec_group_cached(&ec, 0));
            fs.ec_store_group(&ec, 0, &vec![6u8; 100]);
            assert!(fs.ec_group_cached(&ec, 0));
            assert_eq!(fs.ec_finish(&ec), Ok(vec![6u8; 10]));
        }
        other => panic!("{:?}", other),
    }
}

#[test]
fn full_cache_holds_writers_back() {
    let mut fs = small_fs(8);
    fs.chunk_cache = ChunkCache::with_max_bytes(8, 100);
    fs.cache.insert(flat_entry(7), NOW);
    assert!(!fs.backpressure_due());
    write_all(&mut fs, 7, 0, &[1; 88], &[]);
    assert!(fs.backpressure_due());
    assert_eq!(fs.backpressure_next(0), Backpressure::Flush);
    assert_eq!(fs.backpressure_next(64), Backpressure::GiveUp);
    fs.chunk_cache.clear_dirty(7);
    fs.backpressure_evict();
    assert_eq!(fs.chunk_cache.current_bytes(), 64);
    assert_eq!(fs.backpressure_next(0), Backpressure::Proceed);
}

fn filer_entry(ino: u64, size: u64, chunks: Vec<FileChunk>) -> FilerEntry {
    FilerEntry {
        name: "flat".to_string(),
        attributes: Some(FilerAttrs {
            ino,
            mode: 0o100644,
            nlink: 1,
            uid: 0,
            gid: 0,
            size,
            atime: 1,
            mtime: 2,
            ctime: 3,
        }),
        chunks,
        replica_chunks: Vec::new(),
        symlink_target: String::new(),
        hard_link_id: String::new(),
        hard_link_counter: 0,
        content_size: size,
        disk_size: size,
        generation: 0,
    }
}

#[test]
fn open_asks_the_server_unless_the_lease_is_held() {
    let mut fs = small_fs(8);
    assert!(matches!(fs.open_begin(7, false, NOW), OpenStep::Fetch));
    let fresh = filer_entry(7, 5, Vec::new());
    assert_eq!(fs.open_fetched(7, 1, &fresh, NOW), Ok(()));
    assert_eq!(fs.cache.peek_inode(7).unwrap().size, 5);
    assert!(fs.cache.is_pinned(7));
    let mut other = small_fs(8);
    other.cache.insert(flat_entry(7), NOW);
    assert!(matches!(other.open_begin(7, true, NOW), OpenStep::Ready));
    let mut third = small_fs(8);
    third.cache.insert(flat_entry(7), NOW);
    assert!(matches!(third.open_begin(7, false, NOW), OpenStep::Refresh { .. }));
}

#[test]
fn open_flags_tell_readers_from_writers() {
    assert!(!opened_for_writing(0));
    assert!(opened_for_writing(1));
    assert!(opened_for_writing(2));
    assert!(!opened_for_writing(0x8000));
}

#[test]
fn last_close_gives_the_cap_back() {
    let mut fs = small_fs(8);
    fs.cache.insert(flat_entry(7), NOW);
    assert!(matches!(fs.open_begin(7, true, NOW), OpenStep::Ready));
    assert!(fs.is_open(7));
    assert!(fs.acquire_cap_on_open(7, true));
    fs.cap_granted(7, ClientCap::new(1, "t".into(), CapSet::exclusive(), 1, true, 1));
    assert!(!fs.release_begin(7));
    let closed = fs.release_chunks(7, true, true, NOW);
    assert!(closed.result.is_ok());
    assert!(closed.cap.is_some());
    assert!(!fs.is_open(7));
    assert!(!fs.cache.is_pinned(7));
    assert!(fs.cache.get_cap(7).is_none());
    assert_eq!(closed.lease, LeaseRelease::All { volume_id: 3 });
}

#[test]
fn failed_flush_keeps_a_closed_file_pinned() {
    let mut fs = small_fs(8);
    fs.cache.insert(flat_entry(7), NOW);
    fs.open_begin(7, true, NOW);
    let closed = fs.release_chunks(7, false, false, NOW);
    assert!(closed.result.is_err());
    assert!(fs.cache.is_pinned(7));
}

fn synced_buffer(data: &[u8], original_len: usize) -> InlineBuffer {
    InlineBuffer {
        data: data.to_vec(),
        dirty: true,
        original_len,
        modified_in_place: false,
        needs_refresh: false,
    }
}

#[test]
fn grown_buffer_sends_what_was_appended() {
    let mut fs = small_fs(8);
    fs.cache.insert(make_blank(7, 1, "f", NOW), NOW);
    fs.inline_buffers.insert(7, synced_buffer(&[1, 2, 3], 2));
    let (mut st, action) = fs.inline_sync_start(7);
    match action {
        InlineSyncAction::Send { data, size, is_append } => {
            assert_eq!((data, size, is_append), (vec![3], 0, true));
        }
        other => panic!("{:?}", other),
    }
    assert!(matches!(fs.inline_sync_reply(&mut st, false), InlineSyncAction::Resend { .. }));
    assert!(matches!(
        fs.inline_sync_reply(&mut st, true),
        InlineSyncAction::Done { synced: true }
    ));
    let b = fs.inline_buffers.get(&7).unwrap();
    assert!(!b.dirty);
    assert_eq!(b.original_len, 3);
}

#[test]
fn update_is_given_up_after_five_attempts() {
    let mut fs = small_fs(8);
    fs.cache.insert(make_blank(7, 1, "f", NOW), NOW);
    fs.inline_buffers.insert(7, synced_buffer(&[1, 2, 3], 0));
    let (mut st, _) = fs.inline_sync_start(7);
    let mut sent = 1;
    while let InlineSyncAction::Resend { .. } = fs.inline_sync_reply(&mut st, false) {
        sent += 1;
    }
    assert_eq!(sent, 5);
    assert!(fs.inline_buffers.get(&7).unwrap().dirty);
}

#[test]
fn buffers_know_how_to_sync() {
    let mut b = synced_buffer(&[1, 2, 3], 3);
    b.dirty = false;
    assert_eq!(b.plan_sync(), SyncPlan::Clean);
    b.write_at(3, &[4]);
    assert_eq!(b.plan_sync(), SyncPlan::Append);
    assert_eq!(b.data_to_sync(), vec![4]);
    b.write_at(0, &[9]);
    assert_eq!(b.plan_sync(), SyncPlan::Overwrite);
    assert_eq!(b.data_to_sync(), vec![9, 2, 3, 4]);
    assert_eq!(b.read_at(1, 2), vec![2, 3]);
    assert_eq!(b.read_at(9, 2), Vec::new());
    b.truncate(2);
    assert_eq!(b.data, vec![9, 2]);
}

#[test]
fn inline_data_of_a_small_file_is_fetched() {
    let mut fs = small_fs(8);
    fs.cache.insert(CachedEntry { size: 3, content_size: 3, ..make_blank(7, 1, "f", NOW) }, NOW);
    assert!(matches!(fs.read_begin(7, 10, 0, NOW), ReadStep::FetchInline));
    let attr = MetadataAttr {
        inode: 7,
        file_type: 8,
        mode: 0o644,
        uid: 0,
        gid: 0,
        size: 3,
        nlink: 1,
        atime: 0,
        mtime: 0,
        ctime: 0,
        symlink_target: None,
        volume_id: None,
        file_key: None,
        chunks: Vec::new(),
        placement: None,
        reliability: Reliability::SingleReplica,
        replica_chunks: Vec::new(),
        shard_id: None,
        is_inline: true,
        inline_max_size: Some(4096),
        inline_data: Some(vec![7, 8, 9]),
        dir_version: 0,
        dentry_lease_ttl_ms: 0,
    };
    assert_eq!(fs.read_inline_fetched(7, 2, 1, Some(attr)), Ok(vec![8, 9]));
    assert_eq!(read_back(&mut fs, 7, 0, 10), Ok(vec![7, 8, 9]));
    assert_eq!(*fs.inline_max_sizes.get(&7).unwrap(), 4096);
}

#[test]
fn open_file_outlives_an_epoch() {
    let mut fs = small_fs(8);
    fs.cache.insert(flat_entry(7), NOW);
    assert!(matches!(fs.open_begin(7, true, NOW), OpenStep::Ready));
    write_all(&mut fs, 7, 0, &[1; 12], &[]);
    let job = send_job(fs.flush_begin(7, NOW));
    assert_eq!(fs.flush_finish(7, &job.items, &job.stuck, &vec![true, true], NOW), Ok(()));
    assert!(fs.check_cache_epoch(9, NOW));
    assert_eq!(fs.cache.get_entry_state(7), Some(EntryState::Stale));
    assert_eq!(read_back(&mut fs, 7, 0, 12), Ok(vec![1; 12]));
    write_all(&mut fs, 7, 12, &[2; 4], &[]);
    let job = send_job(fs.flush_begin(7, NOW));
    assert_eq!(job.dirty, vec![1]);
    assert_eq!(fs.flush_finish(7, &job.items, &job.stuck, &vec![true], NOW), Ok(()));
    let update = fs.sync_request(7, 3, NOW).unwrap();
    assert_eq!((update.size, update.shard_id), (16, 3));
    let closed = fs.release_chunks(7, true, true, NOW);
    assert!(closed.count_down);
    assert_eq!(closed.lease, LeaseRelease::All { volume_id: 3 });
}

#[test]
fn stale_open_file_is_closed_with_its_leases() {
    let mut fs = small_fs(8);
    fs.cache.insert(flat_entry(7), NOW);
    fs.open_begin(7, true, NOW);
    fs.check_cache_epoch(9, NOW);
    assert!(matches!(fs.open_begin(7, false, NOW), OpenStep::Refresh { .. }));
    fs.release_chunks(7, true, true, NOW);
    let closed = fs.release_chunks(7, true, true, NOW);
    assert!(closed.count_down);
    assert_eq!(closed.lease, LeaseRelease::All { volume_id: 3 });
    assert!(!fs.cache.is_pinned(7));
}

#[test]
fn closed_file_is_fetched_again_after_an_epoch() {
    let mut fs = small_fs(8);
    let chunk =
        CachedFileChunk { offset: 0, size: 4, mtime: 0, needle_id: 500, volume_id: 3, crc32: 0 };
    fs.cache.insert(
        CachedEntry { size: 4, content_size: 4, chunks: vec![chunk], ..flat_entry(7) },
        NOW,
    );
    fs.chunk_cache.put(7, 0, vec![1u8; 4].into(), 0, 0);
    fs.chunk_cache.clear_dirty(7);
    fs.check_cache_epoch(9, NOW);
    assert!(matches!(fs.read_begin(7, 4, 0, NOW), ReadStep::Refetch));
    match fs.write_begin(7, 0, false, vec![5], T0) {
        WriteStep::Refetch { data } => assert_eq!(data, vec![5]),
        other => panic!("{:?}", other),
    }
    assert!(fs.refetch_due(7, NOW));
    let listed =
        FileChunk { offset: 0, size: 6, mtime: 0, needle_id: 501, volume_id: 3, crc32: 0 };
    fs.refetched(7, 1, &filer_entry(7, 6, vec![listed]), NOW);
    assert!(!fs.refetch_due(7, NOW));
    assert_eq!(fs.cache.get_inode(7, NOW).unwrap().size, 6);
    // The server lists another chunk, so the cached data is gone.
    assert!(!fs.chunk_cache.has_chunks(7));
    assert!(matches!(fs.read_begin(7, 6, 0, NOW), ReadStep::Flat { .. }));
    assert!(!fs.refetch_due(8, NOW));
}

#[test]
fn new_inline_file_starts_clean() {
    let mut fs = small_fs(8);
    let attr = MetadataAttr {
        inode: 7,
        file_type: 8,
        mode: 0o644,
        uid: 0,
        gid: 0,
        size: 0,
        nlink: 1,
        atime: 0,
        mtime: 0,
        ctime: 0,
        symlink_target: None,
        volume_id: None,
        file_key: None,
        chunks: Vec::new(),
        placement: None,
        reliability: Reliability::SingleReplica,
        replica_chunks: Vec::new(),
        shard_id: None,
        is_inline: true,
        inline_max_size: None,
        inline_data: None,
        dir_version: 0,
        dentry_lease_ttl_ms: 0,
    };
    assert_eq!(fs.create_finish(&attr, 1, "n", 0o644, 0, 0, T0).unwrap().inode, 7);
    {
        let b = fs.inline_buffers.get(&7).unwrap();
        assert!(b.data.is_empty() && !b.dirty && b.original_len == 0 && !b.modified_in_place);
    }
    assert!(fs.cache.is_pinned(7));
    assert!(fs.is_open(7));
    fs.write_begin(7, 0, false, vec![1], T0);
    assert!(fs.inline_buffers.get(&7).unwrap().dirty);
}

#[test]
fn metadata_is_synced_after_a_flushed_write() {
    assert!(close_syncs(true, 1));
    assert!(!close_syncs(true, 0));
    assert!(!close_syncs(false, 2));
}

#[test]
fn pins_are_counted() {
    let mut e = flat_entry(7);
    e.pin();
    e.pin();
    assert_eq!(e.hold, HoldState::Pinned { open_count: 2 });
    assert!(!e.unpin());
    assert!(e.unpin());
    assert_eq!(e.hold, HoldState::Unpinned);
    assert!(e.try_transition(EntryState::Clean));
    assert!(e.try_transition(EntryState::Dirty));
    assert!(!e.try_transition(EntryState::Stale));
}
