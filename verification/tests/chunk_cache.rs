use bytes::Bytes;
use powerfs_fuse::chunk_cache::{ChunkCache, ChunkData};

#[test]
fn test_chunk_cache_basic() {
    let mut cache = ChunkCache::new(1024, 10);
    let inode = 100;

    assert!(cache.get(inode, 0).is_none());

    cache.put(inode, 0, vec![0u8; 1024].into(), 1234567890, 0);
    let chunk = cache.get(inode, 0).unwrap();
    assert_eq!(chunk.data.len(), 1024);
    assert_eq!(chunk.offset, 0);
    assert_eq!(chunk.mtime, 1234567890);
}

#[test]
fn test_chunk_cache_remove() {
    let mut cache = ChunkCache::new(1024, 10);
    let inode = 100;

    cache.put(inode, 0, vec![0u8; 1024].into(), 1234567890, 0);
    cache.put(inode, 1024, vec![1u8; 1024].into(), 1234567891, 1);

    assert!(cache.get(inode, 0).is_some());
    assert!(cache.get(inode, 1024).is_some());

    cache.remove(inode);

    assert!(cache.get(inode, 0).is_none());
    assert!(cache.get(inode, 1024).is_none());
}

#[test]
fn test_chunk_cache_prefetch() {
    let mut cache = ChunkCache::new(1024, 10);
    let inode = 100;

    cache.put(inode, 0, vec![0u8; 1024].into(), 1234567890, 0);

    let missing = cache.prefetch(inode, 0, 3072);
    assert_eq!(missing.len(), 2);
    assert_eq!(missing[0], (1024, 1024));
    assert_eq!(missing[1], (2048, 1024));
}

#[test]
fn test_chunk_index() {
    let cache = ChunkCache::new(1024, 10);

    assert_eq!(cache.get_chunk_index(0), 0);
    assert_eq!(cache.get_chunk_index(512), 0);
    assert_eq!(cache.get_chunk_index(1024), 1);
    assert_eq!(cache.get_chunk_index(1536), 1);
    assert_eq!(cache.get_chunk_index(2048), 2);

    assert_eq!(cache.get_chunk_offset(0), 0);
    assert_eq!(cache.get_chunk_offset(512), 512);
    assert_eq!(cache.get_chunk_offset(1024), 0);
    assert_eq!(cache.get_chunk_offset(1536), 512);
}

#[test]
fn test_chunk_cache_lru_eviction() {
    // Room for two chunks of 1024 bytes.
    let mut cache = ChunkCache::with_max_bytes(1024, 2048);
    let inode = 100;

    cache.put(inode, 0, vec![0u8; 1024].into(), 1000, 0);
    cache.put(inode, 1024, vec![1u8; 1024].into(), 2000, 1);
    assert_eq!(cache.current_bytes(), 2048);

    // As after a flush.
    cache.clear_dirty(inode);

    // The third chunk makes the oldest one go.
    cache.put(inode, 2048, vec![2u8; 1024].into(), 3000, 2);

    assert!(cache.get(inode, 0).is_none(), "oldest chunk should be evicted");
    assert!(cache.get(inode, 1024).is_some());
    assert!(cache.get(inode, 2048).is_some());

    assert!(cache.current_bytes() <= 2048);
}

#[test]
fn test_chunk_cache_remove_after_truncate() {
    let mut cache = ChunkCache::new(1024, 100);
    let inode = 100;

    cache.put(inode, 0, vec![0u8; 1024].into(), 1000, 0);
    cache.put(inode, 1024, vec![1u8; 1024].into(), 1000, 1);
    cache.put(inode, 2048, vec![2u8; 1024].into(), 1000, 2);
    cache.put(inode, 3072, vec![3u8; 1024].into(), 1000, 3);

    cache.remove_after(inode, 2048);

    assert!(cache.get(inode, 0).is_some(), "chunk at 0 should remain");
    assert!(cache.get(inode, 1024).is_some(), "chunk at 1024 should remain");
    assert!(cache.get(inode, 2048).is_none(), "chunk at 2048 should be removed");
    assert!(cache.get(inode, 3072).is_none(), "chunk at 3072 should be removed");
}

#[test]
fn test_chunk_cache_byte_tracking() {
    let mut cache = ChunkCache::with_max_bytes(1024, 10240);
    let inode = 100;

    assert_eq!(cache.current_bytes(), 0);

    cache.put(inode, 0, vec![0u8; 512].into(), 1000, 0);
    assert_eq!(cache.current_bytes(), 512);

    cache.put(inode, 1024, vec![1u8; 256].into(), 1000, 1);
    assert_eq!(cache.current_bytes(), 768);

    // Replace a chunk: 512 bytes become 1024.
    cache.put(inode, 0, vec![2u8; 1024].into(), 1000, 0);
    assert_eq!(cache.current_bytes(), 1280);

    cache.remove(inode);
    assert_eq!(cache.current_bytes(), 0);
}

#[test]
fn eviction_spares_dirty_chunks() {
    let mut cache = ChunkCache::with_max_bytes(1024, 2048);
    cache.put(7, 0, vec![1u8; 1024].into(), 1, 0);
    cache.put(7, 1024, vec![2u8; 1024].into(), 2, 0);
    cache.put(7, 2048, vec![3u8; 1024].into(), 3, 0);
    // Nothing may go, so the bound is passed.
    assert_eq!(cache.len(), 3);
    assert_eq!(cache.current_bytes(), 3072);
    assert_eq!(cache.dirty_chunks(), 3);
    assert_eq!(cache.dirty_bytes(), 3072);
}

#[test]
fn evict_clean_to_takes_the_oldest_first() {
    let mut cache = ChunkCache::with_max_bytes(1024, 10240);
    for i in 0..4u64 {
        cache.put(7, i * 1024, vec![i as u8; 1024].into(), 100 - i, 0);
    }
    cache.clear_dirty_for_chunks(7, &vec![1, 2, 3]);
    assert_eq!(cache.evict_clean_to(2048), 2048);
    assert!(cache.get(7, 0).is_some());
    assert!(cache.get(7, 1024).is_some());
    assert!(cache.get(7, 2048).is_none());
    assert!(cache.get(7, 3072).is_none());
}

#[test]
fn put_stores_the_bytes_and_get_returns_them() {
    let mut cache = ChunkCache::new(8, 10);
    cache.put(1, 17, Bytes::from(vec![5u8, 6, 7]), 9, 3);
    let c = cache.get(1, 23).unwrap();
    assert_eq!(c.data, Bytes::from(vec![5u8, 6, 7]));
    assert_eq!(c.offset, 16);
    assert_eq!(c.size, 8);
    assert_eq!(c.crc32, 3);
    assert!(c.dirty);
    assert!(cache.get(1, 24).is_none());
    assert!(cache.get(2, 17).is_none());
}

#[test]
fn modify_changes_a_cached_chunk_only() {
    let mut cache = ChunkCache::new(8, 10);
    assert!(!cache.modify(1, 0, |c: ChunkData| c));
    cache.put(1, 0, vec![1u8; 8].into(), 9, 0);
    cache.clear_dirty(1);
    assert!(cache.modify(1, 3, |c: ChunkData| ChunkData {
        data: Bytes::from(vec![2u8; 4]),
        ..c
    }));
    let c = cache.get(1, 0).unwrap();
    assert_eq!(c.data, Bytes::from(vec![2u8; 4]));
    assert!(c.dirty);
    assert_eq!(cache.current_bytes(), 4);
}

#[test]
fn truncate_shortens_the_last_chunk() {
    let mut cache = ChunkCache::new(1024, 100);
    cache.put(3, 0, vec![1u8; 1024].into(), 1, 0);
    cache.put(3, 1024, vec![2u8; 1024].into(), 1, 0);
    cache.put(3, 2048, vec![3u8; 1024].into(), 1, 0);
    cache.truncate_chunks(3, 1100);
    assert_eq!(cache.get(3, 0).unwrap().data.len(), 1024);
    assert_eq!(cache.get(3, 1024).unwrap().data.len(), 76);
    assert!(cache.get(3, 2048).is_none());
    assert_eq!(cache.current_bytes(), 1100);
}

#[test]
fn dirty_marks_come_and_go() {
    let mut cache = ChunkCache::new(1024, 100);
    cache.put(3, 0, vec![1u8; 10].into(), 1, 0);
    cache.put(3, 1024, vec![2u8; 20].into(), 1, 0);
    assert!(cache.has_dirty_chunks(3));
    assert!(!cache.has_dirty_chunks(4));
    cache.clear_dirty_for_chunks(3, &vec![0]);
    assert_eq!(cache.dirty_chunks(), 1);
    assert_eq!(cache.dirty_bytes(), 20);
    cache.clear_dirty(3);
    assert!(!cache.has_dirty_chunks(3));
    assert!(cache.has_chunks(3));
    cache.remove_inode_chunks(3);
    assert!(!cache.has_chunks(3));
    assert!(cache.is_empty());
}

#[test]
fn single_chunks_and_everything_can_be_dropped() {
    let mut cache = ChunkCache::with_defaults();
    assert_eq!(cache.chunk_size(), 1024 * 1024);
    cache.put(3, 0, vec![1u8; 10].into(), 1, 0);
    cache.put(3, 1024 * 1024, vec![1u8; 11].into(), 1, 0);
    cache.remove_chunk(3, 5);
    assert!(cache.get(3, 0).is_none());
    assert_eq!(cache.current_bytes(), 11);
    cache.clear();
    assert!(cache.is_empty());
    assert_eq!(cache.current_bytes(), 0);
}

#[test]
fn prefetch_of_an_empty_range_starts_at_the_first_chunk() {
    let cache = ChunkCache::new(1024, 10);
    assert_eq!(cache.prefetch(1, 0, 0), vec![(0, 1024)]);
    assert_eq!(cache.prefetch(1, 2048, 1024), Vec::new());
}
