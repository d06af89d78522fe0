use powerfs_fuse::entry::{CachedEntry, Fid, Now, VolumeId};
use powerfs_fuse::lock_backend::{acknowledges, volume_id_from_cache};
use powerfs_fuse::metadata_cache::MetadataCache;
use powerfs_fuse::records::make_blank;

const T0: Now = Now { mono_ms: 10_000, unix_secs: 1_700_000_000 };

#[test]
fn test_volume_id_from_cache_miss_returns_error() {
    let mut cache = MetadataCache::new(0, 0, T0);
    let err = volume_id_from_cache(&mut cache, 999, T0.mono_ms).unwrap_err();
    assert!(
        err.contains("no cached volume_id"),
        "expected descriptive error, got: {}",
        err
    );
    assert!(err.contains("999"), "error must mention the inode");
}

#[test]
fn volume_id_of_a_cached_file_is_found() {
    let mut cache = MetadataCache::new(0, 0, T0);
    let fid = Fid { volume_id: VolumeId(77), cookie: 0, file_key: 5 };
    cache.insert(CachedEntry { fid: Some(fid), ..make_blank(8, 1, "f", T0.mono_ms) }, T0.mono_ms);
    assert_eq!(volume_id_from_cache(&mut cache, 8, T0.mono_ms), Ok(77));
}

#[test]
fn unflushed_data_is_not_acknowledged() {
    assert!(acknowledges(false, false));
    assert!(acknowledges(true, true));
    assert!(!acknowledges(true, false));
}
