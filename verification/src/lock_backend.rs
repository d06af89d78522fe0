//! What a range lease on a file needs to know.

use crate::meta_model::MetaView;
use crate::metadata_cache::MetadataCache;
use crate::wire::{decimal, to_decimal};
use vstd::prelude::*;
use vstd::string::*;

verus! {

/// How long the answer to a recall may take, in milliseconds: less than the
/// server waits for it.
pub const RECALL_BUDGET_MS: u64 = 1750;

/// The volume of a cached flat file.
pub open spec fn cached_volume(v: MetaView, inode: u64, now_ms: u64) -> Option<u64> {
    match v.answer(inode, now_ms) {
        Some(e) => match e.fid {
            Some(f) => Some(f.volume_id.0),
            None => None,
        },
        None => None,
    }
}

/// The volume that a file's data lies on, out of the metadata cache. An entry
/// that is missing, out of date, or without a file id is an error: the caller
/// has to refresh it first.
pub fn volume_id_from_cache(cache: &mut MetadataCache, inode: u64, now_ms: u64) -> (r: Result<
    u64,
    String,
>)
    requires
        old(cache).wf(),
    ensures
        final(cache).wf(),
        final(cache)@ == old(cache)@.fetched(inode, now_ms),
        match cached_volume(old(cache)@, inode, now_ms) {
            Some(v) => r == Ok::<u64, String>(v),
            None => r matches Err(m) && m@ == "no cached volume_id for inode "@ + decimal(
                inode as nat,
            ),
        },
{
    let volume: Option<u64> = match cache.get_inode(inode, now_ms) {
        Some(e) => match e.fid {
            Some(f) => Some(f.volume_id.0),
            None => None,
        },
        None => None,
    };
    match volume {
        Some(v) => Ok(v),
        None => {
            let mut m: String = "no cached volume_id for inode ".to_owned();
            let n: String = to_decimal(inode);
            m.append(n.as_str());
            Err(m)
        },
    }
}

/// A recalled cap is acknowledged only once its dirty data is safe: an
/// acknowledgement without a flush would lose it.
pub fn acknowledges(needs_flush: bool, flushed: bool) -> (r: bool)
    ensures
        r == (needs_flush ==> flushed),
{
    !needs_flush || flushed
}

} // verus!
