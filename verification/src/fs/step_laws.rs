//! What the steps of an operation and its small decisions promise.

use super::attrs::{xattr_fits, XattrReply};
use super::data_laws::{counts, law_last_chunk_is_found, unlisted};
use super::invalidate::upgraded_meta;
use super::name_laws::{answerable, listed_in_full, stands};
use super::names::{
    cursor_of, dots_of, page_listed, path_below, row_cached, row_offset_of, rows_listed,
};
use super::op_laws::law_marking_adds_one_chunk;
use super::open::{created, is_flat, known_size};
use super::read::{read_step, replica_step, ChunkStep, Needle, ReadStep};
use super::sync::{
    goes_on, inline_at_rest, round_record, round_started, shard_of, taken_by_server, update_taken,
    InlineSync,
};
use super::write::{migrated, write_offset};
use super::FsView;
use crate::admin_server::reply_text;
use crate::chunk_cache::{dirty_only, Chunks, ChunksView};
use crate::client_cap::{CapSet, CapView, RecallAction};
use crate::dirty::waiting_for;
use crate::entry::{EntryState, EntryView, HoldState, Now, ROOT_INODE};
use crate::fuse_app::servers_to_try;
use crate::inline::{
    created_buffer, fetched_buffer, InlineView, INLINE_HARD_LIMIT, MAX_SYNC_ROUNDS,
};
use crate::lock_backend::cached_volume;
use crate::meta_laws::{
    law_cleared_names_are_gone, law_removed_inode_is_gone, lemma_alter_wf, lemma_removed_wf,
};
use crate::meta_model::{child_named, lease_dropped, lemma_child_is_cached, MetaView};
use crate::metadata_cache::{capacity_or_default, fresh_cache};
use crate::names;
use crate::record_laws::law_paths_come_apart;
use crate::records::{MetadataAttr, MetadataDirEntry};
use crate::scan::{parsed_u16, ERANGE};
use crate::text::{leaf_of, parent_of, root_path};
use vstd::prelude::*;

verus! {

/// A read of a buffered file is answered from the buffer, with the bytes behind the
/// offset, as many as were asked for and are there.
pub proof fn law_buffered_reads_are_answered(
    fs: FsView,
    inode: u64,
    size: u32,
    offset: u64,
    e: EntryView,
    r: ReadStep,
    i: int,
)
    requires
        read_step(fs, inode, size, offset, e, r),
        fs.inline.contains_key(inode),
    ensures
        ({
            let b = fs.inline[inode].data;
            &&& r is Reply
            &&& offset <= b.len() && offset + size <= b.len() ==> r->data@.len() == size
            &&& offset <= b.len() < offset + size ==> r->data@.len() == b.len() - offset
            &&& offset > b.len() ==> r->data@.len() == 0
            &&& 0 <= i < r->data@.len() ==> r->data@[i] == b[offset + i]
        }),
{
}

/// A read of a file without a buffer answers nothing from the cache alone, unless the
/// file ends before the offset. A file without any chunk is asked of the server, and a
/// file on volumes gets a plan for just the bytes that were asked for, up to its end. A
/// read fails at once only where there is no place to read from.
pub proof fn law_reads_start_where_the_data_is(
    fs: FsView,
    inode: u64,
    size: u32,
    offset: u64,
    e: EntryView,
    r: ReadStep,
)
    requires
        read_step(fs, inode, size, offset, e, r),
        !fs.inline.contains_key(inode),
    ensures
        r == ReadStep::FetchInline <==> e.fid is None && e.chunks.len() == 0,
        r is Reply ==> r->data@.len() == 0,
        r is Reply && e.size > 0 ==> offset >= e.size,
        r is Fail && !(e.reliability is EC) ==> e.fid is None && e.placement is None,
        r is Flat ==> e.fid is Some && r->volume_id == e.fid->0.volume_id.0,
        r is Striped ==> e.fid is None && e.placement is Some,
        r is Erasure ==> e.reliability is EC,
        e.fid is Some && e.size > offset && !(e.reliability is EC) ==> r is Flat,
        e.fid is None && e.placement is Some && e.size > offset && e.chunks.len() > 0
            && !(e.reliability is EC) ==> r is Striped,
        r matches ReadStep::Flat { plan, volume_id, lease } ==> {
            &&& plan.inode == inode && plan.offset == offset && plan.entry@ == e
            &&& e.size > 0 && offset + size <= e.size ==> plan.end == offset + size
            &&& e.size > 0 && offset + size > e.size ==> plan.end == e.size
            &&& lease is Some <==> plan.missing@.len() > 0
        },
        r matches ReadStep::Striped { plan } ==> {
            &&& plan.inode == inode && plan.offset == offset && plan.entry@ == e
            &&& e.size > 0 && offset + size <= e.size ==> plan.end == offset + size
            &&& e.size > 0 && offset + size > e.size ==> plan.end == e.size
        },
{
}

/// After a failed read of a chunk the copy that is listed last at the offset is tried,
/// from its own needle; without a copy the read has failed.
pub proof fn law_failed_reads_try_the_copy(e: EntryView, offset: u64, j: int)
    ensures
        counts(e.replica_chunks, j) && e.replica_chunks[j].offset == offset ==> replica_step(e, offset)
            == (ChunkStep::TryReplica {
            needle: Needle {
                volume_id: e.replica_chunks[j].volume_id,
                needle_id: e.replica_chunks[j].needle_id,
            },
        }),
        unlisted(e.replica_chunks, offset) <==> !(replica_step(e, offset) is TryReplica),
        unlisted(e.replica_chunks, offset) ==> replica_step(e, offset) is Fail,
{
    law_last_chunk_is_found(e.replica_chunks, offset);
}

/// An update that the server took concerns one buffer, and leaves its bytes as they
/// are: it is clean unless it grew meanwhile, and then another round sends the rest, as
/// long as there are rounds.
pub proof fn law_taken_updates_keep_the_buffer(fs: FsView, st: InlineSync, k: u64)
    requires
        fs.inline.contains_key(st.inode),
        st.size <= usize::MAX,
    ensures
        ({
            let after = update_taken(fs, st);
            let grew = fs.inline[st.inode].data.len() > st.size;
            &&& after.inline.contains_key(k) == fs.inline.contains_key(k)
            &&& fs.inline.contains_key(k) ==> after.inline[k].data == fs.inline[k].data
            &&& k != st.inode && fs.inline.contains_key(k) ==> after.inline[k] == fs.inline[k]
            &&& after.inline[st.inode].dirty == (grew && fs.inline[st.inode].dirty)
            &&& st.is_append ==> after.inline[st.inode].original_len == st.size
            &&& after.meta == fs.meta && after.chunks == fs.chunks && after.waiting == fs.waiting
            &&& after.open == fs.open
            &&& goes_on(fs, st) ==> grew
            &&& grew && st.round == 0 ==> goes_on(fs, st)
            &&& st.round >= MAX_SYNC_ROUNDS ==> !goes_on(fs, st)
        }),
{
}

/// A round of a sync starts without touching the bytes of any buffer. It notes how long
/// the buffer is that it sends, and a buffer that turns out to be what the server has
/// is clean.
pub proof fn law_rounds_start_from_the_buffer(fs: FsView, st: InlineSync, k: u64)
    requires
        fs.inline.contains_key(st.inode),
        fs.inline[st.inode].data.len() <= u64::MAX,
    ensures
        ({
            let b = fs.inline[st.inode];
            let after = round_started(fs, st.inode);
            let rec = round_record(fs, st);
            let unchanged = b.data.len() == b.original_len && !b.modified_in_place;
            &&& after.inline.contains_key(k) == fs.inline.contains_key(k)
            &&& fs.inline.contains_key(k) ==> after.inline[k].data == fs.inline[k].data
            &&& k != st.inode && fs.inline.contains_key(k) ==> after.inline[k] == fs.inline[k]
            &&& after.inline[st.inode].dirty == (b.dirty && !unchanged)
            &&& after.meta == fs.meta && after.chunks == fs.chunks
            &&& rec.inode == st.inode && rec.round == st.round
            &&& b.dirty && !unchanged ==> rec.attempt == 1 && rec.size == b.data.len()
            &&& b.dirty && !unchanged ==> rec.is_append == (!b.modified_in_place && b.data.len()
                > b.original_len)
            &&& !b.dirty || unchanged ==> rec == st
        }),
{
}

/// Only the server's record has the data of a file exactly if the file has no file id,
/// no chunk and no buffer here.
pub proof fn law_data_at_rest_is_nowhere_else(fs: FsView, inode: u64, e: EntryView)
    ensures
        inline_at_rest(fs, inode, e) <==> !(e.fid is Some) && e.chunks.len() == 0
            && !fs.inline.contains_key(inode),
{
}

/// A page of a listing leaves the next one to start behind the last row that was taken,
/// and a listing from the beginning starts with nothing behind it.
pub proof fn law_pages_follow_each_other(
    fs: FsView,
    dir: u64,
    offset: u64,
    rows: Seq<MetadataDirEntry>,
    taken: int,
    now_ms: u64,
    next: u64,
)
    requires
        0 <= taken <= rows.len(),
    ensures
        ({
            let after = page_listed(fs, dir, offset, rows, taken, now_ms);
            &&& taken > 0 && next != 0 ==> cursor_of(after.cursors, dir, next) == rows[taken
                - 1].name@
            &&& taken == 0 ==> after.cursors == fs.cursors
            &&& cursor_of(after.cursors, dir, 0) == Seq::<char>::empty()
        }),
{
    lemma_rows_keep_cursors(fs, dir, rows, taken, now_ms);
}

proof fn lemma_rows_keep_cursors(
    fs: FsView,
    dir: u64,
    rows: Seq<MetadataDirEntry>,
    n: int,
    now_ms: u64,
)
    ensures
        rows_listed(fs, dir, rows, n, now_ms) == (FsView {
            meta: rows_listed(fs, dir, rows, n, now_ms).meta,
            ..fs
        }),
    decreases n,
{
    if n > 0 {
        lemma_rows_keep_cursors(fs, dir, rows, n - 1, now_ms);
    }
}

/// A directory counts as listed in full after a page only if every row that was taken
/// stands in the cache under its name.
pub proof fn law_full_listings_are_cached(
    fs: FsView,
    dir: u64,
    offset: u64,
    rows: Seq<MetadataDirEntry>,
    taken: int,
    now_ms: u64,
    i: int,
)
    requires
        0 <= i < taken <= rows.len(),
        listed_in_full(page_listed(fs, dir, offset, rows, taken, now_ms).meta, dir),
    ensures
        stands(
            page_listed(fs, dir, offset, rows, taken, now_ms).meta,
            dir,
            rows[i].name@,
            rows[i].inode,
        ),
{
    let listed = rows_listed(fs, dir, rows, taken, now_ms);
    assert(row_cached(listed.meta, dir, rows[i]));
}

/// The rows of a listing have offsets of their own: those of a page rise from row to
/// row, they lie behind the two rows for the directories themselves, and a page that
/// goes on from a row counts on from it. The two rows come first, and once.
pub proof fn law_row_offsets_rise(offset: u64, i: int, j: int, next: u64)
    requires
        0 <= i < j,
        next == row_offset_of(offset, i),
    ensures
        row_offset_of(offset, i) < row_offset_of(offset, j),
        row_offset_of(offset, i) > offset,
        row_offset_of(offset, i) > 2,
        row_offset_of(next, 0) == row_offset_of(offset, i + 1),
        row_offset_of(next, j) > row_offset_of(offset, i),
        dots_of(0) == (true, true),
        dots_of(1) == (false, true),
        offset >= 2 ==> dots_of(offset) == (false, false),
        dots_of(next) == (false, false),
{
}

/// An attribute is handed out whole where it fits, and its length where only that was
/// asked for. Where it does not fit nothing of it is handed out.
pub proof fn law_attributes_are_handed_out_whole(data: Seq<u8>, size: u32, r: Result<XattrReply, i32>)
    requires
        xattr_fits(data, size, r),
    ensures
        size > 0 && data.len() <= size ==> (r matches Ok(XattrReply::Value { data: d }) && d@ == data),
        size > 0 && data.len() > size ==> r is Err,
        size == 0 && data.len() <= u32::MAX ==> (r matches Ok(XattrReply::Count { len }) && len
            == data.len()),
        r is Err ==> r->Err_0 == ERANGE,
{
}

/// An upgrade of an inode's cap adds what was granted to what is issued, and leaves
/// every other inode, and everything else of this one, alone.
pub proof fn law_upgrades_concern_one_inode(
    m: MetaView,
    inode: u64,
    granted: CapSet,
    epoch: u64,
    sn: u64,
    k: u64,
)
    requires
        m.has(inode),
    ensures
        ({
            let after = upgraded_meta(m, inode, granted, epoch, sn);
            &&& after.has(k) == m.has(k)
            &&& k != inode && m.has(k) ==> after.entries[k] == m.entries[k]
            &&& after.entries[inode] == (EntryView {
                cap: after.entries[inode].cap,
                ..m.entries[inode]
            })
            &&& m.entries[inode].cap is None ==> after.entries[inode].cap is None
            &&& m.entries[inode].cap matches Some(c) ==> (after.entries[inode].cap matches Some(d)
                && d.issued.0 == c.issued.0 | granted.0 && d.epoch == epoch && d.seq == sn
                && d.dirty_caps == c.dirty_caps && d.flushing_caps == c.flushing_caps)
            &&& after.paths == m.paths && after.dirs == m.dirs
        }),
{
}

/// A recall is acknowledged at once exactly if it leaves nothing to be flushed;
/// otherwise all that has to be flushed is named: what already was to be, and what is
/// dirty of what was issued and is not retained.
pub proof fn law_recalls_wait_for_dirty_caps(cap: CapView, retained: CapSet)
    ensures
        ({
            let due = cap.flushing_caps.0 | (cap.dirty_caps.0 & (cap.issued.0 & !retained.0));
            &&& cap.recall_action(retained) is ImmediateAck <==> due == 0
            &&& cap.recall_action(retained) matches RecallAction::FlushThenAck { flushing_caps }
                ==> flushing_caps.0 == due
        }),
{
}

/// A path that was declared out of date leads nowhere, its directory's listing is
/// dropped, and no other entry changes.
pub proof fn law_outdated_paths_lead_nowhere(v: MetaView, path: Seq<char>, k: u64)
    ensures
        ({
            let after = v.path_invalidated(path);
            &&& names::find(v.paths, path) matches Some(ino) ==> !after.has(ino)
            &&& names::find(v.paths, path) matches Some(ino) ==> v.has(ino) ==> names::find(
                after.paths,
                path,
            ) != Some(ino) && !after.dirs.contains_key(v.entries[ino].parent)
            &&& names::find(v.paths, path) != Some(k) ==> after.has(k) == v.has(k)
            &&& names::find(v.paths, path) != Some(k) && v.has(k) ==> after.entries[k]
                == v.entries[k]
            &&& names::find(v.paths, path) is None ==> after.entries == v.entries && after.paths
                == v.paths
            &&& names::find(after.paths, parent_of(path)) matches Some(dir)
                ==> !after.dirs.contains_key(dir)
        }),
{
    if let Some(ino) = names::find(v.paths, path) {
        if v.has(ino) {
            law_removed_inode_is_gone(v, ino, path, 0);
        }
    }
}

/// A new cache knows the root directory, at its path, and nothing else; it has room for
/// as many inodes as were asked for, and for some where none were.
pub proof fn law_new_caches_hold_the_root(
    capacity: usize,
    ttl: u64,
    uid: u32,
    gid: u32,
    now: Now,
    k: u64,
    path: Seq<char>,
)
    ensures
        ({
            let v = fresh_cache(capacity_or_default(capacity), ttl, uid, gid, now);
            let root = v.entries[ROOT_INODE];
            &&& v.has(k) <==> k == ROOT_INODE
            &&& names::find(v.paths, path) == (if path == root_path() {
                Some(ROOT_INODE)
            } else {
                None
            })
            &&& root.is_dir && root.uid == uid && root.gid == gid && root.parent == ROOT_INODE
            &&& answerable(root, now.mono_ms, ttl)
            &&& !listed_in_full(v, k)
            &&& v.ttl == ttl
            &&& v.capacity > 0
            &&& capacity > 0 ==> v.capacity == capacity
            &&& v.next_inode > ROOT_INODE
        }),
{
    let v = fresh_cache(capacity_or_default(capacity), ttl, uid, gid, now);
    assert(v.paths.last() == (root_path(), ROOT_INODE));
    assert(v.paths.drop_last() =~= Seq::empty());
    reveal_with_fuel(names::find, 2);
}

/// What the cache says of a file's size and place is what its entry says, as long as
/// the entry can be answered.
pub proof fn law_places_are_told_from_the_entry(v: MetaView, inode: u64, now_ms: u64)
    requires
        v.has(inode),
    ensures
        ({
            let e = v.entries[inode];
            let good = answerable(e, now_ms, v.ttl);
            &&& good ==> known_size(v, inode, now_ms) == e.size
            &&& !good ==> known_size(v, inode, now_ms) == 0
            &&& is_flat(v, inode, now_ms) <==> good && e.fid is Some
            &&& cached_volume(v, inode, now_ms) is Some <==> good && e.fid is Some
            &&& cached_volume(v, inode, now_ms) matches Some(n) ==> n == e.fid->0.volume_id.0
        }),
{
}

/// Every listed metadata server is tried, in the order of the list; the named one only
/// where none is listed.
pub proof fn law_listed_servers_are_tried(named: Seq<char>, listed: Seq<Seq<char>>, i: int)
    ensures
        ({
            let all = servers_to_try(named, listed);
            &&& listed.len() > 0 ==> all.len() == listed.len()
            &&& 0 <= i < listed.len() ==> all[i] == listed[i]
            &&& listed.len() == 0 && named.len() > 0 ==> all.len() == 1 && all[0] == named
            &&& all.len() == 0 <==> listed.len() == 0 && named.len() == 0
        }),
{
}

/// The dirty chunks are those that are cached and dirty, as they are.
pub proof fn law_dirty_chunks_are_counted(m: Chunks, k: (u64, u64))
    ensures
        dirty_only(m).contains_key(k) <==> m.contains_key(k) && m[k].dirty,
        dirty_only(m).contains_key(k) ==> dirty_only(m)[k] == m[k],
{
}

/// A reply ends with its body, as it is.
pub proof fn law_replies_end_with_the_body(status: Seq<char>, body: Seq<char>)
    ensures
        ({
            let r = reply_text(status, body);
            &&& r.len() >= body.len()
            &&& r.skip(r.len() - body.len()) == body
        }),
{
    let r = reply_text(status, body);
    assert(r.skip(r.len() - body.len()) =~= body);
}

/// A record lives on the shard that the server named, as long as the cache can answer
/// for the inode; else on the computed one.
pub proof fn law_records_live_where_the_server_says(v: MetaView, inode: u64, computed: u64, now_ms: u64)
    ensures
        v.has(inode) && answerable(v.entries[inode], now_ms, v.ttl) ==> match v.entries[inode].shard_id {
            Some(s) => shard_of(v, inode, computed, now_ms) == s,
            None => shard_of(v, inode, computed, now_ms) == computed,
        },
        !v.has(inode) || !answerable(v.entries[inode], now_ms, v.ttl) ==> shard_of(
            v,
            inode,
            computed,
            now_ms,
        ) == computed,
{
}

/// A file that moved onto a volume has its bytes to flush: its first chunk waits, and no
/// chunk of another file does on its account. Its buffer and its limit are gone, those of
/// other files are not.
pub proof fn law_moved_data_waits(
    fs: FsView,
    inode: u64,
    merged: Seq<u8>,
    new_size: u64,
    volume_id: u64,
    needle_id: u64,
    now: Now,
    other: u64,
    x: u64,
)
    ensures
        ({
            let after = migrated(fs, inode, merged, new_size, volume_id, needle_id, now);
            &&& waiting_for(after.waiting, inode).contains(0)
            &&& after.has_dirty
            &&& other != inode ==> (waiting_for(after.waiting, other).contains(x) <==> waiting_for(
                fs.waiting,
                other,
            ).contains(x))
            &&& after.inline.contains_key(other) == (fs.inline.contains_key(other) && other != inode)
            &&& after.limits.contains_key(other) == (fs.limits.contains_key(other) && other != inode)
            &&& other != inode && fs.inline.contains_key(other) ==> after.inline[other]
                == fs.inline[other]
            &&& other != inode && fs.limits.contains_key(other) ==> after.limits[other]
                == fs.limits[other]
        }),
{
    law_marking_adds_one_chunk(fs.waiting, inode, 0, other, x);
}

/// A new file that its record holds gets an empty buffer, and the limit that the server
/// set, or the largest there is. The buffers and limits of other files stay, and a new
/// file elsewhere gets none.
pub proof fn law_created_files_have_their_limit(
    fs: FsView,
    attr: &MetadataAttr,
    parent: u64,
    name: Seq<char>,
    mode: u32,
    uid: u32,
    gid: u32,
    now: Now,
    other: u64,
)
    ensures
        ({
            let after = created(fs, attr, parent, name, mode, uid, gid, now);
            &&& attr.is_inline ==> after.inline.contains_key(attr.inode)
                && after.inline[attr.inode].data.len() == 0 && after.limits.contains_key(attr.inode)
            &&& attr.is_inline ==> match attr.inline_max_size {
                Some(n) => after.limits[attr.inode] == n,
                None => after.limits[attr.inode] == INLINE_HARD_LIMIT,
            }
            &&& !attr.is_inline || other != attr.inode ==> after.inline.contains_key(other)
                == fs.inline.contains_key(other) && after.limits.contains_key(other)
                == fs.limits.contains_key(other)
            &&& (!attr.is_inline || other != attr.inode) && fs.inline.contains_key(other)
                ==> after.inline[other] == fs.inline[other]
            &&& (!attr.is_inline || other != attr.inode) && fs.limits.contains_key(other)
                ==> after.limits[other] == fs.limits[other]
            &&& after.waiting == fs.waiting && after.chunks == fs.chunks
        }),
{
}

/// The path of a name in a directory comes apart into the directory's path and the name,
/// and has a single slash between them.
pub proof fn law_paths_below_come_apart(v: MetaView, parent: u64, name: Seq<char>)
    requires
        forall|i: int| 0 <= i < name.len() ==> #[trigger] name[i] != '/',
        names::first_name(v.paths, parent) matches Some(p) && p.len() > 0,
    ensures
        path_below(v, parent, name) matches Some(path) && leaf_of(path) == name && parent_of(path)
            == names::first_name(v.paths, parent)->0 && path.len() == name.len() + (if parent_of(path)
            == root_path() {
            1
        } else {
            parent_of(path).len() + 1
        }),
{
    let p = names::first_name(v.paths, parent)->0;
    law_paths_come_apart(p, name);
    if p == root_path() {
        let none = Seq::<char>::empty();
        law_paths_come_apart(none, name);
        assert(none.push('/') + name =~= p + name);
    }
}

/// A number is read the same with a plus sign in front.
pub proof fn law_a_plus_sign_changes_nothing(s: Seq<char>)
    requires
        s.len() > 0 ==> s[0] != '+',
    ensures
        parsed_u16(seq!['+'] + s) == parsed_u16(s),
{
    assert((seq!['+'] + s).skip(1) =~= s);
}

/// After a rename nothing stands under the new name but what stood under the old one,
/// nothing stands under the old one, and what stood elsewhere, apart from the two
/// directories, is still there.
pub proof fn law_renames_replace(
    v: MetaView,
    olddir: u64,
    oldname: Seq<char>,
    newdir: u64,
    newname: Seq<char>,
    now: Now,
    k: u64,
)
    requires
        v.wf(),
        olddir != newdir || oldname != newname,
    ensures
        ({
            let after = v.renamed(olddir, oldname, newdir, newname, now);
            let old = v.has(k) && v.entries[k].parent == olddir && v.entries[k].name == oldname;
            let target = v.has(k) && v.entries[k].parent == newdir && v.entries[k].name == newname;
            &&& stands(after, newdir, newname, k) ==> old
            &&& !stands(after, olddir, oldname, k)
            &&& v.has(k) && !old && !target ==> after.has(k) && after.entries[k].parent
                == v.entries[k].parent && after.entries[k].name == v.entries[k].name
                && after.entries[k].chunks == v.entries[k].chunks && after.entries[k].size
                == v.entries[k].size
        }),
{
    let ms = now.mono_ms;
    lemma_child_is_cached(v, olddir, oldname, None, v.order);
    match v.answer_named(olddir, oldname, ms) {
        Some(e) => {
            let i = e.inode;
            let f = v.fetched(i, ms);
            lemma_alter_wf(
                v,
                i,
                if v.entries[i].expired(ms, v.ttl) {
                    v.entries[i].step(EntryState::Stale)
                } else {
                    v.entries[i]
                },
            );
            lemma_moved_keeps(f, i, olddir, newdir, newname, now);
            let m = f.moved(i, olddir, newdir, newname, now);
            law_cleared_names_are_gone(m, olddir, oldname, Some(i));
            let c = m.cleared(olddir, oldname, Some(i));
            law_cleared_names_are_gone(c, newdir, newname, Some(i));
            let d = c.cleared(newdir, newname, Some(i));
            assert(f.has(k) == v.has(k));
            assert(c.has(k) ==> m.has(k));
            assert(d.has(k) ==> c.has(k));
            assert(v.renamed(olddir, oldname, newdir, newname, now) == d);
            assert(stands(d, newdir, newname, k) ==> k == i);
            assert(!stands(d, olddir, oldname, k));
        },
        None => {
            let f = v.fetched_named(olddir, oldname, ms);
            if let Some(i) = v.child(olddir, oldname) {
                lemma_alter_wf(
                    v,
                    i,
                    if v.entries[i].expired(ms, v.ttl) {
                        v.entries[i].step(EntryState::Stale)
                    } else {
                        v.entries[i]
                    },
                );
            }
            law_cleared_names_are_gone(f, olddir, oldname, None);
            let c = f.cleared(olddir, oldname, None);
            law_cleared_names_are_gone(c, newdir, newname, None);
            let d = c.cleared(newdir, newname, None);
            assert(f.has(k) == v.has(k));
            assert(c.has(k) ==> f.has(k));
            assert(d.has(k) ==> c.has(k));
            let after = v.renamed(olddir, oldname, newdir, newname, now);
            assert(after.has(k) == d.has(k));
            assert(d.has(k) ==> after.entries[k] == lease_dropped(d.entries[k], newdir));
            assert(!stands(after, newdir, newname, k));
            assert(!stands(after, olddir, oldname, k));
        },
    }
}

proof fn lemma_moved_keeps(
    v: MetaView,
    inode: u64,
    olddir: u64,
    newdir: u64,
    newname: Seq<char>,
    now: Now,
)
    requires
        v.wf(),
        v.has(inode),
    ensures
        ({
            let m = v.moved(inode, olddir, newdir, newname, now);
            &&& m.wf()
            &&& m.has(inode) && m.entries[inode].parent == newdir && m.entries[inode].name == newname
            &&& forall|k: u64| #[trigger]
                m.has(k) && k != inode ==> v.has(k) && m.entries[k].parent == v.entries[k].parent
                    && m.entries[k].name == v.entries[k].name && m.entries[k].chunks
                    == v.entries[k].chunks && m.entries[k].size == v.entries[k].size
            &&& forall|k: u64| #[trigger]
                v.has(k) && !(v.entries[k].parent == newdir && v.entries[k].name == newname)
                    ==> m.has(k)
        }),
{
    let v1 = MetaView { paths: names::erase(v.paths, v.path_or_empty(inode)), ..v };
    lemma_child_is_cached(v1, newdir, newname, Some(inode), v1.order);
    let v2 = match child_named(v1.entries, v1.order, newdir, newname, Some(inode)) {
        Some(target) => v1.removed_entry_only(target),
        None => v1,
    };
    if let Some(target) = child_named(v1.entries, v1.order, newdir, newname, Some(inode)) {
        lemma_removed_wf(v1, target);
        assert(v2.entries == v1.removed(target).entries);
        assert(v2.order == v1.removed(target).order);
    }
    assert(v2.wf());
    let e = EntryView {
        parent: newdir,
        name: newname,
        ctime: now.unix_secs,
        mtime: now.unix_secs,
        ..v2.entries[inode]
    };
    lemma_alter_wf(v2, inode, e);
    let v3 = v2.set(inode, e);
    let dir_path = if newdir == ROOT_INODE {
        Seq::empty()
    } else {
        v3.path_or_empty(newdir)
    };
    let v4 = MetaView { paths: names::put(v3.paths, dir_path.push('/') + newname, inode), ..v3 };
    lemma_touched_wf(v4, olddir, now);
    let v5 = v4.dir_touched(olddir, now);
    lemma_touched_wf(v5, newdir, now);
}

proof fn lemma_touched_wf(v: MetaView, dir: u64, now: Now)
    requires
        v.wf(),
    ensures
        v.dir_touched(dir, now).wf(),
{
    lemma_alter_wf(
        v,
        dir,
        EntryView {
            mtime: now.unix_secs,
            ctime: now.unix_secs,
            cached_at: now.mono_ms,
            ..v.entries[dir]
        },
    );
}

/// The buffer goes on from what the server has: it starts with it, or is known not to.
pub open spec fn goes_on_from(b: InlineView, server: Seq<u8>) -> bool {
    b.modified_in_place || (b.original_len <= b.data.len() && server == b.data.take(
        b.original_len as int,
    ))
}

/// A buffer goes on from what the server has as long as it is not cut below that: when
/// it is fetched or made, when it is written or its length set, and when the server took
/// what was added. A change of what the server has is never forgotten, and a buffer that
/// was cut below it is sent whole.
pub proof fn law_buffers_go_on_from_the_server(
    b: InlineView,
    server: Seq<u8>,
    at: u64,
    bytes: Seq<u8>,
    size: u64,
    st: InlineSync,
)
    requires
        goes_on_from(b, server),
        server.len() <= usize::MAX,
        st.size <= usize::MAX,
    ensures
        goes_on_from(fetched_buffer(server), server),
        goes_on_from(created_buffer(), Seq::empty()),
        goes_on_from(b.written(at, bytes), server),
        b.modified_in_place ==> b.written(at, bytes).modified_in_place,
        b.written(at, bytes).dirty,
        size >= b.original_len ==> goes_on_from(b.truncated(size), server),
        size < b.original_len ==> b.truncated(size).sync_plan() is Overwrite,
        st.is_append && st.size <= b.data.len() ==> goes_on_from(
            taken_by_server(b, st),
            b.data.take(st.size as int),
        ),
{
    let n = b.original_len as int;
    assert(server.take(server.len() as int) =~= server);
    assert(Seq::<u8>::empty().take(0) =~= Seq::<u8>::empty());
    if !b.modified_in_place && at >= n {
        assert(b.written(at, bytes).data.take(n) =~= server);
    }
    if !b.modified_in_place && size >= n {
        assert(b.truncated(size).data.take(n) =~= server);
    }
}

/// A handle more or less changes the count by one, and the last one leaves the inode
/// closed. Nothing else of the entry changes, and no other entry does.
pub proof fn law_handles_are_counted(v: MetaView, inode: u64, h: HoldState, k: u64)
    requires
        v.has(inode),
        h.count() < u32::MAX,
        h is Pinned ==> h.count() > 0,
        v.entries[inode].hold == h,
    ensures
        h.pinned_once_more() is Pinned,
        h.pinned_once_more().count() == h.count() + 1,
        h.pinned_once_more().unpinned_once() == h,
        h.count() > 0 ==> h.unpinned_once().count() == h.count() - 1,
        h.count() <= 1 ==> h.unpinned_once() is Unpinned,
        v.pinned(inode).entries[inode] == (EntryView {
            hold: h.pinned_once_more(),
            ..v.entries[inode]
        }),
        v.unpinned(inode).entries[inode] == (EntryView {
            hold: h.unpinned_once(),
            ..v.entries[inode]
        }),
        k != inode ==> v.pinned(inode).has(k) == v.has(k) && v.unpinned(inode).has(k) == v.has(k),
        k != inode && v.has(k) ==> v.pinned(inode).entries[k] == v.entries[k] && v.unpinned(
            inode,
        ).entries[k] == v.entries[k],
{
}

/// New data in a cached chunk makes it dirty and as young as the write, and leaves its
/// place and every other chunk alone; a chunk that is not cached does not appear.
pub proof fn law_rewritten_chunks_are_young(
    c: ChunksView,
    inode: u64,
    offset: u64,
    data: Seq<u8>,
    mtime: u64,
    k: (u64, u64),
)
    ensures
        ({
            let after = c.rewritten(inode, offset, data, mtime);
            let here = k == (inode, (offset as int / c.chunk_size as int) as u64);
            &&& after.chunks.contains_key(k) == c.chunks.contains_key(k)
            &&& !here && c.chunks.contains_key(k) ==> after.chunks[k] == c.chunks[k]
            &&& here && c.chunks.contains_key(k) ==> after.chunks[k].data == data
                && after.chunks[k].mtime == mtime && after.chunks[k].dirty
                && after.chunks[k].offset == c.chunks[k].offset
        }),
{
}

/// A write starts where it was asked to, except that one that appends starts at the end
/// of the file where the cache knows it.
pub proof fn law_writes_start_where_asked(
    v: MetaView,
    inode: u64,
    offset: u64,
    append: bool,
    now_ms: u64,
)
    ensures
        ({
            let known = v.has(inode) && answerable(v.entries[inode], now_ms, v.ttl);
            &&& !append || !known ==> write_offset(v, inode, offset, append, now_ms) == offset
            &&& append && known ==> write_offset(v, inode, offset, append, now_ms)
                == v.entries[inode].size
        }),
{
}

} // verus!
