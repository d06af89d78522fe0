//! What lookups, listings, links and unlinks promise.

use super::attrs::{falloc_error, mode_allows, name_list, stored_name};
use super::invalidate::retained_of;
use super::names::{
    hard_link_entry, link_entry, listing_ended, lookup_plain, lookup_stored, of_shard, row_listed,
    unlink_applied, walked, LookupStep,
};
use super::open::{
    is_write_open, open_refreshed_to, refetched_entry, refetched_to, refreshed_entry, wanted_caps,
};
use super::FsView;
use crate::client_cap::CapSet;
use crate::dirty::waiting_for;
use crate::entry::{DentryLease, EntryView, HoldState, Now, ROOT_INODE};
use crate::meta_laws::{
    before_filing, law_cleared_names_are_gone, law_climb_keeps_entries, law_fetch_keeps_entries,
    lemma_alter_wf, lemma_lookup_keeps_child, lemma_removed_wf,
};
use crate::meta_model::{child_named, lemma_child_is_cached, MetaView};
use crate::metadata_cache::byte_len;
use crate::records::{stat_of, MetadataAttr, MetadataDirEntry};
use crate::scan::stands_at;
use vstd::prelude::*;

verus! {

/// Inode `k` is cached under the name in the directory.
pub open spec fn stands(v: MetaView, parent: u64, name: Seq<char>, k: u64) -> bool {
    v.has(k) && v.entries[k].parent == parent && v.entries[k].name == name && k != parent
}

/// At most one inode is cached under the name.
pub open spec fn lone(v: MetaView, parent: u64, name: Seq<char>) -> bool {
    forall|a: u64, b: u64| #[trigger]
        stands(v, parent, name, a) && #[trigger] stands(v, parent, name, b) ==> a == b
}

/// The entry can be answered: it is not deleted, and it is open, or carries local
/// changes, or is neither out of date nor older than its lifetime.
pub open spec fn answerable(e: EntryView, now_ms: u64, ttl: u64) -> bool {
    &&& !(e.state is Tombstone)
    &&& e.hold is Pinned || e.state is Dirty || e.state is Flushing || (!(e.state is Stale) && now_ms
        <= e.cached_at + ttl)
}

/// The directory was listed in full and has not changed since.
pub open spec fn listed_in_full(v: MetaView, dir: u64) -> bool {
    v.complete_dirs.contains_key(dir) && v.complete_dirs[dir] == (if v.dir_versions.contains_key(
        dir,
    ) {
        v.dir_versions[dir]
    } else {
        0
    })
}

/// The child of a directory under a name is the inode that stands there, and there
/// is none where none does.
pub proof fn law_children_stand_under_their_name(v: MetaView, parent: u64, name: Seq<char>)
    requires
        v.wf(),
        lone(v, parent, name),
    ensures
        forall|k: u64| #[trigger]
            stands(v, parent, name, k) ==> v.child(parent, name) == Some(k),
        v.child(parent, name) matches Some(k) ==> stands(v, parent, name, k),
{
    lemma_child_is_cached(v, parent, name, None, v.order);
    assert forall|k: u64| #[trigger] stands(v, parent, name, k) implies v.child(parent, name)
        == Some(k) by {
        assert(v.order.contains(k));
        let i = choose|i: int| 0 <= i < v.order.len() && v.order[i] == k;
        assert(v.order[i] == k);
        if let Some(c) = v.child(parent, name) {
            assert(stands(v, parent, name, c));
        }
    }
}

/// A lookup is answered with the inode that stands under the name, if it can be
/// answered or the name is vouched for; with nothing, if the directory was listed
/// in full and nothing stands there; and in every other case the server is asked.
pub proof fn law_lookups_answer_truly(fs: FsView, parent: u64, name: Seq<char>, now_ms: u64, k: u64)
    requires
        fs.meta.wf(),
        lone(fs.meta, parent, name),
    ensures
        ({
            let v = fs.meta;
            let e = v.entries[k];
            let r = lookup_plain(fs, parent, name, now_ms);
            let leased = e.dentry_lease matches Some(l) && now_ms < l.expires_ms;
            let shared = listed_in_full(v, parent) && e.dir_shared_gen == v.complete_dirs[parent];
            let is_k = r matches LookupStep::Reply { entry } && entry.inode == k && entry.attr
                == Some(stat_of(e));
            &&& stands(v, parent, name, k) && (answerable(e, now_ms, v.ttl) || leased || shared)
                ==> is_k
            &&& stands(v, parent, name, k) && !answerable(e, now_ms, v.ttl) && !leased && !shared
                ==> r == LookupStep::Ask
            &&& (forall|j: u64| !#[trigger] stands(v, parent, name, j)) && listed_in_full(v, parent)
                ==> (r matches LookupStep::Reply { entry } && entry.inode == 0
                && entry.attr is None)
            &&& (forall|j: u64| !#[trigger] stands(v, parent, name, j)) && !listed_in_full(
                v,
                parent,
            ) ==> r == LookupStep::Ask
        }),
{
    let v = fs.meta;
    law_children_stand_under_their_name(v, parent, name);
    lemma_lookup_keeps_child(v, parent, name, now_ms);
    if let Some(c) = v.child(parent, name) {
        assert(stands(v, parent, name, c));
        law_fetch_keeps_entries(v, c, now_ms);
        let l = v.fetched(c, now_ms);
        assert forall|a: u64| #[trigger] stands(l, parent, name, a) implies a == c by {
            assert(v.has(a));
            assert(stands(v, parent, name, a));
        }
        assert(stands(l, parent, name, c));
        law_children_stand_under_their_name(l, parent, name);
        assert(l.child(parent, name) == Some(c));
        assert(stat_of(l.entries[c]) == stat_of(v.entries[c]));
    }
}

/// One step of a walk along a path goes to the inode that stands under the next name,
/// if it can be answered; else the walk stays where it is.
pub proof fn law_walks_follow_names(
    meta: MetaView,
    current: u64,
    parts: Seq<Seq<char>>,
    next: int,
    now_ms: u64,
    k: u64,
)
    requires
        meta.wf(),
        0 <= next < parts.len(),
        lone(meta, current, parts[next]),
    ensures
        ({
            let w = walked(meta, current, parts, next, now_ms);
            let here = stands(meta, current, parts[next], k);
            let e = meta.entries[k];
            &&& here && answerable(e, now_ms, meta.ttl) ==> w == walked(
                meta.fetched(k, now_ms),
                k,
                parts,
                next + 1,
                now_ms,
            )
            &&& here && !answerable(e, now_ms, meta.ttl) ==> w.current == current && w.next == next
            &&& (forall|j: u64| !#[trigger] stands(meta, current, parts[next], j)) ==> w.current
                == current && w.next == next
            &&& walked(meta, current, parts, parts.len() as int, now_ms).current == current
        }),
{
    law_children_stand_under_their_name(meta, current, parts[next]);
}

/// A lease on a name runs for as long as it was granted, and no other entry is
/// touched by it.
pub proof fn law_leases_run_their_time(
    v: MetaView,
    parent: u64,
    name: Seq<char>,
    ttl_ms: u64,
    issuer: u64,
    now_ms: u64,
    k: u64,
    later: u64,
)
    requires
        v.wf(),
        lone(v, parent, name),
        stands(v, parent, name, k),
        now_ms + ttl_ms <= u64::MAX,
    ensures
        ({
            let after = v.lease_granted(parent, name, ttl_ms, issuer, now_ms);
            &&& after.entries[k].dentry_lease == Some(
                DentryLease { expires_ms: (now_ms + ttl_ms) as u64, issuer },
            )
            &&& after.entries[k] == EntryView {
                dentry_lease: after.entries[k].dentry_lease,
                dir_shared_gen: after.entries[k].dir_shared_gen,
                ..v.entries[k]
            }
            &&& forall|j: u64| #[trigger]
                v.has(j) && j != k ==> after.has(j) && after.entries[j] == v.entries[j]
        }),
{
    law_children_stand_under_their_name(v, parent, name);
}

proof fn lemma_cleared_keeps(v: MetaView, dir: u64, name: Seq<char>, keep: u64)
    requires
        v.wf(),
        v.has(keep),
    ensures
        v.cleared(dir, name, Some(keep)).has(keep),
        v.cleared(dir, name, Some(keep)).entries[keep] == v.entries[keep],
    decreases v.order.len(),
{
    lemma_child_is_cached(v, dir, name, Some(keep), v.order);
    if let Some(k) = child_named(v.entries, v.order, dir, name, Some(keep)) {
        lemma_removed_wf(v, k);
        crate::lru_entries::lemma_without(v.order, k);
        lemma_cleared_keeps(v.removed(k), dir, name, keep);
    }
}

proof fn lemma_removed_path_keeps(v: MetaView, inode: u64, path: Seq<char>, now_ms: u64, k: u64)
    requires
        v.wf(),
    ensures
        ({
            let r = v.removed_path(inode, path, now_ms);
            &&& r.wf()
            &&& r.has(k) == v.has(k)
            &&& v.has(k) ==> same_file(v.entries[k], r.entries[k])
        }),
{
    let v1 = MetaView { paths: crate::names::erase(v.paths, path), ..v };
    if v1.has(inode) {
        law_fetch_keeps_entries(v1, inode, now_ms);
        let v2 = v1.chain_path(inode, now_ms).1;
        if inode != ROOT_INODE {
            if let Some(e) = v1.answer(inode, now_ms) {
                law_climb_keeps_entries(v1.fetched(inode, now_ms), e.parent, set![inode], now_ms);
                assert(v1.fetched(inode, now_ms).has(k) == v1.has(k));
            }
        }
        assert(v2.wf());
        assert(v2.has(k) == v.has(k));
        assert(v.has(k) ==> same_file(v.entries[k], v2.entries[k]));
        assert(v2.has(inode));
        let v3 = if v1.chain_path(inode, now_ms).0 == Some(path) {
            match crate::names::first_name(v2.paths, inode) {
                Some(p) => v2.alter(
                    inode,
                    EntryView { name: crate::text::leaf_of(p), ..v2.entries[inode] },
                ),
                None => v2,
            }
        } else {
            v2
        };
        if let Some(p) = crate::names::first_name(v2.paths, inode) {
            lemma_alter_wf(
                v2,
                inode,
                EntryView { name: crate::text::leaf_of(p), ..v2.entries[inode] },
            );
        }
        law_fetch_keeps_entries(v3, inode, now_ms);
    } else {
        law_fetch_keeps_entries(v1, inode, now_ms);
    }
}

/// Two entries of one file that differ in nothing but name and state.
pub open spec fn same_file(a: EntryView, b: EntryView) -> bool {
    b == EntryView { name: b.name, state: b.state, ..a }
}

/// An unlink of one of several names counts one name off, leaves the file with its
/// data and attributes where it was, and lets no other inode stand under the name.
/// The server is told: the unlink joins the queue, or goes out with it.
pub proof fn law_unlink_counts_one_name_off(
    fs: FsView,
    inode: u64,
    parent: u64,
    name: Seq<char>,
    shard: u64,
    now_ms: u64,
)
    requires
        fs.meta.wf(),
        fs.meta.has(inode),
        fs.meta.entries[inode].nlink > 1,
        fs.pending.len() < 16,
    ensures
        ({
            let after = unlink_applied(fs, inode, parent, name, shard, now_ms);
            let x = fs.meta.entries[inode];
            let y = after.meta.entries[inode];
            &&& after.meta.has(inode)
            &&& y.nlink == x.nlink - 1
            &&& y.size == x.size && y.chunks == x.chunks && y.fid == x.fid && y.mode == x.mode
                && y.uid == x.uid && y.gid == x.gid && y.hold == x.hold && y.xattrs == x.xattrs
            &&& after.meta.none_named(parent, name, Some(inode))
            &&& after.chunks == fs.chunks
            &&& after.inline == fs.inline
            &&& after.waiting == fs.waiting
            &&& fs.pending.len() + 1 < 16 ==> after.pending.len() == fs.pending.len() + 1
                && after.pending.drop_last() == fs.pending && after.pending.last().0 == parent
                && after.pending.last().1 == name
            &&& fs.pending.len() + 1 >= 16 ==> after.pending.len() == 0
        }),
{
    let m = fs.meta;
    let v1 = m.unlinked_once(inode);
    lemma_alter_wf(m, inode, v1.entries[inode]);
    let v2 = match super::names::path_below(v1, parent, name) {
        Some(p) => v1.removed_path(inode, p, now_ms),
        None => v1,
    };
    if let Some(p) = super::names::path_below(v1, parent, name) {
        lemma_removed_path_keeps(v1, inode, p, now_ms, inode);
    }
    assert(v2.wf() && v2.has(inode) && same_file(v1.entries[inode], v2.entries[inode]));
    law_cleared_names_are_gone(v2, parent, name, Some(inode));
    lemma_cleared_keeps(v2, parent, name, inode);
    let v3 = v2.cleared(parent, name, Some(inode));
    law_fetch_keeps_entries(v3, parent, now_ms);
    let after = unlink_applied(fs, inode, parent, name, shard, now_ms);
    assert(after.meta.entries == v3.fetched(parent, now_ms).entries);
    assert forall|k: u64| #[trigger] after.meta.has(k) implies v3.has(k)
        && after.meta.entries[k].parent == v3.entries[k].parent && after.meta.entries[k].name
        == v3.entries[k].name by {}
    if fs.pending.len() + 1 < 16 {
        assert(after.pending.drop_last() =~= fs.pending);
    }
}

/// No unlink is sent to a shard that it was not queued for.
pub proof fn law_no_unlink_is_made_up(v: Seq<(u64, Seq<char>, u64)>, shard: u64, n: int)
    requires
        0 <= n < of_shard(v, shard).len(),
    ensures
        exists|i: int|
            0 <= i < v.len() && (#[trigger] v[i]).2 == shard && v[i].0 == of_shard(v, shard)[n].0
                && v[i].1 == of_shard(v, shard)[n].1,
        of_shard(v, shard).len() <= v.len(),
    decreases v.len(),
{
    if v.len() > 0 {
        let p = v.drop_last();
        let b = of_shard(p, shard);
        lemma_of_shard_len(p, shard);
        if n < b.len() {
            law_no_unlink_is_made_up(p, shard, n);
            let i = choose|i: int|
                0 <= i < p.len() && (#[trigger] p[i]).2 == shard && p[i].0 == b[n].0 && p[i].1
                    == b[n].1;
            assert(v[i] == p[i]);
        } else {
            assert(v[v.len() - 1].2 == shard);
        }
    }
}

proof fn lemma_of_shard_len(v: Seq<(u64, Seq<char>, u64)>, shard: u64)
    ensures
        of_shard(v, shard).len() <= v.len(),
    decreases v.len(),
{
    if v.len() > 0 {
        lemma_of_shard_len(v.drop_last(), shard);
    }
}

/// A symbolic link says where it leads, and is as long as that; a further name of a
/// file is the same file, with the new count of names.
pub proof fn law_links_lead_to_their_target(
    e: EntryView,
    inode: u64,
    parent: u64,
    name: Seq<char>,
    target: Seq<char>,
    nlink: u32,
    now: Now,
)
    ensures
        ({
            let s = link_entry(inode, parent, name, target, now);
            let h = hard_link_entry(e, inode, parent, name, nlink, now);
            &&& s.inode == inode && s.parent == parent && s.name == name
            &&& s.is_symlink && !s.is_dir && s.symlink_target == Some(target)
            &&& s.size == byte_len(target) && s.mode == 0o777 && s.nlink == 1
            &&& h.inode == inode && h.parent == parent && h.name == name && h.nlink == nlink
            &&& h.size == e.size && h.content_size == e.content_size && h.fid == e.fid && h.chunks
                == e.chunks && h.mode == e.mode && h.uid == e.uid && h.gid == e.gid && h.mtime
                == e.mtime && h.xattrs == e.xattrs
            &&& h.is_symlink == e.is_symlink && h.symlink_target == e.symlink_target && !h.is_dir
        }),
{
}

/// Access is granted exactly where each thing that is asked for is allowed to
/// someone: reading, writing and executing are bits 4, 2 and 1 of each digit of the
/// mode.
pub proof fn law_access_goes_by_the_digits(mode: u32, mask: u32)
    ensures
        mode_allows(mode, mask) <==> {
            let (u, g, o) = ((mode / 64) % 8, (mode / 8) % 8, mode % 8);
            &&& (mask / 4) % 2 == 1 ==> (u / 4) % 2 == 1 || (g / 4) % 2 == 1 || (o / 4) % 2 == 1
            &&& (mask / 2) % 2 == 1 ==> (u / 2) % 2 == 1 || (g / 2) % 2 == 1 || (o / 2) % 2 == 1
            &&& mask % 2 == 1 ==> u % 2 == 1 || g % 2 == 1 || o % 2 == 1
        },
{
    assert((mask & 4 == 0) == !((mask / 4) % 2 == 1)) by (bit_vector);
    assert((mask & 2 == 0) == !((mask / 2) % 2 == 1)) by (bit_vector);
    assert((mask & 1 == 0) == !(mask % 2 == 1)) by (bit_vector);
    assert((mode & 0o444 != 0) == ((((mode / 64) % 8) / 4) % 2 == 1 || (((mode / 8) % 8) / 4) % 2
        == 1 || ((mode % 8) / 4) % 2 == 1)) by (bit_vector);
    assert((mode & 0o222 != 0) == ((((mode / 64) % 8) / 2) % 2 == 1 || (((mode / 8) % 8) / 2) % 2
        == 1 || ((mode % 8) / 2) % 2 == 1)) by (bit_vector);
    assert((mode & 0o111 != 0) == (((mode / 64) % 8) % 2 == 1 || ((mode / 8) % 8) % 2 == 1 || (mode
        % 8) % 2 == 1)) by (bit_vector);
}

/// A file is open for writing unless it is open for reading only; a writer asks for
/// all caps, a reader for the one to read. A recall leaves what the high half of its
/// field says.
pub proof fn law_flags_are_read_right(flags: u32, packed: u8, mode: u32, length: u64)
    ensures
        is_write_open(flags) == (flags % 4 != 0),
        wanted_caps(true) == CapSet(7) && wanted_caps(false) == CapSet(1),
        retained_of(packed).0 == packed / 16,
        falloc_error(mode, length) is None <==> length > 0 && (mode == 0 || mode == 1 || mode == 3),
        falloc_error(mode, length) matches Some(e) ==> e == if mode == 0 || mode == 1 || mode == 3 {
            22i32
        } else {
            95
        },
{
    assert((flags & 3 != 0) == (flags % 4 != 0)) by (bit_vector);
    assert((packed >> 4) & 0x0f == packed / 16) by (bit_vector);
    assert((mode & !(1u32 | 2) != 0 || (mode & 2 != 0 && mode & 1 == 0)) == !(mode == 0 || mode == 1
        || mode == 3)) by (bit_vector);
}

/// A list of names is each name with a zero byte behind it, one after another.
pub proof fn law_name_lists_add_up(a: Seq<Seq<char>>, b: Seq<Seq<char>>, n: Seq<char>)
    ensures
        name_list(a + b) == name_list(a) + name_list(b),
        name_list(seq![n]) == vstd::utf8::encode_utf8(n).push(0u8),
        name_list(Seq::empty()).len() == 0,
    decreases b.len(),
{
    let one = seq![n];
    assert(one.drop_last() =~= Seq::<Seq<char>>::empty());
    assert(name_list(one.drop_last()) + vstd::utf8::encode_utf8(n) =~= vstd::utf8::encode_utf8(n));
    if b.len() == 0 {
        assert(a + b =~= a);
        assert(name_list(a) + name_list(b) =~= name_list(a));
    } else {
        law_name_lists_add_up(a, b.drop_last(), n);
        assert((a + b).drop_last() =~= a + b.drop_last());
        assert((a + b).last() == b.last());
        assert(name_list(a + b) =~= name_list(a) + name_list(b));
    }
}

/// The file system's own attributes lose their first five characters, every other
/// name stays as it is.
pub proof fn law_own_attributes_lose_their_namespace(name: Seq<char>)
    ensures
        stands_at(name, "user.powerfs."@, 0) ==> stored_name(name) == name.skip(5),
        !stands_at(name, "user.powerfs."@, 0) ==> stored_name(name) == name,
{
}

/// An entry that comes in for a cached inode takes the place of the cached one: under
/// its name and with its attributes. Under another name it keeps nothing but the
/// extended attributes; under the same it is a refresh, in which an open file keeps
/// its length and its handles. No other inode's name, data or handles change.
pub proof fn law_cached_inodes_are_brought_up_to_date(
    v: MetaView,
    e: EntryView,
    now_ms: u64,
    k: u64,
)
    requires
        v.wf(),
        v.has(e.inode),
    ensures
        ({
            let after = v.inserted(e, now_ms);
            let x = v.entries[e.inode];
            let y = after.entries[e.inode];
            &&& after.has(e.inode)
            &&& y.name == e.name && y.parent == e.parent
            &&& y.mode == e.mode && y.uid == e.uid && y.gid == e.gid && y.mtime == e.mtime
                && y.nlink == e.nlink && y.generation == e.generation
            &&& y.xattrs == x.xattrs
            &&& e.chunks.len() > 0 ==> y.chunks == e.chunks
            &&& e.fid is Some ==> y.fid == e.fid
            &&& x.name != e.name || x.parent != e.parent ==> y.size == e.size && y.hold == e.hold
            &&& x.name == e.name && x.parent == e.parent ==> y.hold == x.hold && (y.size == e.size
                || (x.hold is Pinned && x.content_size > e.content_size && y.size == x.size))
            &&& !after.dirs.contains_key(e.parent)
            &&& k != e.inode ==> after.has(k) == v.has(k)
            &&& k != e.inode && v.has(k) ==> after.entries[k] == EntryView {
                state: after.entries[k].state,
                ..v.entries[k]
            }
        }),
{
    if e.inode != ROOT_INODE {
        law_climb_keeps_entries(v, e.parent, set![e.inode], now_ms);
    }
    let b = before_filing(v, e, now_ms);
    assert(b.has(e.inode));
    assert(b.has(k) == v.has(k));
    assert(v.has(k) ==> b.entries[k] == (EntryView { state: b.entries[k].state, ..v.entries[k] }));
    assert(b.entries[e.inode] == (EntryView {
        state: b.entries[e.inode].state,
        ..v.entries[e.inode]
    }));
}

/// An inode is answered from the cache exactly if it is cached and its entry can be
/// answered; a lookup changes nothing but the state of an entry that is too old.
pub proof fn law_answers_come_from_good_entries(v: MetaView, inode: u64, now_ms: u64)
    ensures
        v.answer(inode, now_ms) is Some <==> v.has(inode) && answerable(
            v.entries[inode],
            now_ms,
            v.ttl,
        ),
        v.answer(inode, now_ms) matches Some(e) ==> e == v.entries[inode],
        v.needs_refetch(inode, now_ms) <==> v.has(inode) && !(v.entries[inode].state is Tombstone)
            && !answerable(v.entries[inode], now_ms, v.ttl),
        v.has(inode) ==> v.fetched(inode, now_ms).entries[inode] == (EntryView {
            state: v.fetched(inode, now_ms).entries[inode].state,
            ..v.entries[inode]
        }),
        v.has(inode) && answerable(v.entries[inode], now_ms, v.ttl) ==> v.fetched(
            inode,
            now_ms,
        ).entries[inode] == v.entries[inode],
{
}

/// A page of a listing that starts at the beginning makes the directory count as
/// listed in full at its present version, if every row that was taken is cached; one
/// that does not makes it count as nothing that it did not count as before.
pub proof fn law_only_whole_listings_are_full(
    fs: FsView,
    dir: u64,
    offset: u64,
    last_name: Option<Seq<char>>,
    all_cached: bool,
    other: u64,
)
    ensures
        ({
            let after = listing_ended(fs, dir, offset, last_name, all_cached);
            &&& all_cached && offset == 0 ==> listed_in_full(after.meta, dir)
            &&& !all_cached ==> !listed_in_full(after.meta, dir)
            &&& all_cached && offset != 0 ==> listed_in_full(after.meta, dir) == listed_in_full(
                fs.meta,
                dir,
            )
            &&& other != dir ==> listed_in_full(after.meta, other) == listed_in_full(fs.meta, other)
            &&& last_name matches Some(n) ==> after.cursors.contains_key(dir) && after.cursors[dir]
                == n
            &&& last_name is None ==> after.cursors == fs.cursors
            &&& after.meta.entries == fs.meta.entries
        }),
{
}

/// A row that is listed changes nothing of an inode that can be answered from the
/// cache; a row without attributes changes nothing at all.
pub proof fn law_rows_do_not_disturb(fs: FsView, dir: u64, row: MetadataDirEntry, now_ms: u64, k: u64)
    requires
        fs.meta.has(k),
        row.attrs is None || (fs.meta.has(row.inode) && answerable(
            fs.meta.entries[row.inode],
            now_ms,
            fs.meta.ttl,
        )),
    ensures
        row_listed(fs, dir, row, now_ms).meta.has(k),
        row_listed(fs, dir, row, now_ms).meta.entries[k] == fs.meta.entries[k],
        row_listed(fs, dir, row, now_ms).meta.complete_dirs == fs.meta.complete_dirs,
{
}

/// An answered lookup tells the version of the directory.
pub proof fn law_lookups_tell_the_version(
    meta: MetaView,
    parent: u64,
    name: Seq<char>,
    attr: &MetadataAttr,
    now_ms: u64,
)
    requires
        meta.wf(),
    ensures
        attr.dir_version > 0 ==> lookup_stored(
            meta,
            parent,
            name,
            attr,
            now_ms,
        ).dir_versions.contains_key(parent) && lookup_stored(
            meta,
            parent,
            name,
            attr,
            now_ms,
        ).dir_versions[parent] == attr.dir_version,
        attr.dir_version == 0 ==> lookup_stored(meta, parent, name, attr, now_ms).dir_versions
            == meta.dir_versions,
{
    let v1 = if attr.dir_version > 0 {
        MetaView { dir_versions: meta.dir_versions.insert(parent, attr.dir_version), ..meta }
    } else {
        meta
    };
    let e = crate::records::entry_of_attr(attr, parent, name, now_ms);
    if e.inode != ROOT_INODE {
        law_climb_keeps_entries(v1, e.parent, set![e.inode], now_ms);
    }
    assert(before_filing(v1, e, now_ms).dir_versions == v1.dir_versions);
}

/// An open that asks the server takes over what the server says of the file: owner,
/// permissions, times, chunks and, where nothing of the file is cached, its size. Where
/// the data goes is not part of the answer and stays: a file with a placement gets no
/// file id. Only a longer local file with cached data stays as it is. A fetch of an
/// entry that was out of date does the same.
pub proof fn law_opens_take_the_servers_entry(
    fs: FsView,
    inode: u64,
    e: EntryView,
    fresh: EntryView,
    now_ms: u64,
)
    requires
        fs.meta.wf(),
        fs.meta.has(inode),
        fresh.inode == inode,
    ensures
        ({
            let x = fs.meta.entries[inode];
            let after = open_refreshed_to(fs, inode, e, fresh, now_ms).meta;
            let y = after.entries[inode];
            let again = refetched_to(fs, inode, fresh, now_ms).meta;
            let z = again.entries[inode];
            let cached = exists|o: (u64, u64)| #[trigger]
                fs.chunks.chunks.contains_key(o) && o.0 == inode;
            let ahead = e.content_size > fresh.content_size && cached;
            &&& after.has(inode) && again.has(inode)
            &&& ahead ==> after == fs.meta
            &&& !ahead ==> {
                &&& took_over(x, fresh, y)
                &&& !cached ==> y.size == fresh.content_size && y.content_size == fresh.content_size
                &&& x.name != fresh.name || x.parent != fresh.parent ==> y.placement == e.placement
                &&& e.placement is Some && x.fid is None ==> y.fid is None
                &&& e.placement is None && fresh.fid is Some ==> y.fid == fresh.fid
                &&& x.hold is Pinned ==> y.hold is Pinned
            }
            &&& fs.meta.needs_refetch(inode, now_ms) ==> took_over(x, fresh, z) && z.reliability
                == x.reliability && z.placement == x.placement && (x.placement is Some
                && x.fid is None ==> z.fid is None) && (x.placement is None && fresh.fid is Some
                ==> z.fid == fresh.fid)
            &&& !fs.meta.needs_refetch(inode, now_ms) ==> z == EntryView { state: z.state, ..x }
        }),
{
    let taken = EntryView {
        hold: HoldState::Pinned { open_count: 1 },
        ..refreshed_entry(e, fresh)
    };
    law_cached_inodes_are_brought_up_to_date(fs.meta, taken, now_ms, inode);
    lemma_filed_places(fs.meta, taken, now_ms);
    law_fetch_keeps_entries(fs.meta, inode, now_ms);
    let looked = fs.meta.fetched(inode, now_ms);
    let x = fs.meta.entries[inode];
    assert(looked.entries[inode] == (EntryView { state: looked.entries[inode].state, ..x }));
    let back = refetched_entry(looked.entries[inode], fresh);
    law_cached_inodes_are_brought_up_to_date(looked, back, now_ms, inode);
    lemma_filed_places(looked, back, now_ms);
}

/// The entry `y` has what the server says in `fresh`, and the extended attributes of
/// `x`.
pub open spec fn took_over(x: EntryView, fresh: EntryView, y: EntryView) -> bool {
    &&& y.name == fresh.name && y.parent == fresh.parent
    &&& y.mode == fresh.mode && y.uid == fresh.uid && y.gid == fresh.gid
    &&& y.mtime == fresh.mtime && y.nlink == fresh.nlink && y.generation == fresh.generation
    &&& y.xattrs == x.xattrs
    &&& fresh.chunks.len() > 0 ==> y.chunks == fresh.chunks
}

proof fn lemma_filed_places(v: MetaView, e: EntryView, now_ms: u64)
    requires
        v.wf(),
        v.has(e.inode),
    ensures
        ({
            let x = v.entries[e.inode];
            let y = v.inserted(e, now_ms).entries[e.inode];
            if x.name != e.name || x.parent != e.parent {
                y.placement == e.placement && y.fid == e.fid && y.reliability == e.reliability
            } else {
                y.placement == x.placement && y.reliability == x.reliability && y.fid == (
                if e.fid is Some {
                    e.fid
                } else {
                    x.fid
                })
            }
        }),
{
    if e.inode != ROOT_INODE {
        law_climb_keeps_entries(v, e.parent, set![e.inode], now_ms);
    }
    let b = before_filing(v, e, now_ms);
    assert(b.has(e.inode));
    assert(b.entries[e.inode] == (EntryView {
        state: b.entries[e.inode].state,
        ..v.entries[e.inode]
    }));
}

/// A flush that has somewhere to go takes the chunks that wait off the list, all of
/// them and no others.
pub proof fn law_flush_takes_its_chunks(fs: FsView, inode: u64, now_ms: u64, other: u64, x: u64)
    requires
        fs.meta.has(inode),
        answerable(fs.meta.entries[inode], now_ms, fs.meta.ttl),
        fs.meta.entries[inode].fid is Some || fs.meta.entries[inode].placement is Some,
    ensures
        !waiting_for(fs.flush_begun(inode, now_ms).waiting, inode).contains(x),
        other != inode ==> waiting_for(fs.flush_begun(inode, now_ms).waiting, other)
            == waiting_for(fs.waiting, other),
        fs.flush_begun(inode, now_ms).chunks == fs.chunks,
        fs.flush_begun(inode, now_ms).inline == fs.inline,
{
}

} // verus!
