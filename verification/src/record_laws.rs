//! What holds of records, numbers, paths and messages on their way between the
//! server, the cache and the kernel.

use crate::acl::{acl_len, acl_mode, acl_perm};
use crate::admin_server::{first_line, requested_path};
use crate::chunk_cache::{counter, evictable, evicted, truncated, Chunks};
use crate::chunk_laws::{law_eviction_reaches_limit, law_eviction_takes_oldest};
use crate::client_cap::{CapSet, CapView};
use crate::entry::{cached_chunks, opt_text, EntryView, FileChunk};
use crate::file_locks::{clash, first_clash, released, FileLock};
use crate::fuse_app::{host_of, until_colon};
use crate::lru_entries::{lemma_without, without};
use crate::meta_model::{merged, MetaView};
use crate::records::{
    as_signed, as_unsigned, capped_signed, entry_of_attr, entry_of_row, entry_of_stored,
    fuse_entry_of, largest_end, negative_entry, stat_of, FilerEntry, MetadataAttr, MetadataDirEntry,
};
use crate::scan::{
    behind_word, embedded_status, errno_of_phrase, errno_of_status, first_word, is_digit,
    is_first_at, is_space, number, occurs, parsed_u16, skip_space, stands_at, until_space,
    StatusCodes,
};
use crate::text::{components_of, join, last_slash, leaf_of, parent_of, root_path};
use crate::wire::{decimal, inval_entry_message, inval_inode_message, le_bytes, padded};
use vstd::prelude::*;

verus! {

/// A chunk list comes over as it is: in the same order, each chunk in its place,
/// under its needle, with its size and checksum.
pub proof fn law_chunk_lists_come_over(chunks: Seq<FileChunk>, i: int)
    requires
        0 <= i < chunks.len(),
    ensures
        ({
            let c = cached_chunks(chunks);
            &&& c.len() == chunks.len()
            &&& c[i].offset == chunks[i].offset
            &&& c[i].size == chunks[i].size
            &&& c[i].needle_id == chunks[i].needle_id
            &&& c[i].volume_id == chunks[i].volume_id
            &&& c[i].crc32 == chunks[i].crc32
            &&& c[i].mtime == chunks[i].mtime
        }),
{
}

/// The cached entry of an inode says what the server's attributes said, under the
/// name and in the directory that were asked for.
pub proof fn law_attributes_come_over(
    attr: &MetadataAttr,
    parent: u64,
    name: Seq<char>,
    now_ms: u64,
)
    requires
        attr.atime <= i64::MAX,
        attr.mtime <= i64::MAX,
    ensures
        ({
            let e = entry_of_attr(attr, parent, name, now_ms);
            &&& e.inode == attr.inode && e.parent == parent && e.name == name
            &&& e.mode == attr.mode && e.uid == attr.uid && e.gid == attr.gid
            &&& e.size == attr.size && e.content_size == attr.size && e.nlink == attr.nlink
            &&& e.atime == attr.atime && e.mtime == attr.mtime && e.ctime == attr.ctime
            &&& e.is_dir == (attr.file_type == 4) && e.is_symlink == (attr.file_type == 10)
            &&& e.symlink_target == opt_text(attr.symlink_target)
            &&& e.chunks.len() == attr.chunks@.len()
            &&& e.replica_chunks.len() == attr.replica_chunks@.len()
            &&& forall|i: int|
                0 <= i < attr.chunks@.len() ==> (#[trigger] e.chunks[i]).needle_id
                    == attr.chunks@[i].needle_id && e.chunks[i].offset == attr.chunks@[i].offset
                    && e.chunks[i].volume_id == attr.chunks@[i].volume_id && e.chunks[i].size
                    == attr.chunks@[i].size
            &&& e.placement == attr.placement && e.reliability == attr.reliability
            &&& e.shard_id == attr.shard_id
            &&& attr.placement is Some ==> e.fid is None
            &&& attr.placement is None && attr.volume_id is Some && attr.file_key is Some
                ==> e.fid is Some && Some(e.fid->0.volume_id.0) == attr.volume_id && Some(
                e.fid->0.file_key,
            ) == attr.file_key
            &&& attr.placement is None && attr.volume_id is None && attr.chunks@.len() > 0
                ==> e.fid is Some && e.fid->0.volume_id.0 == attr.chunks@[0].volume_id
                && e.fid->0.file_key == attr.chunks@[0].needle_id
            &&& e.cached_at == now_ms && e.xattrs.len() == 0 && e.cap is None
                && e.dentry_lease is None
        }),
{
}

proof fn lemma_largest_end(chunks: Seq<FileChunk>)
    requires
        forall|j: int|
            0 <= j < chunks.len() ==> (#[trigger] chunks[j]).offset + chunks[j].size <= u64::MAX,
    ensures
        forall|j: int|
            0 <= j < chunks.len() ==> largest_end(chunks) >= (#[trigger] chunks[j]).offset
                + chunks[j].size,
        largest_end(chunks) > 0 ==> exists|j: int|
            0 <= j < chunks.len() && largest_end(chunks) == (#[trigger] chunks[j]).offset
                + chunks[j].size,
    decreases chunks.len(),
{
    if chunks.len() > 0 {
        let p = chunks.drop_last();
        let last = chunks.len() - 1;
        assert forall|j: int| 0 <= j < p.len() implies (#[trigger] p[j]).offset + p[j].size
            <= u64::MAX by {
            assert(p[j] == chunks[j]);
        }
        lemma_largest_end(p);
        assert(chunks[last].offset + chunks[last].size <= u64::MAX);
        let n = largest_end(chunks);
        assert forall|j: int| 0 <= j < chunks.len() implies n >= (#[trigger] chunks[j]).offset
            + chunks[j].size by {
            if j < last {
                assert(p[j] == chunks[j]);
            }
        }
        if n > 0 {
            if n == largest_end(p) {
                let j = choose|j: int|
                    0 <= j < p.len() && n == (#[trigger] p[j]).offset + p[j].size;
                assert(chunks[j] == p[j]);
            } else {
                assert(n == chunks[last].offset + chunks[last].size);
            }
        }
    }
}

/// The cached entry of an inode says what the stored entry said. A size that is not
/// recorded is as far as the chunks reach.
pub proof fn law_stored_entries_come_over(parent: u64, entry: &FilerEntry, now_ms: u64)
    requires
        forall|j: int|
            0 <= j < entry.chunks@.len() ==> (#[trigger] entry.chunks@[j]).offset
                + entry.chunks@[j].size <= u64::MAX,
    ensures
        ({
            let e = entry_of_stored(parent, entry, now_ms);
            &&& e.parent == parent && e.name == entry.name@
            &&& e.content_size == entry.content_size && e.disk_size == entry.disk_size
            &&& e.generation == entry.generation
            &&& e.hard_link_id == entry.hard_link_id@ && e.hard_link_counter
                == entry.hard_link_counter
            &&& e.chunks.len() == entry.chunks@.len()
            &&& forall|i: int|
                0 <= i < entry.chunks@.len() ==> (#[trigger] e.chunks[i]).needle_id
                    == entry.chunks@[i].needle_id && e.chunks[i].offset == entry.chunks@[i].offset
                    && e.chunks[i].volume_id == entry.chunks@[i].volume_id && e.chunks[i].size
                    == entry.chunks@[i].size && e.chunks[i].crc32 == entry.chunks@[i].crc32
            &&& entry.chunks@.len() > 0 ==> e.fid is Some && e.fid->0.volume_id.0
                == entry.chunks@[0].volume_id && e.fid->0.file_key == entry.chunks@[0].needle_id
            &&& entry.chunks@.len() == 0 ==> e.fid is None
            &&& entry.attributes matches Some(a) ==> {
                &&& e.inode == a.ino && e.nlink == a.nlink && e.uid == a.uid && e.gid == a.gid
                &&& e.mode == a.mode & 0o7777
                &&& a.mtime <= i64::MAX ==> e.mtime == a.mtime
                &&& a.atime <= i64::MAX ==> e.atime == a.atime
                &&& a.ctime <= i64::MAX ==> e.ctime == a.ctime
                &&& e.is_dir == (a.mode & 0o170000 == 0o040000)
                &&& e.is_symlink == (a.mode & 0o170000 == 0o120000)
                &&& e.is_symlink ==> e.symlink_target == Some(entry.symlink_target@)
                &&& a.size > 0 ==> e.size == a.size
            }
            &&& (entry.attributes is None || entry.attributes->0.size == 0) && entry.content_size
                > 0 ==> e.size == entry.content_size
            &&& (entry.attributes is None || entry.attributes->0.size == 0) && entry.content_size
                == 0 ==> (forall|j: int|
                0 <= j < entry.chunks@.len() ==> e.size >= (#[trigger] entry.chunks@[j]).offset
                    + entry.chunks@[j].size) && (e.size > 0 ==> exists|j: int|
                0 <= j < entry.chunks@.len() && e.size == (#[trigger] entry.chunks@[j]).offset
                    + entry.chunks@[j].size)
        }),
{
    lemma_largest_end(entry.chunks@);
}

/// The cached entry of a listed name says what the row said.
pub proof fn law_rows_come_over(
    dir: u64,
    row: &MetadataDirEntry,
    attr: &MetadataAttr,
    now_ms: u64,
)
    ensures
        ({
            let e = entry_of_row(dir, row, attr, now_ms);
            &&& e.inode == row.inode && e.parent == dir && e.name == row.name@
            &&& e.is_dir == (row.file_type == 4) && e.is_symlink == (row.file_type == 10)
            &&& e.size == attr.size && e.uid == attr.uid && e.gid == attr.gid && e.mode == attr.mode
                & 0o7777
            &&& e.ctime == attr.ctime
            &&& attr.mtime <= i64::MAX ==> e.mtime == attr.mtime
            &&& attr.atime <= i64::MAX ==> e.atime == attr.atime
            &&& e.nlink >= 1 && (attr.nlink >= 1 ==> e.nlink == attr.nlink)
            &&& row.child_shard_id != 0 ==> e.shard_id == Some(row.child_shard_id)
            &&& row.child_shard_id == 0 ==> e.shard_id == attr.shard_id
        }),
{
}

/// The kernel sees what the entry says: the same inode, owner, size and times, and
/// as many blocks of 512 bytes as hold the size. A name that does not exist has no
/// inode and no attributes.
pub proof fn law_kernel_sees_the_entry(e: EntryView)
    requires
        e.size <= i64::MAX,
    ensures
        ({
            let s = stat_of(e);
            &&& s.ino == e.inode && s.nlink == e.nlink && s.uid == e.uid && s.gid == e.gid
            &&& s.size == e.size
            &&& s.atime == e.atime && s.mtime == e.mtime && s.ctime == e.ctime
            &&& s.blocks * 512 >= e.size && (s.blocks - 1) * 512 < e.size
            &&& fuse_entry_of(e).inode == e.inode && fuse_entry_of(e).attr == Some(s)
            &&& negative_entry().inode == 0 && negative_entry().attr is None
        }),
{
}

/// Reading a number as signed and back loses nothing, and changes none that is not
/// negative.
pub proof fn law_signs_are_reversible(x: u64, y: i64)
    ensures
        as_unsigned(as_signed(x)) == x,
        as_signed(as_unsigned(y)) == y,
        x <= i64::MAX ==> as_signed(x) == x && capped_signed(x) == x,
        y >= 0 ==> as_unsigned(y) == y,
        x > i64::MAX ==> as_signed(x) < 0 && capped_signed(x) == i64::MAX,
{
}

/// A refresh takes over what the server says of an entry, but for the size of an
/// open file that is longer here.
pub proof fn law_refresh_takes_the_servers_attributes(x: EntryView, e: EntryView, now_ms: u64)
    ensures
        ({
            let m = merged(x, e, now_ms);
            &&& m.inode == x.inode && m.parent == x.parent && m.name == x.name
            &&& m.mode == e.mode && m.uid == e.uid && m.gid == e.gid && m.nlink == e.nlink
            &&& m.atime == e.atime && m.mtime == e.mtime && m.ctime == e.ctime
            &&& m.is_dir == e.is_dir && m.is_symlink == e.is_symlink
            &&& m.generation == e.generation && m.disk_size == e.disk_size && m.cached_at == now_ms
            &&& !(x.hold is Pinned) || x.content_size <= e.content_size ==> m.size == e.size
                && m.content_size == e.content_size
            &&& x.hold is Pinned && x.content_size > e.content_size ==> m.size == x.size
                && m.content_size == x.content_size
            &&& e.chunks.len() > 0 ==> m.chunks == e.chunks
            &&& e.chunks.len() == 0 ==> m.chunks == x.chunks
            &&& e.fid is Some ==> m.fid == e.fid
            &&& e.fid is None ==> m.fid == x.fid
        }),
{
}

/// Entry `j` of an ACL gives `perm` to `tag`, and no later one does.
pub open spec fn acl_says(d: Seq<u8>, j: int, tag: int, perm: u32) -> bool {
    &&& 0 <= j && 4 + 8 * (j + 1) <= d.len()
    &&& d[4 + 8 * j] + 256 * d[5 + 8 * j] == tag
    &&& d[6 + 8 * j] + 256 * d[7 + 8 * j] == perm
    &&& forall|k: int|
        j < k && 4 + 8 * (k + 1) <= d.len() ==> #[trigger] acl_tag(d, k) != tag
}

/// The tag of entry `k` of an ACL.
pub open spec fn acl_tag(d: Seq<u8>, k: int) -> int {
    d[4 + 8 * k] + 256 * d[5 + 8 * k]
}

proof fn lemma_acl_perm(d: Seq<u8>, n: int, tag: u16, j: int, perm: u32)
    requires
        0 <= j < n <= acl_len(d),
        d.len() >= 4,
        acl_says(d, j, tag as int, perm),
    ensures
        acl_perm(d, n, tag) == Some(perm),
    decreases n,
{
    if n - 1 > j {
        assert(acl_tag(d, n - 1) != tag);
        lemma_acl_perm(d, n - 1, tag, j, perm);
    }
}

proof fn lemma_acl_none(d: Seq<u8>, n: int, tag: u16)
    requires
        n <= acl_len(d),
        d.len() >= 4,
        forall|k: int| 0 <= k && 4 + 8 * (k + 1) <= d.len() ==> #[trigger] acl_tag(d, k) != tag,
    ensures
        acl_perm(d, n, tag) is None,
    decreases n,
{
    if n > 0 {
        assert(acl_tag(d, n - 1) != tag);
        lemma_acl_none(d, n - 1, tag);
    }
}

/// An access ACL stands for the mode whose three digits are the owner's permissions,
/// the mask, and the permissions of the others.
pub proof fn law_acls_stand_for_modes(
    d: Seq<u8>,
    cur_mode: u32,
    i: int,
    j: int,
    k: int,
    owner: u32,
    group: u32,
    other: u32,
)
    requires
        d.len() >= 4,
        d[0] == 2 && d[1] == 0 && d[2] == 0 && d[3] == 0,
        acl_says(d, i, 1, owner),
        acl_says(d, j, 0x20, group) || (acl_says(d, j, 4, group) && forall|k: int|
            0 <= k && 4 + 8 * (k + 1) <= d.len() ==> #[trigger] acl_tag(d, k) != 0x20),
        acl_says(d, k, 0x10, other),
        owner < 8,
        group < 8,
        other < 8,
    ensures
        acl_mode(d, cur_mode) == Some((owner * 64 + group * 8 + other) as u32),
{
    let n = acl_len(d);
    lemma_acl_perm(d, n, 1, i, owner);
    lemma_acl_perm(d, n, 0x10, k, other);
    if acl_says(d, j, 0x20, group) {
        lemma_acl_perm(d, n, 0x20, j, group);
    } else {
        lemma_acl_perm(d, n, 4, j, group);
        lemma_acl_none(d, n, 0x20);
    }
    assert(((owner << 6) | (group << 3) | other) == owner * 64 + group * 8 + other) by (bit_vector)
        requires
            owner < 8,
            group < 8,
            other < 8,
    ;
}

/// What is not an ACL of the known version stands for no mode, and an ACL without
/// entries for the permissions that are there.
pub proof fn law_empty_acls_change_nothing(d: Seq<u8>, cur_mode: u32)
    ensures
        d.len() < 4 ==> acl_mode(d, cur_mode) is None,
        d.len() >= 4 && !(d[0] == 2 && d[1] == 0 && d[2] == 0 && d[3] == 0) ==> acl_mode(
            d,
            cur_mode,
        ) is None,
        d.len() == 4 && d[0] == 2 && d[1] == 0 && d[2] == 0 && d[3] == 0 ==> acl_mode(d, cur_mode)
            == Some(cur_mode & 0o777),
{
    assert(((((cur_mode >> 6) & 0o7) << 6) | (((cur_mode >> 3) & 0o7) << 3) | (cur_mode & 0o7))
        == cur_mode & 0o777) by (bit_vector);
}

/// The number that some bytes write, the lowest first.
pub open spec fn value_of(b: Seq<u8>) -> nat
    decreases b.len(),
{
    if b.len() == 0 {
        0
    } else {
        (b[0] + 256 * value_of(b.skip(1))) as nat
    }
}

/// 256 to the power of `n`.
pub open spec fn bytes_range(n: nat) -> nat
    decreases n,
{
    if n == 0 {
        1
    } else {
        256 * bytes_range((n - 1) as nat)
    }
}

/// A number that fits is read back from its bytes.
pub proof fn law_numbers_are_read_back(x: nat, n: nat)
    requires
        x < bytes_range(n),
    ensures
        le_bytes(x, n).len() == n,
        value_of(le_bytes(x, n)) == x,
    decreases n,
{
    if n > 0 {
        let m = (n - 1) as nat;
        law_numbers_are_read_back(x / 256, m);
        let b = le_bytes(x, n);
        assert(b.skip(1) =~= le_bytes(x / 256, m));
    }
}

/// The message that makes the kernel forget an inode's data is 40 bytes long, says
/// so, names the inode, and covers all of its bytes.
pub proof fn law_inode_messages_name_the_inode(inode: u64)
    ensures
        ({
            let m = inval_inode_message(inode, true);
            &&& m.len() == 40
            &&& value_of(m.subrange(0, 4)) == 40
            &&& value_of(m.subrange(4, 8)) == 2
            &&& value_of(m.subrange(8, 16)) == 0
            &&& value_of(m.subrange(16, 24)) == inode
            &&& value_of(m.subrange(24, 32)) == 0
            &&& value_of(m.subrange(32, 40)) == u64::MAX
        }),
{
    reveal_with_fuel(bytes_range, 9);
    let m = inval_inode_message(inode, true);
    law_numbers_are_read_back(40, 4);
    law_numbers_are_read_back(2, 4);
    law_numbers_are_read_back(0, 8);
    law_numbers_are_read_back(inode as nat, 8);
    law_numbers_are_read_back(u64::MAX as nat, 8);
    assert(m.subrange(0, 4) =~= le_bytes(40, 4));
    assert(m.subrange(4, 8) =~= le_bytes(2, 4));
    assert(m.subrange(8, 16) =~= le_bytes(0, 8));
    assert(m.subrange(16, 24) =~= le_bytes(inode as nat, 8));
    assert(m.subrange(24, 32) =~= le_bytes(0, 8));
    assert(m.subrange(32, 40) =~= le_bytes(u64::MAX as nat, 8));
}

/// The message that makes the kernel forget a name says how long it is, names the
/// directory, and carries the name with a zero byte behind it.
pub proof fn law_name_messages_carry_the_name(parent: u64, name: Seq<u8>)
    requires
        name.len() <= 4096,
    ensures
        ({
            let m = inval_entry_message(parent, name, true);
            &&& m.len() % 8 == 0
            &&& value_of(m.subrange(0, 4)) == m.len()
            &&& value_of(m.subrange(4, 8)) == 0x1_0000_0000 - 3
            &&& value_of(m.subrange(8, 16)) == 0
            &&& value_of(m.subrange(16, 24)) == parent
            &&& value_of(m.subrange(24, 28)) == name.len()
            &&& m.subrange(32, (32 + name.len()) as int) == name
            &&& m.len() > 32 + name.len()
            &&& forall|i: int| 32 + name.len() <= i < m.len() ==> m[i] == 0
        }),
{
    reveal_with_fuel(bytes_range, 9);
    let m = inval_entry_message(parent, name, true);
    let p = padded(name.len());
    law_numbers_are_read_back((32 + p) as nat, 4);
    law_numbers_are_read_back((0x1_0000_0000 - 3) as nat, 4);
    law_numbers_are_read_back(0, 8);
    law_numbers_are_read_back(0, 4);
    law_numbers_are_read_back(parent as nat, 8);
    law_numbers_are_read_back(name.len(), 4);
    assert(m.subrange(0, 4) =~= le_bytes((32 + p) as nat, 4));
    assert(m.subrange(4, 8) =~= le_bytes((0x1_0000_0000 - 3) as nat, 4));
    assert(m.subrange(8, 16) =~= le_bytes(0, 8));
    assert(m.subrange(16, 24) =~= le_bytes(parent as nat, 8));
    assert(m.subrange(24, 28) =~= le_bytes(name.len(), 4));
    assert(m.subrange(32, (32 + name.len()) as int) =~= name);
}

/// A number that was written in decimal is read back.
pub proof fn law_decimals_are_read_back(n: nat)
    ensures
        number(decimal(n)) == n,
        decimal(n).len() > 0,
        forall|i: int| 0 <= i < decimal(n).len() ==> is_digit(#[trigger] decimal(n)[i]),
        n <= u16::MAX ==> parsed_u16(decimal(n)) == Some(n as u16),
    decreases n,
{
    let s = decimal(n);
    if n >= 10 {
        law_decimals_are_read_back(n / 10);
        let a = decimal(n / 10);
        assert(s.drop_last() =~= a);
        assert forall|i: int| 0 <= i < s.len() implies is_digit(#[trigger] s[i]) by {
            if i < a.len() {
                assert(s[i] == a[i]);
            }
        }
    } else {
        assert(s.drop_last() =~= Seq::<char>::empty());
        assert(number(s.drop_last()) == 0);
    }
    assert(is_digit(s[0]));
}

proof fn lemma_last_slash_of(dir: Seq<char>, name: Seq<char>, n: int)
    requires
        forall|i: int| 0 <= i < name.len() ==> #[trigger] name[i] != '/',
        0 <= n <= name.len(),
    ensures
        last_slash(dir.push('/') + name.take(n)) == dir.len(),
    decreases n,
{
    let s = dir.push('/') + name.take(n);
    if n > 0 {
        assert(s.last() == name[n - 1]);
        assert(s.drop_last() =~= dir.push('/') + name.take(n - 1));
        lemma_last_slash_of(dir, name, n - 1);
    } else {
        assert(s =~= dir.push('/'));
    }
}

/// A path is taken apart into what it was made of: the directory before the last
/// slash, and the name behind it.
pub proof fn law_paths_come_apart(dir: Seq<char>, name: Seq<char>)
    requires
        forall|i: int| 0 <= i < name.len() ==> #[trigger] name[i] != '/',
    ensures
        leaf_of(dir.push('/') + name) == name,
        dir.len() > 0 ==> parent_of(dir.push('/') + name) == dir,
        dir.len() == 0 ==> parent_of(dir.push('/') + name) == root_path(),
{
    let s = dir.push('/') + name;
    assert(name.take(name.len() as int) =~= name);
    lemma_last_slash_of(dir, name, name.len() as int);
    assert(s.skip((dir.len() + 1) as int) =~= name);
    assert(s.take(dir.len() as int) =~= dir);
}

/// The names of a path are the names that it was made of, from the top down.
pub proof fn law_joined_names_come_apart(parts: Seq<Seq<char>>)
    requires
        forall|j: int| #![trigger parts[j]]
            0 <= j < parts.len() ==> parts[j].len() > 0 && forall|i: int|
                0 <= i < parts[j].len() ==> #[trigger] parts[j][i] != '/',
    ensures
        components_of(join(parts)) == parts,
        parts.len() > 0 ==> join(parts) != root_path(),
        parts.len() == 0 ==> join(parts) == root_path(),
    decreases parts.len(),
{
    if parts.len() == 0 {
        let s = root_path();
        assert(s.last() == '/');
        assert(last_slash(s) == 0);
        assert(s.take(0) =~= Seq::<char>::empty());
        assert(leaf_of(s).len() == 0);
        let e = Seq::<char>::empty();
        assert(last_slash(e) == -1);
        assert(leaf_of(e).len() == 0);
        assert(components_of(e) =~= Seq::<Seq<char>>::empty());
        assert(components_of(s) =~= parts);
    } else {
        let p = parts.drop_last();
        let name = parts.last();
        assert(name == parts[parts.len() - 1]);
        assert forall|j: int| #![trigger p[j]] 0 <= j < p.len() implies p[j].len() > 0 && forall|
            i: int,
        |
            0 <= i < p[j].len() ==> #[trigger] p[j][i] != '/' by {
            assert(p[j] == parts[j]);
        }
        law_joined_names_come_apart(p);
        let above = join(p);
        let dir = if above == root_path() {
            Seq::<char>::empty()
        } else {
            above
        };
        let s = join(parts);
        assert(s =~= dir.push('/') + name);
        law_paths_come_apart(dir, name);
        assert(name.take(name.len() as int) =~= name);
        lemma_last_slash_of(dir, name, name.len() as int);
        assert(s.take(dir.len() as int) =~= dir);
        if dir.len() == 0 {
            assert(last_slash(dir) == -1);
            assert(leaf_of(dir).len() == 0);
            assert(components_of(dir) =~= Seq::<Seq<char>>::empty());
            assert(p.len() == 0);
        }
        assert(components_of(s) =~= components_of(dir).push(name));
        assert(p.push(name) =~= parts);
        assert(s.len() >= 2);
    }
}

/// No two status codes are the same.
pub open spec fn codes_differ(c: StatusCodes) -> bool {
    seq![
        c.not_found,
        c.already_exists,
        c.permission_denied,
        c.io,
        c.invalid_arg,
        c.not_dir,
        c.is_dir,
        c.no_space,
        c.bad_fd,
        c.server_error,
        c.bad_request,
    ].no_duplicates()
}

/// Each status of the server becomes the error number that the kernel knows it by.
pub proof fn law_statuses_become_errors(c: StatusCodes)
    requires
        codes_differ(c),
    ensures
        errno_of_status(c.not_found, c) == 2,
        errno_of_status(c.already_exists, c) == 17,
        errno_of_status(c.permission_denied, c) == 13,
        errno_of_status(c.io, c) == 5,
        errno_of_status(c.invalid_arg, c) == 22,
        errno_of_status(c.not_dir, c) == 20,
        errno_of_status(c.is_dir, c) == 21,
        errno_of_status(c.no_space, c) == 28,
        errno_of_status(c.bad_fd, c) == 9,
        errno_of_status(c.server_error, c) == 5,
        errno_of_status(c.bad_request, c) == 22,
{
    let s = seq![
        c.not_found,
        c.already_exists,
        c.permission_denied,
        c.io,
        c.invalid_arg,
        c.not_dir,
        c.is_dir,
        c.no_space,
        c.bad_fd,
        c.server_error,
        c.bad_request,
    ];
    assert forall|i: int, j: int| 0 <= i < j < s.len() implies #[trigger] s[i] != #[trigger] s[j] by {}
    assert(s[0] == c.not_found && s[1] == c.already_exists && s[2] == c.permission_denied && s[3]
        == c.io && s[4] == c.invalid_arg && s[5] == c.not_dir && s[6] == c.is_dir && s[7]
        == c.no_space && s[8] == c.bad_fd && s[9] == c.server_error && s[10] == c.bad_request);
}

/// What caps do, bit by bit. A change makes its bits dirty. A recall leaves exactly
/// what is retained, and what was dirty of the rest has to be flushed. An upgrade
/// adds what is granted. A flush that arrived leaves nothing to be flushed.
pub proof fn law_caps_bit_by_bit(cap: CapView, s: CapSet, epoch: u64, seq: u64, i: u8)
    requires
        i < 8,
    ensures
        cap.dirtied(s).dirty_caps.bit(i) == (cap.dirty_caps.bit(i) || s.bit(i)),
        cap.dirtied(s).issued == cap.issued,
        cap.recalled(s, epoch).issued.bit(i) == s.bit(i),
        cap.recalled(s, epoch).implemented.bit(i) == (cap.implemented.bit(i) && s.bit(i)),
        cap.recalled(s, epoch).flushing_caps.bit(i) == (cap.flushing_caps.bit(i) || (
        cap.dirty_caps.bit(i) && cap.issued.bit(i) && !s.bit(i))),
        cap.recalled(s, epoch).dirty_caps.bit(i) == (cap.dirty_caps.bit(i) && !(cap.issued.bit(i)
            && !s.bit(i))),
        cap.recalled(s, epoch).epoch == epoch,
        cap.upgraded(s, epoch, seq).issued.bit(i) == (cap.issued.bit(i) || s.bit(i)),
        cap.upgraded(s, epoch, seq).implemented.bit(i) == (cap.implemented.bit(i) || s.bit(i)),
        cap.upgraded(s, epoch, seq).epoch == epoch && cap.upgraded(s, epoch, seq).seq == seq,
        cap.granted(s, seq, epoch).issued == s,
        cap.granted(s, seq, epoch).dirty_caps.bit(i) == (cap.dirty_caps.bit(i) && !s.bit(i)),
        !cap.flushed().flushing_caps.bit(i),
        cap.flushed().dirty_caps == cap.dirty_caps && cap.flushed().issued == cap.issued,
{
    let d = cap.dirty_caps.0;
    let f = cap.flushing_caps.0;
    let a = cap.issued.0;
    let m = cap.implemented.0;
    let t = s.0;
    assert(((d | t) >> i) & 1 == 1 <==> (d >> i) & 1 == 1 || (t >> i) & 1 == 1) by (bit_vector)
        requires
            i < 8,
    ;
    assert(((m & t) >> i) & 1 == 1 <==> (m >> i) & 1 == 1 && (t >> i) & 1 == 1) by (bit_vector)
        requires
            i < 8,
    ;
    assert(((f | (d & (a & !t))) >> i) & 1 == 1 <==> (f >> i) & 1 == 1 || ((d >> i) & 1 == 1 && (a
        >> i) & 1 == 1 && !((t >> i) & 1 == 1))) by (bit_vector)
        requires
            i < 8,
    ;
    assert(((d & !(a & !t)) >> i) & 1 == 1 <==> (d >> i) & 1 == 1 && !((a >> i) & 1 == 1 && !((t
        >> i) & 1 == 1))) by (bit_vector)
        requires
            i < 8,
    ;
    assert(((a | t) >> i) & 1 == 1 <==> (a >> i) & 1 == 1 || (t >> i) & 1 == 1) by (bit_vector)
        requires
            i < 8,
    ;
    assert(((m | t) >> i) & 1 == 1 <==> (m >> i) & 1 == 1 || (t >> i) & 1 == 1) by (bit_vector)
        requires
            i < 8,
    ;
    assert(((d & !t) >> i) & 1 == 1 <==> (d >> i) & 1 == 1 && !((t >> i) & 1 == 1)) by (bit_vector)
        requires
            i < 8,
    ;
    assert(!((0u8 >> i) & 1 == 1)) by (bit_vector)
        requires
            i < 8,
    ;
}

/// Two locks share byte `x` and are of different types.
pub open spec fn contended(a: FileLock, b: FileLock, x: u64) -> bool {
    a.start <= x < a.end && b.start <= x < b.end && a.lock_type != b.lock_type
}

/// A lock is in the way of another exactly if both cover some byte and differ in
/// type; and a lock that is not in the way of any is granted.
pub proof fn law_locks_guard_bytes(held: Seq<FileLock>, lock: FileLock)
    requires
        lock.start < lock.end,
        forall|i: int| 0 <= i < held.len() ==> (#[trigger] held[i]).start < held[i].end,
    ensures
        first_clash(held, lock) is Some <==> exists|i: int, x: u64|
            0 <= i < held.len() && #[trigger] contended(held[i], lock, x),
        first_clash(held, lock) matches Some(l) ==> held.contains(l),
    decreases held.len(),
{
    if held.len() > 0 {
        let p = held.drop_last();
        let last = held.len() - 1;
        assert forall|i: int| 0 <= i < p.len() implies (#[trigger] p[i]).start < p[i].end by {
            assert(p[i] == held[i]);
        }
        law_locks_guard_bytes(p, lock);
        assert(held[last].start < held[last].end);
        if first_clash(p, lock) is Some {
            let (i, x) = choose|i: int, x: u64|
                0 <= i < p.len() && #[trigger] contended(p[i], lock, x);
            assert(contended(held[i], lock, x));
            let j = choose|j: int| 0 <= j < p.len() && p[j] == first_clash(p, lock)->0;
            assert(held[j] == first_clash(held, lock)->0);
        } else if clash(held[last], lock) {
            let x = if held[last].start > lock.start {
                held[last].start
            } else {
                lock.start
            };
            assert(contended(held[last], lock, x));
            assert(held[last] == first_clash(held, lock)->0);
        }
        if exists|i: int, x: u64| 0 <= i < held.len() && #[trigger] contended(held[i], lock, x) {
            let (i, x) = choose|i: int, x: u64|
                0 <= i < held.len() && #[trigger] contended(held[i], lock, x);
            if i < last {
                assert(contended(p[i], lock, x));
            }
        }
    }
}

/// Unlocking a range drops the locks on exactly that range and no other.
pub proof fn law_unlocking_drops_one_range(
    held: Seq<FileLock>,
    start: u64,
    end: u64,
    l: FileLock,
)
    ensures
        released(held, start, end).contains(l) <==> held.contains(l) && !(l.start == start && l.end
            == end),
    decreases held.len(),
{
    if held.len() > 0 {
        let p = held.drop_last();
        law_unlocking_drops_one_range(p, start, end, l);
        let r = released(held, start, end);
        let b = released(p, start, end);
        assert(held[held.len() - 1] == held.last());
        if p.contains(l) {
            let j = choose|j: int| 0 <= j < p.len() && p[j] == l;
            assert(held[j] == l);
        }
        if held.contains(l) && l != held.last() {
            let j = choose|j: int| 0 <= j < held.len() && held[j] == l;
            assert(p[j] == l);
        }
        if b.contains(l) && r.len() > b.len() {
            let j = choose|j: int| 0 <= j < b.len() && b[j] == l;
            assert(r[j] == l);
        }
        if r.contains(l) && r.len() > b.len() && l != held.last() {
            let j = choose|j: int| 0 <= j < r.len() && r[j] == l;
            assert(b[j] == l);
        }
        if r.len() > b.len() {
            assert(r[b.len() as int] == held.last());
        }
    }
}

/// Room is made in the right place: a clean chunk goes before one that was modified
/// after it, and where the cache is still too full, nothing but dirty chunks, and
/// chunks without a place in time, is left.
pub proof fn law_old_clean_chunks_go_first(
    m: Chunks,
    limit: u64,
    gone: (u64, u64),
    kept: (u64, u64),
)
    requires
        m.dom().finite(),
    ensures
        m.contains_key(gone) && !evicted(m, limit).contains_key(gone) && evicted(
            m,
            limit,
        ).contains_key(kept) && !evicted(m, limit)[kept].dirty && evicted(m, limit)[kept].mtime
            < u64::MAX ==> m[gone].mtime <= m[kept].mtime,
        counter(evicted(m, limit)) > limit && evicted(m, limit).contains_key(kept) ==> evicted(
            m,
            limit,
        )[kept].dirty || evicted(m, limit)[kept].mtime == u64::MAX,
        counter(m) <= limit ==> evicted(m, limit) == m,
{
    law_eviction_reaches_limit(m, limit);
    let e = evicted(m, limit);
    if m.contains_key(gone) && !e.contains_key(gone) && e.contains_key(kept) && !e[kept].dirty
        && e[kept].mtime < u64::MAX {
        assert(evictable(e, kept));
        law_eviction_takes_oldest(m, limit, gone, kept);
    }
    if counter(e) > limit && e.contains_key(kept) {
        assert(!evictable(e, kept));
    }
}

/// A cut keeps every chunk that starts before it, with all bytes before the cut, and
/// every chunk of every other file.
pub proof fn law_cut_keeps_what_lies_before(
    m: Chunks,
    inode: u64,
    size: u64,
    chunk_size: u64,
    k: (u64, u64),
)
    requires
        m.contains_key(k),
    ensures
        ({
            let t = truncated(m, inode, size, chunk_size);
            &&& k.0 != inode ==> t.contains_key(k) && t[k] == m[k]
            &&& k.0 == inode && k.1 * chunk_size < size ==> t.contains_key(k)
            &&& k.0 == inode && k.1 * chunk_size >= size ==> !t.contains_key(k)
            &&& k.0 == inode && k.1 * chunk_size + m[k].data.len() <= size && t.contains_key(k)
                ==> t[k] == m[k]
            &&& k.0 == inode && k.1 * chunk_size < size && k.1 * chunk_size + m[k].data.len() > size
                ==> t[k].data == m[k].data.take(size - k.1 * chunk_size)
        }),
{
}

/// The least recently used entry goes first: an entry that was just used stays when
/// another one comes into a full table.
pub proof fn law_used_entries_stay(v: MetaView, used: u64, e: EntryView, now_ms: u64, other: u64)
    requires
        v.wf(),
        v.has(used),
        v.capacity >= 2,
        e.inode != used,
    ensures
        v.fetched(used, now_ms).pushed(e.inode, e).has(used),
        v.fetched(used, now_ms).pushed(e.inode, e).has(e.inode),
        v.has(other) && !v.has(e.inode) && v.order.len() == v.capacity && !v.fetched(
            used,
            now_ms,
        ).pushed(e.inode, e).has(other) ==> other == v.fetched(used, now_ms).order.last(),
        v.fetched(used, now_ms).order[0] == used,
{
    let f = v.fetched(used, now_ms);
    lemma_without(v.order, used);
    assert(f.order == seq![used] + without(v.order, used));
    if !f.has(e.inode) && f.order.len() >= f.capacity {
        assert(f.order.len() >= 2);
        let w = without(v.order, used);
        assert(f.order.last() == w.last());
        assert(w.contains(w[w.len() - 1]));
        assert(f.order.last() != used);
    }
}

/// A text without a separator is cut off right before it.
pub proof fn law_hosts_stand_before_the_colon(host: Seq<char>, rest: Seq<char>)
    requires
        forall|i: int| 0 <= i < host.len() ==> #[trigger] host[i] != ':',
    ensures
        until_colon(host.push(':') + rest) == host,
        until_colon(host) == host,
    decreases host.len(),
{
    let s = host.push(':') + rest;
    if host.len() > 0 {
        let t = host.skip(1);
        assert forall|i: int| 0 <= i < t.len() implies #[trigger] t[i] != ':' by {
            assert(t[i] == host[i + 1]);
        }
        law_hosts_stand_before_the_colon(t, rest);
        assert(s[0] == host[0]);
        assert(s.skip(1) =~= t.push(':') + rest);
        assert(seq![host[0]] + t =~= host);
    } else {
        assert(s[0] == ':');
        assert(until_colon(s) =~= host);
        assert(until_colon(host) =~= host);
    }
}

/// The host of an address is what stands between its protocol and its port.
pub proof fn law_hosts_are_found(host: Seq<char>, port: Seq<char>)
    requires
        forall|i: int| 0 <= i < host.len() ==> #[trigger] host[i] != ':',
    ensures
        host_of("http://"@ + host.push(':') + port) == host,
        host_of("https://"@ + host.push(':') + port) == host,
        !stands_at(host.push(':') + port, "http://"@, 0) && !stands_at(
            host.push(':') + port,
            "https://"@,
            0,
        ) ==> host_of(host.push(':') + port) == host,
{
    reveal_strlit("http://");
    reveal_strlit("https://");
    law_hosts_stand_before_the_colon(host, port);
    let p = "http://"@;
    let q = "https://"@;
    let a = p + host.push(':') + port;
    let b = q + host.push(':') + port;
    let c = host.push(':') + port;
    assert(a.subrange(0, 7) =~= p);
    assert(b.subrange(0, 8) =~= q);
    assert(a.skip(7) =~= c);
    assert(b.skip(8) =~= c);
    assert(!stands_at(b, p, 0)) by {
        if stands_at(b, p, 0) {
            assert(b.subrange(0, 7)[4] == p[4]);
        }
    }
}

/// The first line of a request ends right before the first line break.
pub proof fn law_lines_end_at_the_break(line: Seq<char>, rest: Seq<char>)
    requires
        forall|i: int| 0 <= i < line.len() ==> #[trigger] line[i] != '\n',
    ensures
        first_line(line.push('\n') + rest) == line,
        first_line(line) == line,
    decreases line.len(),
{
    let s = line.push('\n') + rest;
    if line.len() > 0 {
        let t = line.skip(1);
        assert forall|i: int| 0 <= i < t.len() implies #[trigger] t[i] != '\n' by {
            assert(t[i] == line[i + 1]);
        }
        law_lines_end_at_the_break(t, rest);
        assert(s[0] == line[0]);
        assert(s.skip(1) =~= t.push('\n') + rest);
        assert(seq![line[0]] + t =~= line);
    } else {
        assert(s[0] == '\n');
        assert(first_line(s) =~= line);
        assert(first_line(line) =~= line);
    }
}

proof fn lemma_until_space_of(word: Seq<char>, rest: Seq<char>)
    requires
        forall|i: int| 0 <= i < word.len() ==> !is_space(#[trigger] word[i]),
    ensures
        until_space(word.push(' ') + rest) == word,
    decreases word.len(),
{
    let s = word.push(' ') + rest;
    if word.len() > 0 {
        let t = word.skip(1);
        assert forall|i: int| 0 <= i < t.len() implies !is_space(#[trigger] t[i]) by {
            assert(t[i] == word[i + 1]);
        }
        lemma_until_space_of(t, rest);
        assert(s[0] == word[0]);
        assert(s.skip(1) =~= t.push(' ') + rest);
        assert(seq![word[0]] + t =~= word);
    } else {
        assert(s[0] == ' ');
        assert(until_space(s) =~= word);
    }
}

/// The path of a request is the second word of its first line.
pub proof fn law_requests_name_their_path(
    method: Seq<char>,
    path: Seq<char>,
    version: Seq<char>,
    rest: Seq<char>,
)
    requires
        method.len() > 0,
        path.len() > 0,
        forall|i: int| 0 <= i < method.len() ==> !is_space(#[trigger] method[i]),
        forall|i: int| 0 <= i < path.len() ==> !is_space(#[trigger] path[i]),
        forall|i: int| 0 <= i < version.len() ==> #[trigger] version[i] != '\n',
    ensures
        requested_path(
            (method.push(' ') + (path.push(' ') + version)).push('\n') + rest,
        ) == path,
{
    let tail = path.push(' ') + version;
    let line = method.push(' ') + tail;
    assert forall|i: int| 0 <= i < line.len() implies #[trigger] line[i] != '\n' by {
        let m = method.len() as int;
        let p = path.len() as int;
        if i < m {
            assert(line[i] == method[i]);
        } else if m < i < m + 1 + p {
            assert(line[i] == path[i - m - 1]);
        } else if i > m + 1 + p {
            assert(line[i] == version[i - m - p - 2]);
        }
    }
    law_lines_end_at_the_break(line, rest);
    lemma_until_space_of(method, tail);
    lemma_until_space_of(path, version);
    assert(line[0] == method[0]);
    assert(skip_space(line) == line);
    let left = behind_word(line);
    assert(left =~= seq![' '] + tail);
    assert(left[0] == ' ');
    assert(left.skip(1) =~= tail);
    assert(tail[0] == path[0]);
    assert(skip_space(tail) == tail);
    assert(skip_space(left) == skip_space(left.skip(1)));
}

/// A status that a message embeds is read where the message first says so.
pub proof fn law_embedded_statuses_are_read(e: Seq<char>, i: int)
    requires
        is_first_at(e, "server status "@, i),
    ensures
        embedded_status(e) == parsed_u16(first_word(e.skip(i + 14))),
{
    reveal_strlit("server status ");
    let j = choose|j: int| is_first_at(e, "server status "@, j);
    assert(occurs(e, "server status "@)) by {
        assert(stands_at(e, "server status "@, i));
    }
    assert(is_first_at(e, "server status "@, j));
    if i < j {
        assert(!stands_at(e, "server status "@, i));
    } else if j < i {
        assert(!stands_at(e, "server status "@, j));
    }
}

/// A message that speaks of one trouble only becomes the error number of that trouble,
/// and one that speaks of none is an I/O error. A message of a directory that is not
/// empty stays that, whatever else it says.
pub proof fn law_phrases_become_errors(m: Seq<char>)
    ensures
        ({
            let full = occurs(m, "not empty"@);
            let absent = occurs(m, "not found"@) || occurs(m, "no such file"@);
            let exists_ = occurs(m, "already exists"@);
            let denied = occurs(m, "permission denied"@) || occurs(m, "access denied"@);
            let no_dir = occurs(m, "not a directory"@);
            let dir = occurs(m, "is a directory"@);
            let space = occurs(m, "no space"@);
            let bad = occurs(m, "invalid argument"@) || occurs(m, "bad request"@);
            let e = errno_of_phrase(m);
            &&& full ==> e == 39
            &&& absent && !full ==> e == 2
            &&& exists_ && !full && !absent ==> e == 17
            &&& denied && !full && !absent && !exists_ ==> e == 13
            &&& no_dir && !full && !absent && !exists_ && !denied ==> e == 20
            &&& dir && !full && !absent && !exists_ && !denied && !no_dir ==> e == 21
            &&& space && !full && !absent && !exists_ && !denied && !no_dir && !dir ==> e == 28
            &&& bad && !full && !absent && !exists_ && !denied && !no_dir && !dir && !space ==> e
                == 22
            &&& !full && !absent && !exists_ && !denied && !no_dir && !dir && !space && !bad ==> e
                == 5
        }),
{
}

} // verus!
