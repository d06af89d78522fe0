//! File modes out of POSIX ACL attributes.
//!
//! An ACL attribute is a little-endian version word (2), then entries of
//! eight bytes: a tag, a permission, and an id that the mode does not need.

use vstd::prelude::*;

verus! {

/// The tag of the owner's entry.
pub const ACL_USER_OBJ: u16 = 1;

/// The tag of the owning group's entry.
pub const ACL_GROUP_OBJ: u16 = 4;

/// The tag of the entry for everybody else.
pub const ACL_OTHER: u16 = 0x10;

/// The tag of the mask entry.
pub const ACL_MASK: u16 = 0x20;

/// The 16-bit number at place `i`, little end first.
pub open spec fn le16(d: Seq<u8>, i: int) -> int {
    d[i] + 256 * d[i + 1]
}

/// The 32-bit number at place `i`, little end first.
pub open spec fn le32(d: Seq<u8>, i: int) -> int {
    le16(d, i) + 65536 * le16(d, i + 2)
}

/// How many whole entries follow the version word.
pub open spec fn acl_len(d: Seq<u8>) -> int {
    if d.len() < 4 {
        0
    } else {
        (d.len() - 4) / 8
    }
}

/// The permission of the last of the first `n` entries that has the tag.
pub open spec fn acl_perm(d: Seq<u8>, n: int, tag: u16) -> Option<u32>
    decreases n,
{
    if n <= 0 {
        None
    } else if le16(d, 4 + 8 * (n - 1)) == tag {
        Some(le16(d, 4 + 8 * (n - 1) + 2) as u32)
    } else {
        acl_perm(d, n - 1, tag)
    }
}

/// The first value that is there.
pub open spec fn first_of(a: Option<u32>, b: Option<u32>, c: u32) -> u32 {
    match a {
        Some(x) => x,
        None => match b {
            Some(x) => x,
            None => c,
        },
    }
}

/// The mode that an ACL stands for, with `cur_mode` for what it leaves out.
///
/// With an entry for others, the group bits are the mask, or else the owning
/// group's permission. Without one, the mask stands for the others' bits.
pub open spec fn acl_mode(d: Seq<u8>, cur_mode: u32) -> Option<u32> {
    if d.len() < 4 || le32(d, 0) != 2 {
        None
    } else {
        let n = acl_len(d);
        let mask = acl_perm(d, n, ACL_MASK);
        let group_obj = acl_perm(d, n, ACL_GROUP_OBJ);
        let owner = first_of(acl_perm(d, n, ACL_USER_OBJ), None, (cur_mode >> 6) & 0o7);
        let (group, other) = match acl_perm(d, n, ACL_OTHER) {
            Some(o) => (first_of(mask, group_obj, (cur_mode >> 3) & 0o7), o),
            None => (
                first_of(group_obj, None, (cur_mode >> 3) & 0o7),
                first_of(mask, None, cur_mode & 0o7),
            ),
        };
        Some((owner << 6) | (group << 3) | other)
    }
}

/// The 16-bit number at place `i`, little end first.
fn read_le16(d: &[u8], i: usize) -> (r: u16)
    requires
        i + 1 < d@.len(),
    ensures
        r == le16(d@, i as int),
{
    (d[i] as u16) + 256 * (d[i + 1] as u16)
}

/// `a`, or `b`.
fn or_else(a: Option<u32>, b: u32) -> (r: u32)
    ensures
        r == first_of(a, None, b),
{
    match a {
        Some(x) => x,
        None => b,
    }
}

/// The file mode that an ACL attribute stands for; none where the data is too
/// short or of another version.
pub fn parse_posix_acl_mode(acl_data: &[u8], cur_mode: u32) -> (r: Option<u32>)
    ensures
        r == acl_mode(acl_data@, cur_mode),
{
    let len: usize = acl_data.len();
    if len < 4 {
        return None;
    }
    if read_le16(acl_data, 0) != 2 || read_le16(acl_data, 2) != 0 {
        return None;
    }
    let mut user_obj: Option<u32> = None;
    let mut group_obj: Option<u32> = None;
    let mut mask: Option<u32> = None;
    let mut other: Option<u32> = None;
    let mut offset: usize = 4;
    let ghost mut n: int = 0;
    let ghost d = acl_data@;
    while len - offset >= 8
        invariant
            d == acl_data@,
            len == d.len(),
            0 <= n,
            offset == 4 + 8 * n,
            offset <= len,
            user_obj == acl_perm(d, n, ACL_USER_OBJ),
            group_obj == acl_perm(d, n, ACL_GROUP_OBJ),
            mask == acl_perm(d, n, ACL_MASK),
            other == acl_perm(d, n, ACL_OTHER),
        decreases len - offset,
    {
        let tag: u16 = read_le16(acl_data, offset);
        let perm: u32 = read_le16(acl_data, offset + 2) as u32;
        if tag == ACL_USER_OBJ {
            user_obj = Some(perm);
        } else if tag == ACL_GROUP_OBJ {
            group_obj = Some(perm);
        } else if tag == ACL_MASK {
            mask = Some(perm);
        } else if tag == ACL_OTHER {
            other = Some(perm);
        }
        offset = offset + 8;
        proof {
            n = n + 1;
        }
    }
    assert(n == acl_len(d));
    let owner: u32 = or_else(user_obj, (cur_mode >> 6) & 0o7);
    let cur_group: u32 = (cur_mode >> 3) & 0o7;
    let (group, others): (u32, u32) = match other {
        Some(o) => {
            let g: u32 = match mask {
                Some(m) => m,
                None => or_else(group_obj, cur_group),
            };
            (g, o)
        },
        None => (or_else(group_obj, cur_group), or_else(mask, cur_mode & 0o7)),
    };
    Some((owner << 6) | (group << 3) | others)
}

} // verus!
