//! Searching in text, and what server messages mean.

use crate::text::chars_of;
use vstd::prelude::*;
use vstd::string::*;

verus! {

/// `needle` stands in `s` at place `i`.
pub open spec fn stands_at(s: Seq<char>, needle: Seq<char>, i: int) -> bool {
    0 <= i && i + needle.len() <= s.len() && s.subrange(i, i + needle.len()) == needle
}

/// `needle` stands somewhere in `s`.
pub open spec fn occurs(s: Seq<char>, needle: Seq<char>) -> bool {
    exists|i: int| stands_at(s, needle, i)
}

/// The first place at which `needle` stands in `s`.
pub open spec fn is_first_at(s: Seq<char>, needle: Seq<char>, i: int) -> bool {
    stands_at(s, needle, i) && forall|j: int| 0 <= j < i ==> !stands_at(s, needle, j)
}

/// White space, as Unicode defines it.
pub open spec fn is_space(c: char) -> bool {
    let n = c as u32;
    (0x9 <= n <= 0xd) || n == 0x20 || n == 0x85 || n == 0xa0 || n == 0x1680 || (0x2000 <= n
        <= 0x200a) || n == 0x2028 || n == 0x2029 || n == 0x202f || n == 0x205f || n == 0x3000
}

/// The text without the white space at its start.
pub open spec fn skip_space(s: Seq<char>) -> Seq<char>
    decreases s.len(),
{
    if s.len() > 0 && is_space(s[0]) {
        skip_space(s.skip(1))
    } else {
        s
    }
}

/// The text up to the first white space.
pub open spec fn until_space(s: Seq<char>) -> Seq<char>
    decreases s.len(),
{
    if s.len() == 0 || is_space(s[0]) {
        Seq::empty()
    } else {
        seq![s[0]] + until_space(s.skip(1))
    }
}

/// The first word of a text; empty where there is none.
pub open spec fn first_word(s: Seq<char>) -> Seq<char> {
    until_space(skip_space(s))
}

/// What is left of a text behind its first word.
pub open spec fn behind_word(s: Seq<char>) -> Seq<char> {
    skip_space(s).skip(first_word(s).len() as int)
}

/// A decimal digit.
pub open spec fn is_digit(c: char) -> bool {
    0x30 <= c as u32 <= 0x39
}

/// The number that some digits write.
pub open spec fn number(s: Seq<char>) -> nat
    decreases s.len(),
{
    if s.len() == 0 {
        0
    } else {
        number(s.drop_last()) * 10 + (s.last() as u32 - 0x30) as nat
    }
}

/// The digits of a number, which may have a plus sign in front.
pub open spec fn unsigned_digits(s: Seq<char>) -> Seq<char> {
    if s.len() > 0 && s[0] == '+' {
        s.skip(1)
    } else {
        s
    }
}

/// The 16-bit number that a text writes, if it writes one.
pub open spec fn parsed_u16(s: Seq<char>) -> Option<u16> {
    let d = unsigned_digits(s);
    if d.len() > 0 && (forall|i: int| 0 <= i < d.len() ==> is_digit(#[trigger] d[i])) && number(d)
        <= u16::MAX {
        Some(number(d) as u16)
    } else {
        None
    }
}

/// True if `needle` stands in `s` at place `i`.
fn check_at(s: &Vec<char>, needle: &Vec<char>, i: usize) -> (r: bool)
    requires
        i + needle@.len() <= s@.len(),
    ensures
        r == stands_at(s@, needle@, i as int),
{
    let n: usize = s.len();
    let mut j: usize = 0;
    while j < needle.len()
        invariant
            j <= needle.len(),
            n == s@.len(),
            i + needle@.len() <= n,
            forall|k: int| 0 <= k < j ==> s@[i + k] == needle@[k],
        decreases needle.len() - j,
    {
        if s[i + j] != needle[j] {
            assert(s@.subrange(i as int, i + needle@.len())[j as int] != needle@[j as int]);
            return false;
        }
        j += 1;
    }
    assert(s@.subrange(i as int, i + needle@.len()) =~= needle@);
    true
}

/// The first place at which `needle` stands in `s`.
pub fn find_text(s: &str, needle: &str) -> (r: Option<usize>)
    ensures
        match r {
            Some(i) => is_first_at(s@, needle@, i as int),
            None => !occurs(s@, needle@),
        },
{
    let sc: Vec<char> = chars_of(s);
    let nc: Vec<char> = chars_of(needle);
    if nc.len() > sc.len() {
        assert forall|i: int| !stands_at(s@, needle@, i) by {}
        return None;
    }
    let last: usize = sc.len() - nc.len();
    let mut i: usize = 0;
    while i <= last
        invariant
            sc@ == s@,
            nc@ == needle@,
            last == sc.len() - nc.len(),
            i <= last + 1,
            last < usize::MAX || i <= last,
            forall|j: int| 0 <= j < i ==> !stands_at(s@, needle@, j),
        decreases last + 1 - i,
    {
        if check_at(&sc, &nc, i) {
            return Some(i);
        }
        if i == last {
            assert forall|j: int| !stands_at(s@, needle@, j) by {
                if j > i {
                    assert(j + needle@.len() > s@.len());
                }
            }
            return None;
        }
        i += 1;
    }
    assert forall|j: int| !stands_at(s@, needle@, j) by {}
    None
}

/// True if `needle` stands somewhere in `s`.
pub fn contains_text(s: &str, needle: &str) -> (r: bool)
    ensures
        r == occurs(s@, needle@),
{
    match find_text(s, needle) {
        Some(i) => {
            assert(stands_at(s@, needle@, i as int));
            true
        },
        None => false,
    }
}

/// True if `s` begins with `head`.
pub fn begins_with(s: &str, head: &str) -> (r: bool)
    ensures
        r == stands_at(s@, head@, 0),
{
    let sc: Vec<char> = chars_of(s);
    let hc: Vec<char> = chars_of(head);
    if hc.len() > sc.len() {
        false
    } else {
        check_at(&sc, &hc, 0)
    }
}

/// True for white space.
fn is_space_char(c: char) -> (r: bool)
    ensures
        r == is_space(c),
{
    let n: u32 = c as u32;
    (0x9 <= n && n <= 0xd) || n == 0x20 || n == 0x85 || n == 0xa0 || n == 0x1680 || (0x2000 <= n
        && n <= 0x200a) || n == 0x2028 || n == 0x2029 || n == 0x202f || n == 0x205f || n == 0x3000
}

proof fn lemma_until_space_prefix(s: Seq<char>, n: int)
    requires
        0 <= n <= s.len(),
        forall|i: int| 0 <= i < n ==> !is_space(#[trigger] s[i]),
        n < s.len() ==> is_space(s[n]),
    ensures
        until_space(s) == s.take(n),
    decreases n,
{
    if n == 0 {
        assert(s.take(0) =~= Seq::<char>::empty());
    } else {
        let t = s.skip(1);
        assert forall|i: int| 0 <= i < n - 1 implies !is_space(#[trigger] t[i]) by {
            assert(t[i] == s[i + 1]);
        }
        if n - 1 < t.len() {
            assert(t[n - 1] == s[n]);
        }
        lemma_until_space_prefix(t, n - 1);
        assert(seq![s[0]] + t.take(n - 1) =~= s.take(n));
    }
}

/// Split the first word off: the word, and what is left behind it.
pub fn split_word(s: &str) -> (r: (String, String))
    ensures
        r.0@ == first_word(s@),
        r.1@ == behind_word(s@),
{
    let cs: Vec<char> = chars_of(s);
    let n: usize = s.unicode_len();
    let mut a: usize = 0;
    assert(s@.skip(0) =~= s@);
    while a < cs.len() && is_space_char(cs[a])
        invariant
            cs@ == s@,
            a <= cs.len(),
            skip_space(s@) == skip_space(s@.skip(a as int)),
        decreases cs.len() - a,
    {
        assert(s@.skip(a as int)[0] == s@[a as int]);
        assert(s@.skip(a as int).skip(1) =~= s@.skip(a as int + 1));
        a += 1;
    }
    let ghost rest = s@.skip(a as int);
    proof {
        if a < s@.len() {
            assert(rest[0] == s@[a as int]);
        }
        assert(skip_space(s@) == rest);
    }
    let mut b: usize = a;
    while b < cs.len() && !is_space_char(cs[b])
        invariant
            cs@ == s@,
            a <= b <= cs.len(),
            forall|i: int| a <= i < b ==> !is_space(#[trigger] s@[i]),
        decreases cs.len() - b,
    {
        b += 1;
    }
    proof {
        assert forall|i: int| 0 <= i < b - a implies !is_space(#[trigger] rest[i]) by {
            assert(rest[i] == s@[a + i]);
        }
        if b < s@.len() {
            assert(rest[b - a] == s@[b as int]);
        }
        lemma_until_space_prefix(rest, b - a);
        assert(s@.subrange(a as int, b as int) =~= rest.take(b - a));
        assert(s@.subrange(b as int, n as int) =~= rest.skip(b - a));
    }
    (s.substring_char(a, b).to_owned(), s.substring_char(b, n).to_owned())
}

proof fn lemma_number_grows(s: Seq<char>, n: int)
    requires
        0 <= n <= s.len(),
    ensures
        number(s) >= number(s.take(n)),
    decreases s.len() - n,
{
    if n < s.len() {
        lemma_number_grows(s, n + 1);
        assert(s.take(n + 1).drop_last() =~= s.take(n));
        let a = number(s.take(n));
        assert(a * 10 >= a);
    } else {
        assert(s.take(n) =~= s);
    }
}

/// The 16-bit number that a text writes.
pub fn parse_u16(s: &str) -> (r: Option<u16>)
    ensures
        r == parsed_u16(s@),
{
    let cs: Vec<char> = chars_of(s);
    let start: usize = if cs.len() > 0 && cs[0] == '+' {
        1
    } else {
        0
    };
    let ghost d = unsigned_digits(s@);
    assert(d =~= s@.skip(start as int));
    if start == cs.len() {
        return None;
    }
    let mut i: usize = start;
    let mut n: u32 = 0;
    assert(d.take(0) =~= Seq::<char>::empty());
    while i < cs.len()
        invariant
            cs@ == s@,
            d == s@.skip(start as int),
            d == unsigned_digits(s@),
            start <= i <= cs.len(),
            d.len() > 0,
            n == number(d.take(i - start)),
            n <= u16::MAX,
            forall|k: int| 0 <= k < i - start ==> is_digit(#[trigger] d[k]),
        decreases cs.len() - i,
    {
        let c: u32 = cs[i] as u32;
        let ghost k = i - start;
        assert(d[k] == s@[i as int]);
        if c < 0x30 || c > 0x39 {
            assert(!is_digit(d[k]));
            return None;
        }
        assert(d.take(k + 1).drop_last() =~= d.take(k));
        assert(d.take(k + 1).last() == d[k]);
        n = n * 10 + (c - 0x30);
        if n > u16::MAX as u32 {
            proof {
                lemma_number_grows(d, k + 1);
            }
            return None;
        }
        i += 1;
    }
    assert(d.take(i - start) =~= d);
    Some(n as u16)
}

/// The text in lower case.
pub uninterp spec fn lowercase(s: Seq<char>) -> Seq<char>;

/// `str::to_lowercase` maps each character by Unicode's lower-case rules.
/// Which characters those are is not stated.
#[verifier::external_body]
fn to_lower(s: &str) -> (r: String)
    ensures
        r@ == lowercase(s@),
{
    s.to_lowercase()
}

/// No such file or directory.
pub const ENOENT: i32 = 2;

/// Input/output error.
pub const EIO: i32 = 5;

/// Bad file descriptor.
pub const EBADF: i32 = 9;

/// Try again.
pub const EAGAIN: i32 = 11;

/// Permission denied.
pub const EACCES: i32 = 13;

/// Operation not permitted.
pub const EPERM: i32 = 1;

/// File exists.
pub const EEXIST: i32 = 17;

/// Not a directory.
pub const ENOTDIR: i32 = 20;

/// Is a directory.
pub const EISDIR: i32 = 21;

/// Invalid argument.
pub const EINVAL: i32 = 22;

/// File too large.
pub const EFBIG: i32 = 27;

/// No space left on device.
pub const ENOSPC: i32 = 28;

/// Result too large for the buffer.
pub const ERANGE: i32 = 34;

/// Directory not empty.
pub const ENOTEMPTY: i32 = 39;

/// No data available.
pub const ENODATA: i32 = 61;

/// Operation not supported.
pub const EOPNOTSUPP: i32 = 95;

/// The status codes of the wire protocol.
#[derive(Debug, Clone, Copy, PartialEq, Eq, Structural)]
pub struct StatusCodes {
    pub not_found: u16,
    pub already_exists: u16,
    pub permission_denied: u16,
    pub io: u16,
    pub invalid_arg: u16,
    pub not_dir: u16,
    pub is_dir: u16,
    pub no_space: u16,
    pub bad_fd: u16,
    pub server_error: u16,
    pub bad_request: u16,
}

/// The error number that a status code stands for; the first code that
/// matches decides, and an unknown one is an I/O error.
pub open spec fn errno_of_status(status: u16, codes: StatusCodes) -> i32 {
    if status == codes.not_found {
        ENOENT
    } else if status == codes.already_exists {
        EEXIST
    } else if status == codes.permission_denied {
        EACCES
    } else if status == codes.io {
        EIO
    } else if status == codes.invalid_arg {
        EINVAL
    } else if status == codes.not_dir {
        ENOTDIR
    } else if status == codes.is_dir {
        EISDIR
    } else if status == codes.no_space {
        ENOSPC
    } else if status == codes.bad_fd {
        EBADF
    } else if status == codes.server_error {
        EIO
    } else if status == codes.bad_request {
        EINVAL
    } else {
        EIO
    }
}

/// The error number that a status code stands for.
pub fn status_to_errno(status: u16, codes: &StatusCodes) -> (r: i32)
    ensures
        r == errno_of_status(status, *codes),
{
    if status == codes.not_found {
        ENOENT
    } else if status == codes.already_exists {
        EEXIST
    } else if status == codes.permission_denied {
        EACCES
    } else if status == codes.io {
        EIO
    } else if status == codes.invalid_arg {
        EINVAL
    } else if status == codes.not_dir {
        ENOTDIR
    } else if status == codes.is_dir {
        EISDIR
    } else if status == codes.no_space {
        ENOSPC
    } else if status == codes.bad_fd {
        EBADF
    } else if status == codes.server_error {
        EIO
    } else if status == codes.bad_request {
        EINVAL
    } else {
        EIO
    }
}

/// The error number that a message in lower case speaks of; the first phrase
/// of the list that occurs in it decides.
pub open spec fn errno_of_phrase(m: Seq<char>) -> i32 {
    if occurs(m, "not empty"@) {
        ENOTEMPTY
    } else if occurs(m, "not found"@) || occurs(m, "no such file"@) {
        ENOENT
    } else if occurs(m, "already exists"@) {
        EEXIST
    } else if occurs(m, "permission denied"@) || occurs(m, "access denied"@) {
        EACCES
    } else if occurs(m, "not a directory"@) {
        ENOTDIR
    } else if occurs(m, "is a directory"@) {
        EISDIR
    } else if occurs(m, "no space"@) {
        ENOSPC
    } else if occurs(m, "invalid argument"@) || occurs(m, "bad request"@) {
        EINVAL
    } else {
        EIO
    }
}

/// The error number that a message in lower case speaks of.
pub fn phrase_to_errno(lower: &str) -> (r: i32)
    ensures
        r == errno_of_phrase(lower@),
{
    if contains_text(lower, "not empty") {
        ENOTEMPTY
    } else if contains_text(lower, "not found") || contains_text(lower, "no such file") {
        ENOENT
    } else if contains_text(lower, "already exists") {
        EEXIST
    } else if contains_text(lower, "permission denied") || contains_text(lower, "access denied") {
        EACCES
    } else if contains_text(lower, "not a directory") {
        ENOTDIR
    } else if contains_text(lower, "is a directory") {
        EISDIR
    } else if contains_text(lower, "no space") {
        ENOSPC
    } else if contains_text(lower, "invalid argument") || contains_text(lower, "bad request") {
        EINVAL
    } else {
        EIO
    }
}

/// The status that a message embeds as "server status N".
pub open spec fn embedded_status(e: Seq<char>) -> Option<u16> {
    if occurs(e, "server status "@) {
        let i = choose|i: int| is_first_at(e, "server status "@, i);
        parsed_u16(first_word(e.skip(i + "server status "@.len())))
    } else {
        None
    }
}

/// The status that a message embeds as "server status N", from the first
/// place where it says so.
pub fn find_status(e: &str) -> (r: Option<u16>)
    ensures
        r == embedded_status(e@),
{
    match find_text(e, "server status ") {
        Some(i) => {
            proof {
                assert(occurs(e@, "server status "@)) by {
                    assert(stands_at(e@, "server status "@, i as int));
                }
                let j = choose|j: int| is_first_at(e@, "server status "@, j);
                assert(is_first_at(e@, "server status "@, i as int));
                assert(i == j);
            }
            let n: usize = e.unicode_len();
            let marker: usize = "server status ".unicode_len();
            assert(e@.subrange(i + marker, n as int) =~= e@.skip(i + "server status "@.len()));
            let (word, _rest) = split_word(e.substring_char(i + marker, n));
            parse_u16(word.as_str())
        },
        None => None,
    }
}

/// The error number of a failed server call: by the status that its message
/// embeds, or else by what the message says.
pub fn filer_error_to_errno(e: &str, codes: &StatusCodes) -> (r: i32)
    ensures
        r == match embedded_status(e@) {
            Some(status) => errno_of_status(status, *codes),
            None => errno_of_phrase(lowercase(e@)),
        },
{
    if let Some(status) = find_status(e) {
        return status_to_errno(status, codes);
    }
    let lower: String = to_lower(e);
    phrase_to_errno(lower.as_str())
}

/// The volume server has no such needle.
pub open spec fn says_needle_missing(e: Seq<char>) -> bool {
    occurs(e, "needle not found"@)
}

/// True if a failed read says that the volume server has no such needle.
pub fn is_needle_missing(e: &str) -> (r: bool)
    ensures
        r == says_needle_missing(e@),
{
    contains_text(e, "needle not found")
}

} // verus!
