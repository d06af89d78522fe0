//! Numbers as bytes and as decimal text, and the messages by which the kernel
//! is told to forget what it has cached.

use vstd::prelude::*;
use vstd::string::*;

verus! {

/// What the error field of a message holds that makes the kernel forget an
/// inode's data.
pub const INVAL_INODE_ERROR: i32 = 2;

/// What the error field of a message holds that makes the kernel forget a name.
pub const INVAL_ENTRY_ERROR: i32 = -3;

/// The low `n` bytes of a number, little end first.
pub open spec fn le_bytes(x: nat, n: nat) -> Seq<u8>
    decreases n,
{
    if n == 0 {
        Seq::empty()
    } else {
        seq![(x % 256) as u8] + le_bytes(x / 256, (n - 1) as nat)
    }
}

/// The low `n` bytes of a number in the machine's order.
pub open spec fn ne_bytes(x: nat, n: nat, little: bool) -> Seq<u8> {
    if little {
        le_bytes(x, n)
    } else {
        le_bytes(x, n).reverse()
    }
}

/// A 32-bit signed number as a bit pattern.
pub open spec fn pattern32(x: i32) -> nat {
    if x >= 0 {
        x as nat
    } else {
        (x + 0x1_0000_0000) as nat
    }
}

pub proof fn lemma_le_bytes_len(x: nat, n: nat)
    ensures
        le_bytes(x, n).len() == n,
    decreases n,
{
    if n > 0 {
        lemma_le_bytes_len(x / 256, (n - 1) as nat);
    }
}

/// Append the low `n` bytes of a number in the machine's order.
fn put(buf: &mut Vec<u8>, x: u64, n: usize, little: bool)
    ensures
        final(buf)@ == old(buf)@ + ne_bytes(x as nat, n as nat, little),
{
    let mut bytes: Vec<u8> = Vec::new();
    let mut rest: u64 = x;
    let mut i: usize = 0;
    let ghost goal = le_bytes(x as nat, n as nat);
    assert(bytes@ + goal =~= goal);
    while i < n
        invariant
            i <= n,
            bytes@.len() == i,
            goal == le_bytes(x as nat, n as nat),
            goal == bytes@ + le_bytes(rest as nat, (n - i) as nat),
        decreases n - i,
    {
        let b: u8 = (rest % 256) as u8;
        let ghost before = bytes@;
        bytes.push(b);
        assert(before + (seq![b] + le_bytes((rest / 256) as nat, (n - i - 1) as nat)) =~= bytes@
            + le_bytes((rest / 256) as nat, (n - i - 1) as nat));
        rest = rest / 256;
        i += 1;
    }
    assert(bytes@ =~= goal);
    if little {
        buf.append(&mut bytes);
    } else {
        let mut k: usize = n;
        let ghost start = buf@;
        assert(start + goal.reverse().take(0) =~= start);
        while k > 0
            invariant
                k <= n,
                bytes@ == goal,
                goal.len() == n,
                buf@ == start + goal.reverse().take(n - k),
            decreases k,
        {
            k -= 1;
            buf.push(bytes[k]);
            assert(buf@ =~= start + goal.reverse().take(n - k));
        }
        assert(goal.reverse().take(n as int) =~= goal.reverse());
    }
}

/// A 32-bit signed number as a bit pattern.
fn bits_of(x: i32) -> (r: u64)
    ensures
        r == pattern32(x),
{
    if x >= 0 {
        x as u64
    } else {
        (0x1_0000_0000i64 + x as i64) as u64
    }
}

/// The header of a message to the kernel: its length, its error field, and no
/// request that it answers.
pub open spec fn notify_header(len: nat, error: i32, little: bool) -> Seq<u8> {
    ne_bytes(len, 4, little) + ne_bytes(pattern32(error), 4, little) + ne_bytes(0, 8, little)
}

/// The message that makes the kernel forget all data of an inode.
pub open spec fn inval_inode_message(inode: u64, little: bool) -> Seq<u8> {
    notify_header(40, INVAL_INODE_ERROR, little) + ne_bytes(inode as nat, 8, little) + ne_bytes(
        0,
        8,
        little,
    ) + ne_bytes(u64::MAX as nat, 8, little)
}

/// The length of a name with its zero byte, filled up to a multiple of 8.
pub open spec fn padded(n: nat) -> nat {
    ((n + 1 + 7) / 8 * 8) as nat
}

/// The message that makes the kernel forget a name in a directory: the name is
/// followed by a zero byte and filled up with zeros.
pub open spec fn inval_entry_message(parent: u64, name: Seq<u8>, little: bool) -> Seq<u8> {
    notify_header(32 + padded(name.len()), INVAL_ENTRY_ERROR, little) + ne_bytes(
        parent as nat,
        8,
        little,
    ) + ne_bytes(name.len(), 4, little) + ne_bytes(0, 4, little) + name + Seq::new(
        (padded(name.len()) - name.len()) as nat,
        |i: int| 0u8,
    )
}

/// The message that makes the kernel forget all data of an inode. `little`
/// tells the machine's byte order.
pub fn encode_inval_inode(inode: u64, little: bool) -> (r: Vec<u8>)
    ensures
        r@ == inval_inode_message(inode, little),
        r@.len() == 40,
{
    let mut buf: Vec<u8> = Vec::new();
    put(&mut buf, 40, 4, little);
    put(&mut buf, bits_of(INVAL_INODE_ERROR), 4, little);
    put(&mut buf, 0, 8, little);
    put(&mut buf, inode, 8, little);
    put(&mut buf, 0, 8, little);
    put(&mut buf, u64::MAX, 8, little);
    proof {
        lemma_le_bytes_len(40, 4);
        lemma_le_bytes_len(pattern32(INVAL_INODE_ERROR), 4);
        lemma_le_bytes_len(0, 8);
        lemma_le_bytes_len(inode as nat, 8);
        lemma_le_bytes_len(u64::MAX as nat, 8);
        assert(buf@ =~= inval_inode_message(inode, little));
    }
    buf
}

/// The message that makes the kernel forget a name in a directory. `little`
/// tells the machine's byte order.
pub fn encode_inval_entry(parent: u64, name: &str, little: bool) -> (r: Vec<u8>)
    requires
        vstd::utf8::encode_utf8(name@).len() + 64 <= usize::MAX,
    ensures
        r@ == inval_entry_message(parent, vstd::utf8::encode_utf8(name@), little),
        r@.len() % 8 == 0,
{
    let bytes: &[u8] = name.as_bytes();
    let n: usize = bytes.len();
    let pad: usize = (n + 8) / 8 * 8;
    let ghost nb = vstd::utf8::encode_utf8(name@);
    assert(pad == padded(nb.len()));
    let mut buf: Vec<u8> = Vec::new();
    put(&mut buf, 32 + pad as u64, 4, little);
    put(&mut buf, bits_of(INVAL_ENTRY_ERROR), 4, little);
    put(&mut buf, 0, 8, little);
    put(&mut buf, parent, 8, little);
    put(&mut buf, n as u64, 4, little);
    put(&mut buf, 0, 4, little);
    let ghost head = buf@;
    let mut copy: Vec<u8> = vstd::slice::slice_to_vec(bytes);
    buf.append(&mut copy);
    let mut i: usize = n;
    let ghost named = buf@;
    assert(buf@ =~= named + Seq::new(0nat, |i: int| 0u8));
    while i < pad
        invariant
            n <= i <= pad,
            buf@ == named + Seq::new((i - n) as nat, |i: int| 0u8),
        decreases pad - i,
    {
        buf.push(0);
        i += 1;
        assert(buf@ =~= named + Seq::new((i - n) as nat, |i: int| 0u8));
    }
    proof {
        lemma_le_bytes_len((32 + pad) as nat, 4);
        lemma_le_bytes_len(pattern32(INVAL_ENTRY_ERROR), 4);
        lemma_le_bytes_len(0, 8);
        lemma_le_bytes_len(0, 4);
        lemma_le_bytes_len(parent as nat, 8);
        lemma_le_bytes_len(n as nat, 4);
        assert(buf@ =~= inval_entry_message(parent, nb, little));
        assert(head.len() == 32);
    }
    buf
}

/// A digit as a character.
pub open spec fn digit(d: nat) -> char {
    ((0x30 + d) as u8) as char
}

/// A number in decimal.
pub open spec fn decimal(n: nat) -> Seq<char>
    decreases n,
{
    if n < 10 {
        seq![digit(n)]
    } else {
        decimal(n / 10).push(digit(n % 10))
    }
}

/// A digit as text.
fn digit_text(d: u64) -> (r: &'static str)
    requires
        d < 10,
    ensures
        r@ == seq![digit(d as nat)],
{
    proof {
        reveal_strlit("0");
        reveal_strlit("1");
        reveal_strlit("2");
        reveal_strlit("3");
        reveal_strlit("4");
        reveal_strlit("5");
        reveal_strlit("6");
        reveal_strlit("7");
        reveal_strlit("8");
        reveal_strlit("9");
    }
    let r: &'static str = if d == 0 {
        "0"
    } else if d == 1 {
        "1"
    } else if d == 2 {
        "2"
    } else if d == 3 {
        "3"
    } else if d == 4 {
        "4"
    } else if d == 5 {
        "5"
    } else if d == 6 {
        "6"
    } else if d == 7 {
        "7"
    } else if d == 8 {
        "8"
    } else {
        "9"
    };
    assert(r@ =~= seq![digit(d as nat)]);
    r
}

/// A number in decimal.
pub fn to_decimal(n: u64) -> (r: String)
    ensures
        r@ == decimal(n as nat),
    decreases n,
{
    if n < 10 {
        digit_text(n).to_owned()
    } else {
        let mut r: String = to_decimal(n / 10);
        let ghost above = r@;
        r.append(digit_text(n % 10));
        assert(r@ =~= above.push(digit((n % 10) as nat)));
        r
    }
}

} // verus!
