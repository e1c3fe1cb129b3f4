//! Byte-level building blocks of the wire format: four-byte alignment,
//! zero padding, NUL-terminated strings and big-endian integers.

use vstd::prelude::*;

verus! {

/// The smallest multiple of four that is not below `n`.
pub open spec fn aligned(n: nat) -> nat {
    if n % 4 == 0 {
        n
    } else {
        (n + 4 - n % 4) as nat
    }
}

/// `n` zero bytes.
pub open spec fn zeros(n: nat) -> Seq<u8> {
    Seq::new(n, |i: int| 0u8)
}

/// `bytes` followed by as few zero bytes as bring its length to a multiple
/// of four.
pub open spec fn padded(bytes: Seq<u8>) -> Seq<u8> {
    bytes + zeros((aligned(bytes.len()) - bytes.len()) as nat)
}

/// `bytes` as a string on the wire: the bytes, a NUL byte, and zero padding
/// to a multiple of four.
pub open spec fn terminated(bytes: Seq<u8>) -> Seq<u8> {
    padded(bytes.push(0u8))
}

/// The four bytes of `x`, most significant first.
pub open spec fn be32(x: u32) -> Seq<u8> {
    seq![(x >> 24) as u8, (x >> 16) as u8, (x >> 8) as u8, x as u8]
}

/// The eight bytes of `x`, most significant first.
pub open spec fn be64(x: u64) -> Seq<u8> {
    seq![
        (x >> 56) as u8,
        (x >> 48) as u8,
        (x >> 40) as u8,
        (x >> 32) as u8,
        (x >> 24) as u8,
        (x >> 16) as u8,
        (x >> 8) as u8,
        x as u8,
    ]
}

/// The number whose big-endian bytes are the first four of `bytes`.
pub open spec fn from_be32(bytes: Seq<u8>) -> u32
    recommends
        bytes.len() >= 4,
{
    (bytes[0] as u32) << 24 | (bytes[1] as u32) << 16 | (bytes[2] as u32) << 8 | (bytes[3] as u32)
}

/// The number whose big-endian bytes are the first eight of `bytes`.
pub open spec fn from_be64(bytes: Seq<u8>) -> u64
    recommends
        bytes.len() >= 8,
{
    (bytes[0] as u64) << 56 | (bytes[1] as u64) << 48 | (bytes[2] as u64) << 40 | (bytes[3] as u64)
        << 32 | (bytes[4] as u64) << 24 | (bytes[5] as u64) << 16 | (bytes[6] as u64) << 8 | (
    bytes[7] as u64)
}

/// The index of the first zero byte of `bytes`, or its length where it has
/// none.
pub open spec fn first_nul(bytes: Seq<u8>) -> nat
    decreases bytes.len(),
{
    if bytes.len() == 0 || bytes[0] == 0 {
        0
    } else {
        1 + first_nul(bytes.skip(1))
    }
}

/// `aligned(n)` is a multiple of four and lies in `[n, n + 3]`.
pub proof fn lemma_aligned_bounds(n: nat)
    ensures
        aligned(n) % 4 == 0,
        n <= aligned(n) <= n + 3,
{
}

/// Reading four big-endian bytes back gives the number they were made from.
pub proof fn lemma_be32_round_trip(x: u32)
    ensures
        be32(x).len() == 4,
        from_be32(be32(x)) == x,
{
    assert(((x >> 24) as u8 as u32) << 24 | ((x >> 16) as u8 as u32) << 16 | ((x >> 8) as u8 as u32)
        << 8 | (x as u8 as u32) == x) by (bit_vector);
}

/// Reading eight big-endian bytes back gives the number they were made from.
pub proof fn lemma_be64_round_trip(x: u64)
    ensures
        be64(x).len() == 8,
        from_be64(be64(x)) == x,
{
    assert(((x >> 56) as u8 as u64) << 56 | ((x >> 48) as u8 as u64) << 48 | ((x >> 40) as u8 as u64)
        << 40 | ((x >> 32) as u8 as u64) << 32 | ((x >> 24) as u8 as u64) << 24 | ((x >> 16) as u8
        as u64) << 16 | ((x >> 8) as u8 as u64) << 8 | (x as u8 as u64) == x) by (bit_vector);
}

/// Four big-endian bytes at the start of longer data read as the number
/// they were made from, and the data goes on after them.
pub proof fn lemma_be32_prefix(x: u32, rest: Seq<u8>)
    ensures
        (be32(x) + rest).len() == 4 + rest.len(),
        from_be32(be32(x) + rest) == x,
        (be32(x) + rest).skip(4) == rest,
        (be32(x) + rest).take(4) == be32(x),
{
    lemma_be32_round_trip(x);
    let all = be32(x) + rest;
    assert(all[0] == be32(x)[0] && all[1] == be32(x)[1] && all[2] == be32(x)[2] && all[3]
        == be32(x)[3]);
    assert(all.skip(4) =~= rest);
    assert(all.take(4) =~= be32(x));
}

/// Eight big-endian bytes at the start of longer data read as the number
/// they were made from, and the data goes on after them.
pub proof fn lemma_be64_prefix(x: u64, rest: Seq<u8>)
    ensures
        (be64(x) + rest).len() == 8 + rest.len(),
        from_be64(be64(x) + rest) == x,
        (be64(x) + rest).skip(8) == rest,
{
    lemma_be64_round_trip(x);
    let all = be64(x) + rest;
    assert(all[0] == be64(x)[0] && all[1] == be64(x)[1] && all[2] == be64(x)[2] && all[3]
        == be64(x)[3] && all[4] == be64(x)[4] && all[5] == be64(x)[5] && all[6] == be64(x)[6]
        && all[7] == be64(x)[7]);
    assert(all.skip(8) =~= rest);
}

/// Padding brings the length to the next multiple of four.
pub proof fn lemma_padded_length(bytes: Seq<u8>)
    ensures
        padded(bytes).len() == aligned(bytes.len()),
        padded(bytes).len() % 4 == 0,
        padded(bytes).take(bytes.len() as int) == bytes,
{
    assert(padded(bytes).take(bytes.len() as int) =~= bytes);
}

/// A string without a zero byte, terminated and followed by more data:
/// its length is a multiple of four, the first zero byte is the one
/// that ends the string, and the data goes on after the padding.
pub proof fn lemma_terminated(bytes: Seq<u8>, rest: Seq<u8>)
    requires
        forall|i: int| 0 <= i < bytes.len() ==> #[trigger] bytes[i] != 0,
    ensures
        terminated(bytes).len() == aligned(bytes.len() + 1),
        terminated(bytes).len() % 4 == 0,
        terminated(bytes).len() >= 4,
        first_nul(terminated(bytes) + rest) == bytes.len(),
        (terminated(bytes) + rest).take(bytes.len() as int) == bytes,
        (terminated(bytes) + rest).skip(aligned(bytes.len() + 1) as int) == rest,
{
    let all = terminated(bytes) + rest;
    assert(terminated(bytes).len() == aligned(bytes.len() + 1));
    assert forall|i: int| 0 <= i < bytes.len() implies all[i] != 0 by {
        assert(all[i] == bytes[i]);
    }
    assert(all[bytes.len() as int] == 0);
    lemma_first_nul_is(all, bytes.len());
    assert(all.take(bytes.len() as int) =~= bytes);
    assert(all.skip(aligned(bytes.len() + 1) as int) =~= rest);
}

/// The first zero byte: nothing before it is zero, and it is zero itself
/// unless it stands for "none".
pub proof fn lemma_first_nul(bytes: Seq<u8>)
    ensures
        first_nul(bytes) <= bytes.len(),
        forall|i: int| 0 <= i < first_nul(bytes) ==> bytes[i] != 0,
        first_nul(bytes) < bytes.len() ==> bytes[first_nul(bytes) as int] == 0,
    decreases bytes.len(),
{
    if bytes.len() == 0 || bytes[0] == 0 {
    } else {
        let rest = bytes.skip(1);
        lemma_first_nul(rest);
        assert forall|i: int| 0 <= i < first_nul(bytes) implies bytes[i] != 0 by {
            if i > 0 {
                assert(bytes[i] == rest[i - 1]);
            }
        }
        if first_nul(bytes) < bytes.len() {
            assert(bytes[first_nul(bytes) as int] == rest[first_nul(rest) as int]);
        }
    }
}

/// A position is the first zero byte where it holds one and nothing
/// before it does.
pub proof fn lemma_first_nul_is(bytes: Seq<u8>, at: nat)
    requires
        at <= bytes.len(),
        forall|i: int| 0 <= i < at ==> bytes[i] != 0,
        at < bytes.len() ==> bytes[at as int] == 0,
    ensures
        first_nul(bytes) == at,
{
    lemma_first_nul(bytes);
    let found = first_nul(bytes);
    if found < at {
        assert(bytes[found as int] == 0);
    } else if found > at {
        assert(bytes[at as int] != 0);
    }
}

/// The four bytes of `x`, most significant first.
pub fn u32_to_be_bytes(x: u32) -> (bytes: [u8; 4])
    ensures
        bytes@ == be32(x),
{
    let bytes = [(x >> 24) as u8, (x >> 16) as u8, (x >> 8) as u8, x as u8];
    assert(bytes@ =~= be32(x));
    bytes
}

/// The eight bytes of `x`, most significant first.
pub fn u64_to_be_bytes(x: u64) -> (bytes: [u8; 8])
    ensures
        bytes@ == be64(x),
{
    let bytes = [
        (x >> 56) as u8,
        (x >> 48) as u8,
        (x >> 40) as u8,
        (x >> 32) as u8,
        (x >> 24) as u8,
        (x >> 16) as u8,
        (x >> 8) as u8,
        x as u8,
    ];
    assert(bytes@ =~= be64(x));
    bytes
}

/// The number whose big-endian bytes are the first four of `bytes`.
pub fn u32_from_be_bytes(bytes: &[u8]) -> (x: u32)
    requires
        bytes@.len() >= 4,
    ensures
        x == from_be32(bytes@),
{
    (bytes[0] as u32) << 24 | (bytes[1] as u32) << 16 | (bytes[2] as u32) << 8 | (bytes[3] as u32)
}

/// The number whose big-endian bytes are the first eight of `bytes`.
pub fn u64_from_be_bytes(bytes: &[u8]) -> (x: u64)
    requires
        bytes@.len() >= 8,
    ensures
        x == from_be64(bytes@),
{
    (bytes[0] as u64) << 56 | (bytes[1] as u64) << 48 | (bytes[2] as u64) << 40 | (bytes[3] as u64)
        << 32 | (bytes[4] as u64) << 24 | (bytes[5] as u64) << 16 | (bytes[6] as u64) << 8 | (
    bytes[7] as u64)
}

/// Appends `bytes` to `buffer`.
pub fn append_bytes(buffer: &mut Vec<u8>, bytes: &[u8])
    ensures
        final(buffer)@ == old(buffer)@ + bytes@,
{
    buffer.extend_from_slice(bytes);
    assert(buffer@ =~= old(buffer)@ + bytes@);
}

/// A copy of the bytes from `from` up to `to`.
pub fn copy_range(bytes: &[u8], from: usize, to: usize) -> (copy: Vec<u8>)
    requires
        from <= to <= bytes@.len(),
    ensures
        copy@ == bytes@.subrange(from as int, to as int),
{
    let mut copy = Vec::new();
    append_bytes(&mut copy, vstd::slice::slice_subrange(bytes, from, to));
    copy
}

/// Looks for the first zero byte.
pub fn find_nul(bytes: &[u8]) -> (found: Option<usize>)
    ensures
        found is Some <==> first_nul(bytes@) < bytes@.len(),
        found matches Some(at) ==> at == first_nul(bytes@),
{
    let mut at: usize = 0;
    while at < bytes.len()
        invariant
            at <= bytes@.len(),
            forall|i: int| 0 <= i < at ==> bytes@[i] != 0,
        decreases bytes@.len() - at,
    {
        if bytes[at] == 0 {
            proof {
                lemma_first_nul_is(bytes@, at as nat);
            }
            return Some(at);
        }
        at += 1;
    }
    proof {
        lemma_first_nul_is(bytes@, at as nat);
    }
    None
}

} // verus!
