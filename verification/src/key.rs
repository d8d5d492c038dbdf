//! Keys: unsigned 64-bit integers written as eight big-endian bytes.

use byteorder::{BigEndian, ByteOrder};
use vstd::prelude::*;

verus! {

/// Number of bytes that hold a key's integer.
pub const KEY_SIZE: usize = 8;

/// The eight big-endian bytes of `n`, most significant first.
pub open spec fn be_bytes(n: u64) -> Seq<u8> {
    seq![
        (n / 0x0100_0000_0000_0000) as u8,
        (n / 0x0001_0000_0000_0000 % 256) as u8,
        (n / 0x0000_0100_0000_0000 % 256) as u8,
        (n / 0x0000_0001_0000_0000 % 256) as u8,
        (n / 0x0000_0000_0100_0000 % 256) as u8,
        (n / 0x0000_0000_0001_0000 % 256) as u8,
        (n / 0x0000_0000_0000_0100 % 256) as u8,
        (n % 256) as u8,
    ]
}

/// The integer that the first eight bytes of `bytes` hold in big-endian
/// order. Meaningful for sequences of at least eight bytes.
pub open spec fn be_value(bytes: Seq<u8>) -> int {
    bytes[0] * 0x0100_0000_0000_0000
        + bytes[1] * 0x0001_0000_0000_0000
        + bytes[2] * 0x0000_0100_0000_0000
        + bytes[3] * 0x0000_0001_0000_0000
        + bytes[4] * 0x0000_0000_0100_0000
        + bytes[5] * 0x0000_0000_0001_0000
        + bytes[6] * 0x0000_0000_0000_0100
        + bytes[7]
}

/// The integer that `key` decodes to, if it has the bytes for one. Bytes
/// after the eighth are not looked at.
pub open spec fn key_value(key: Seq<u8>) -> Option<u64> {
    if key.len() >= KEY_SIZE {
        Some(be_value(key) as u64)
    } else {
        None
    }
}

/// `byteorder::BigEndian::read_u64`: the big-endian integer in the first
/// eight bytes of `buf`. The outside function panics on a shorter slice,
/// which `requires` leaves out.
#[verifier::external_body]
fn read_u64(buf: &[u8]) -> (n: u64)
    requires
        buf@.len() >= KEY_SIZE,
    ensures
        n == be_value(buf@),
{
    BigEndian::read_u64(buf)
}

/// `byteorder::BigEndian::write_u64`: overwrites the first eight bytes of
/// `buf` with the big-endian bytes of `n` and leaves the rest as it was. The
/// outside function panics on a shorter buffer, which `requires` leaves out.
#[verifier::external_body]
fn write_u64(buf: &mut Vec<u8>, n: u64)
    requires
        old(buf)@.len() >= KEY_SIZE,
    ensures
        final(buf)@ == be_bytes(n) + old(buf)@.skip(KEY_SIZE as int),
{
    BigEndian::write_u64(buf, n)
}

/// Writes `n` as a key.
pub fn encode_key(n: u64) -> (key: Vec<u8>)
    ensures
        key@ == be_bytes(n),
{
    let mut key: Vec<u8> = Vec::new();
    let mut i: usize = 0;
    while i < KEY_SIZE
        invariant
            i <= KEY_SIZE,
            key@.len() == i,
        decreases KEY_SIZE - i,
    {
        key.push(0u8);
        i += 1;
    }
    write_u64(&mut key, n);
    key
}

/// Reads the integer of `key`, or `None` where `key` is too short to hold
/// one.
pub fn decode_key(key: &[u8]) -> (n: Option<u64>)
    ensures
        n == key_value(key@),
{
    if key.len() >= KEY_SIZE {
        proof {
            lemma_be_value_bound(key@);
        }
        Some(read_u64(key))
    } else {
        None
    }
}

/// The big-endian value of eight bytes fits in 64 bits.
pub proof fn lemma_be_value_bound(bytes: Seq<u8>)
    ensures
        0 <= be_value(bytes) <= u64::MAX,
{
}

/// Decoding what was encoded gives the integer back.
pub proof fn lemma_encode_decode(n: u64)
    ensures
        be_bytes(n).len() == KEY_SIZE,
        be_value(be_bytes(n)) == n,
        key_value(be_bytes(n)) == Some(n),
{
    let q1 = n / 256;
    let q2 = q1 / 256;
    let q3 = q2 / 256;
    let q4 = q3 / 256;
    let q5 = q4 / 256;
    let q6 = q5 / 256;
    let q7 = q6 / 256;
    assert(q2 == n / 0x0000_0000_0001_0000);
    assert(q3 == n / 0x0000_0000_0100_0000);
    assert(q4 == n / 0x0000_0001_0000_0000);
    assert(q5 == n / 0x0000_0100_0000_0000);
    assert(q6 == n / 0x0001_0000_0000_0000);
    assert(q7 == n / 0x0100_0000_0000_0000);
}

/// Encoding what an eight-byte key decodes to gives the key back.
pub proof fn lemma_decode_encode(key: Seq<u8>)
    requires
        key.len() == KEY_SIZE,
    ensures
        be_bytes(be_value(key) as u64) == key,
{
    let n = be_value(key) as u64;
    let t1 = key[0] * 256 + key[1];
    let t2 = t1 * 256 + key[2];
    let t3 = t2 * 256 + key[3];
    let t4 = t3 * 256 + key[4];
    let t5 = t4 * 256 + key[5];
    let t6 = t5 * 256 + key[6];
    assert(n / 0x0000_0000_0000_0100 == t6);
    assert(n / 0x0000_0000_0001_0000 == t5);
    assert(n / 0x0000_0000_0100_0000 == t4);
    assert(n / 0x0000_0001_0000_0000 == t3);
    assert(n / 0x0000_0100_0000_0000 == t2);
    assert(n / 0x0001_0000_0000_0000 == t1);
    assert(n / 0x0100_0000_0000_0000 == key[0]);
    assert(be_bytes(n) =~= key);
}

} // verus!
