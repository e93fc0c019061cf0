//! Big-endian integer fields, read from and written to byte buffers.
use byteorder::{BigEndian, ByteOrder};
use vstd::prelude::*;

verus! {

/// The number that `s` denotes as a big-endian unsigned integer.
pub open spec fn be_value(s: Seq<u8>) -> nat
    decreases s.len(),
{
    if s.len() == 0 {
        0
    } else {
        be_value(s.drop_last()) * 256 + s.last() as nat
    }
}

/// The `k` low-order bytes of `n`, most significant first.
pub open spec fn be_bytes(n: nat, k: nat) -> Seq<u8>
    decreases k,
{
    if k == 0 {
        Seq::empty()
    } else {
        be_bytes(n / 256, (k - 1) as nat).push((n % 256) as u8)
    }
}

pub proof fn lemma_be_bytes_len(n: nat, k: nat)
    ensures
        be_bytes(n, k).len() == k,
    decreases k,
{
    if k > 0 {
        lemma_be_bytes_len(n / 256, (k - 1) as nat);
    }
}

pub open spec fn pow256(k: nat) -> nat
    decreases k,
{
    if k == 0 {
        1
    } else {
        256 * pow256((k - 1) as nat)
    }
}

/// Writing a number that fits in `k` bytes and reading it back gives the number.
pub proof fn lemma_be_round_trip(n: nat, k: nat)
    requires
        n < pow256(k),
    ensures
        be_bytes(n, k).len() == k,
        be_value(be_bytes(n, k)) == n,
    decreases k,
{
    if k > 0 {
        let k1 = (k - 1) as nat;
        assert(n / 256 < pow256(k1)) by (nonlinear_arith)
            requires
                n < 256 * pow256(k1),
        ;
        lemma_be_round_trip(n / 256, k1);
        let b = be_bytes(n / 256, k1);
        assert(b.push((n % 256) as u8).drop_last() =~= b);
        assert((n / 256) * 256 + n % 256 == n) by (nonlinear_arith);
    }
}

pub proof fn lemma_pow256_values()
    ensures
        pow256(2) == 0x10000,
        pow256(4) == 0x1_0000_0000,
        pow256(16) == 0x1_0000_0000_0000_0000_0000_0000_0000_0000,
{
    reveal_with_fuel(pow256, 17);
}

/// Two sequences that agree on their first `end` elements agree on every range
/// within them.
pub proof fn lemma_prefix_range(d1: Seq<u8>, d2: Seq<u8>, end: int, a: int, b: int)
    requires
        end <= d1.len(),
        end <= d2.len(),
        d1.subrange(0, end) == d2.subrange(0, end),
        0 <= a <= b <= end,
    ensures
        d1.subrange(a, b) == d2.subrange(a, b),
{
    assert(d1.subrange(a, b) =~= d1.subrange(0, end).subrange(a, b));
    assert(d2.subrange(a, b) =~= d2.subrange(0, end).subrange(a, b));
}

/// Relies on byteorder's `BigEndian::read_u16`: the two bytes at the start of
/// the slice it is given, most significant first.
#[verifier::external_body]
pub(crate) fn read_be_u16(buf: &[u8], at: usize) -> (r: u16)
    requires
        at + 2 <= buf@.len(),
    ensures
        r as nat == be_value(buf@.subrange(at as int, at + 2)),
{
    BigEndian::read_u16(&buf[at..])
}

/// Relies on byteorder's `BigEndian::read_u32`: the four bytes at the start of
/// the slice it is given, most significant first.
#[verifier::external_body]
pub(crate) fn read_be_u32(buf: &[u8], at: usize) -> (r: u32)
    requires
        at + 4 <= buf@.len(),
    ensures
        r as nat == be_value(buf@.subrange(at as int, at + 4)),
{
    BigEndian::read_u32(&buf[at..])
}

/// Relies on byteorder's `BigEndian::read_u128`: the sixteen bytes at the start
/// of the slice it is given, most significant first.
#[verifier::external_body]
pub(crate) fn read_be_u128(buf: &[u8], at: usize) -> (r: u128)
    requires
        at + 16 <= buf@.len(),
    ensures
        r as nat == be_value(buf@.subrange(at as int, at + 16)),
{
    BigEndian::read_u128(&buf[at..])
}

/// Relies on byteorder's `BigEndian::write_u16`: it fills a two-byte buffer
/// with `n`, most significant byte first.
#[verifier::external_body]
pub(crate) fn be_u16_bytes(n: u16) -> (r: Vec<u8>)
    ensures
        r@ == be_bytes(n as nat, 2),
{
    let mut buf = [0u8; 2];
    BigEndian::write_u16(&mut buf, n);
    buf.to_vec()
}

/// Relies on byteorder's `BigEndian::write_u32`: it fills a four-byte buffer
/// with `n`, most significant byte first.
#[verifier::external_body]
pub(crate) fn be_u32_bytes(n: u32) -> (r: Vec<u8>)
    ensures
        r@ == be_bytes(n as nat, 4),
{
    let mut buf = [0u8; 4];
    BigEndian::write_u32(&mut buf, n);
    buf.to_vec()
}

/// Relies on byteorder's `BigEndian::write_u128`: it fills a sixteen-byte
/// buffer with `n`, most significant byte first.
#[verifier::external_body]
pub(crate) fn be_u128_bytes(n: u128) -> (r: Vec<u8>)
    ensures
        r@ == be_bytes(n as nat, 16),
{
    let mut buf = [0u8; 16];
    BigEndian::write_u128(&mut buf, n);
    buf.to_vec()
}

/// A copy of `data[start..end]`.
pub fn copy_range(data: &[u8], start: usize, end: usize) -> (r: Vec<u8>)
    requires
        start <= end <= data@.len(),
    ensures
        r@ == data@.subrange(start as int, end as int),
{
    let mut r: Vec<u8> = Vec::new();
    let mut i: usize = start;
    while i < end
        invariant
            start <= i <= end <= data@.len(),
            r@ == data@.subrange(start as int, i as int),
        decreases end - i,
    {
        r.push(data[i]);
        i = i + 1;
        assert(r@ =~= data@.subrange(start as int, i as int));
    }
    r
}

/// Whether two byte vectors hold the same bytes.
pub fn bytes_eq(a: &Vec<u8>, b: &Vec<u8>) -> (r: bool)
    ensures
        r == (a@ == b@),
{
    if a.len() != b.len() {
        return false;
    }
    let mut i: usize = 0;
    while i < a.len()
        invariant
            i <= a@.len() == b@.len(),
            a@.subrange(0, i as int) == b@.subrange(0, i as int),
        decreases a@.len() - i,
    {
        if a[i] != b[i] {
            return false;
        }
        i = i + 1;
        assert(a@.subrange(0, i as int) =~= a@.subrange(0, i - 1).push(a@[i - 1]));
        assert(b@.subrange(0, i as int) =~= b@.subrange(0, i - 1).push(b@[i - 1]));
    }
    assert(a@ =~= a@.subrange(0, i as int));
    assert(b@ =~= b@.subrange(0, i as int));
    true
}

} // verus!
