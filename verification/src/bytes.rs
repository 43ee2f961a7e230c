//! Numbers in byte sequences, in network order.

use vstd::prelude::*;

verus! {

/// The number of sixteen bits at a position.
pub open spec fn be16(s: Seq<u8>, i: int) -> u16 {
    (s[i] * 256 + s[i + 1]) as u16
}

/// The number of thirty-two bits at a position.
pub open spec fn be32(s: Seq<u8>, i: int) -> u32 {
    (s[i] * 16777216 + s[i + 1] * 65536 + s[i + 2] * 256 + s[i + 3]) as u32
}

/// The number that bytes form.
pub open spec fn be_number(s: Seq<u8>) -> nat
    decreases s.len(),
{
    if s.len() == 0 {
        0
    } else {
        be_number(s.drop_last()) * 256 + s.last() as nat
    }
}

/// The number of sixteen bits at a position.
pub fn read16(s: &[u8], i: usize) -> (r: u16)
    requires
        i + 1 < s@.len(),
    ensures
        r == be16(s@, i as int),
{
    (s[i] as u16) * 256 + s[i + 1] as u16
}

/// The number of thirty-two bits at a position.
pub fn read32(s: &[u8], i: usize) -> (r: u32)
    requires
        i + 3 < s@.len(),
    ensures
        r == be32(s@, i as int),
{
    (s[i] as u32) * 16777216 + (s[i + 1] as u32) * 65536 + (s[i + 2] as u32) * 256 + s[i
        + 3] as u32
}

/// The number that the sixteen bytes at a position form.
pub fn read128(s: &[u8], i: usize) -> (r: u128)
    requires
        i + 15 < s@.len(),
    ensures
        r == be_number(s@.subrange(i as int, i + 16)),
{
    let mut r: u128 = 0;
    let ghost mut bound: int = 1;
    assert(s@.subrange(i as int, i as int) =~= Seq::<u8>::empty());
    for k in 0..16usize
        invariant
            i + 15 < s.len(),
            r == be_number(s@.subrange(i as int, i + k)),
            0 <= k <= 16,
            r < bound,
            bound == pow256(k as nat),
    {
        proof {
            let t = s@.subrange(i as int, i + k + 1);
            assert(t.drop_last() =~= s@.subrange(i as int, i + k));
            assert(t.last() == s@[i + k]);
            lemma_pow256(k as nat);
        }
        r = r * 256 + s[i + k] as u128;
        proof {
            bound = bound * 256;
        }
    }
    r
}

/// The longest byte sequence that memory can hold.
pub open spec fn in_memory(data: Seq<u8>) -> bool {
    data.len() <= isize::MAX
}

/// The bytes from `from` up to `to`.
pub fn slice_of(data: &[u8], from: usize, to: usize) -> (r: &[u8])
    requires
        from <= to <= data@.len(),
    ensures
        r@ == data@.subrange(from as int, to as int),
{
    vstd::slice::slice_subrange(data, from, to)
}

/// `n` zero bytes.
pub open spec fn zeros(n: nat) -> Seq<u8> {
    Seq::new(n, |i: int| 0u8)
}

/// Appends `n` zero bytes.
pub fn push_zeros(v: &mut Vec<u8>, n: usize)
    ensures
        final(v)@ == old(v)@ + zeros(n as nat),
{
    assert(v@ =~= old(v)@ + zeros(0));
    for i in 0..n
        invariant
            v@ == old(v)@ + zeros(i as nat),
    {
        v.push(0);
        assert(v@ =~= old(v)@ + zeros((i + 1) as nat));
    }
}

/// Appends bytes.
pub fn push_bytes(v: &mut Vec<u8>, s: &[u8])
    ensures
        final(v)@ == old(v)@ + s@,
{
    let n: usize = s.len();
    assert(v@ =~= old(v)@ + s@.take(0));
    for i in 0..n
        invariant
            n == s@.len(),
            v@ == old(v)@ + s@.take(i as int),
    {
        v.push(s[i]);
        assert(v@ =~= old(v)@ + s@.take(i + 1));
    }
    assert(s@.take(n as int) =~= s@);
}

/// The bytes of a number of thirty-two bits.
pub open spec fn bytes32(n: u32) -> Seq<u8> {
    seq![
        (n / 16777216) as u8,
        ((n / 65536) % 256) as u8,
        ((n / 256) % 256) as u8,
        (n % 256) as u8,
    ]
}

/// The bytes of a number of sixteen bits.
pub open spec fn bytes16(n: u16) -> Seq<u8> {
    seq![(n / 256) as u8, (n % 256) as u8]
}

/// Appends the bytes of a number of thirty-two bits.
pub fn push32(v: &mut Vec<u8>, n: u32)
    ensures
        final(v)@ == old(v)@ + bytes32(n),
{
    v.push((n / 16777216) as u8);
    v.push(((n / 65536) % 256) as u8);
    v.push(((n / 256) % 256) as u8);
    v.push((n % 256) as u8);
    assert(v@ =~= old(v)@ + bytes32(n));
}

/// Appends the bytes of a number of sixteen bits.
pub fn push16(v: &mut Vec<u8>, n: u16)
    ensures
        final(v)@ == old(v)@ + bytes16(n),
{
    v.push((n / 256) as u8);
    v.push((n % 256) as u8);
    assert(v@ =~= old(v)@ + bytes16(n));
}

/// Reading a number gives back what was written, wherever it stands.
pub proof fn law_read_written(before: Seq<u8>, n: u32, m: u16, after: Seq<u8>)
    ensures
        be32(before + bytes32(n) + after, before.len() as int) == n,
        be16(before + bytes16(m) + after, before.len() as int) == m,
{
}

spec fn pow256(k: nat) -> int
    decreases k,
{
    if k == 0 {
        1
    } else {
        pow256((k - 1) as nat) * 256
    }
}

proof fn lemma_pow256(k: nat)
    requires
        k < 16,
    ensures
        pow256(k + 1) == pow256(k) * 256,
        pow256(k) * 256 <= 0x1_0000_0000_0000_0000_0000_0000_0000_0000int,
{
    reveal_with_fuel(pow256, 17);
}

} // verus!
