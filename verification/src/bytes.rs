//! Byte strings: comparison, concatenation, fixed-size fields and big-endian numbers.

use vstd::prelude::*;
use vstd::slice::*;

verus! {

/// The four bytes of `x`, most significant first.
pub open spec fn be32(x: u32) -> Seq<u8> {
    seq![
        (x as int / 0x1000000) as u8,
        (x as int / 0x10000 % 0x100) as u8,
        (x as int / 0x100 % 0x100) as u8,
        (x as int % 0x100) as u8,
    ]
}

/// The number whose four big-endian bytes stand in `b` from `at` on.
pub open spec fn be32_at(b: Seq<u8>, at: int) -> u32 {
    (b[at] * 0x1000000 + b[at + 1] * 0x10000 + b[at + 2] * 0x100 + b[at + 3]) as u32
}

/// The two bytes of `x`, most significant first.
pub open spec fn be16(x: u16) -> Seq<u8> {
    seq![(x as int / 0x100) as u8, (x as int % 0x100) as u8]
}

/// `n` zero bytes.
pub open spec fn zeros(n: nat) -> Seq<u8> {
    Seq::new(n, |i: int| 0u8)
}

/// Reading back the big-endian bytes of a number gives the number.
pub proof fn lemma_be32_round_trip(x: u32, b: Seq<u8>, at: int)
    requires
        0 <= at,
        at + 4 <= b.len(),
        b.subrange(at, at + 4) == be32(x),
    ensures
        be32_at(b, at) == x,
{
    let s = b.subrange(at, at + 4);
    assert(s[0] == b[at] && s[1] == b[at + 1] && s[2] == b[at + 2] && s[3] == b[at + 3]);
}

/// Four bytes are the big-endian bytes of the number that they spell.
pub proof fn lemma_be32_bytes(b: Seq<u8>, at: int)
    requires
        0 <= at,
        at + 4 <= b.len(),
    ensures
        be32(be32_at(b, at)) == b.subrange(at, at + 4),
{
    lemma_digits(b[at] as int, b[at + 1] as int, b[at + 2] as int, b[at + 3] as int);
    let s = b.subrange(at, at + 4);
    let t = be32(be32_at(b, at));
    assert(s[0] == b[at] && s[1] == b[at + 1] && s[2] == b[at + 2] && s[3] == b[at + 3]);
    assert(t[0] == s[0] && t[1] == s[1] && t[2] == s[2] && t[3] == s[3]);
    assert(t =~= s);
}

/// The big-endian bytes of a number are its digits to the base 256.
pub proof fn lemma_be32_value(x: u32)
    ensures
        be32(x).len() == 4,
        be32(x)[0] * 0x1000000 + be32(x)[1] * 0x10000 + be32(x)[2] * 0x100 + be32(x)[3] == x,
{
}

/// The base-256 digits of a four-digit number.
proof fn lemma_digits(a: int, b: int, c: int, d: int)
    requires
        0 <= a < 256,
        0 <= b < 256,
        0 <= c < 256,
        0 <= d < 256,
    ensures
        ({
            let x = a * 0x1000000 + b * 0x10000 + c * 0x100 + d;
            &&& 0 <= x <= u32::MAX
            &&& x / 0x1000000 == a
            &&& x / 0x10000 % 0x100 == b
            &&& x / 0x100 % 0x100 == c
            &&& x % 0x100 == d
        }),
{
    let x = a * 0x1000000 + b * 0x10000 + c * 0x100 + d;
    assert(x / 0x100 == a * 0x10000 + b * 0x100 + c);
    assert(x / 0x10000 == a * 0x100 + b);
}

/// Appends the big-endian bytes of `x`.
pub fn push_be32(v: &mut Vec<u8>, x: u32)
    ensures
        final(v)@ == old(v)@ + be32(x),
{
    v.push((x / 0x1000000) as u8);
    v.push((x / 0x10000 % 0x100) as u8);
    v.push((x / 0x100 % 0x100) as u8);
    v.push((x % 0x100) as u8);
    assert(v@ =~= old(v)@ + be32(x));
}

/// Reads a big-endian number.
pub fn read_be32(b: &[u8], at: usize) -> (x: u32)
    requires
        at + 4 <= b@.len(),
    ensures
        x == be32_at(b@, at as int),
{
    b[at] as u32 * 0x1000000 + b[at + 1] as u32 * 0x10000 + b[at + 2] as u32 * 0x100 + b[at
        + 3] as u32
}

/// Appends `b`.
pub fn append(v: &mut Vec<u8>, b: &[u8])
    ensures
        final(v)@ == old(v)@ + b@,
{
    v.extend_from_slice(b);
    assert(v@ =~= old(v)@ + b@);
}

/// Whether two byte strings are equal.
pub fn same(a: &[u8], b: &[u8]) -> (r: bool)
    ensures
        r == (a@ == b@),
{
    if a.len() != b.len() {
        return false;
    }
    let mut i: usize = 0;
    while i < a.len()
        invariant
            i <= a@.len(),
            a@.len() == b@.len(),
            forall|j: int| 0 <= j < i ==> a@[j] == b@[j],
        decreases a@.len() - i,
    {
        if a[i] != b[i] {
            return false;
        }
        i = i + 1;
    }
    assert(a@ =~= b@);
    true
}

/// The `N` bytes of `b` from `at` on.
pub fn field<const N: usize>(b: &[u8], at: usize) -> (a: [u8; N])
    requires
        at + N <= b@.len(),
    ensures
        a@ == b@.subrange(at as int, at + N),
{
    let mut a: [u8; N] = [0u8; N];
    let len: usize = b.len();
    let mut i: usize = 0;
    while i < N
        invariant
            i <= N,
            len == b@.len(),
            at + N <= b@.len(),
            forall|j: int| 0 <= j < i ==> a@[j] == b@[at + j],
        decreases N - i,
    {
        a[i] = b[at + i];
        i = i + 1;
    }
    assert(a@ =~= b@.subrange(at as int, at + N));
    a
}

/// A copy of `b`.
pub fn to_vec(b: &[u8]) -> (v: Vec<u8>)
    ensures
        v@ == b@,
{
    slice_to_vec(b)
}

} // verus!
