//! Secret byte strings, wiped from memory when they are dropped.

use crate::bytes;
use vstd::prelude::*;
use zeroize::Zeroizing;

verus! {

/// Secret bytes. They live in a `zeroize::Zeroizing<Vec<u8>>`, which overwrites them with zeros
/// when the value is dropped.
#[verifier::external_body]
#[derive(Debug)]
pub struct Secret {
    inner: Zeroizing<Vec<u8>>,
}

/// The bytes that a secret holds.
pub uninterp spec fn secret_bytes(s: Secret) -> Seq<u8>;

impl View for Secret {
    type V = Seq<u8>;

    open spec fn view(&self) -> Seq<u8> {
        secret_bytes(*self)
    }
}

/// `zeroize::Zeroizing::new`: the wrapper holds the vector that was moved into it.
#[verifier::external_body]
fn zeroizing_new(v: Vec<u8>) -> (s: Secret)
    ensures
        secret_bytes(s) == v@,
{
    Secret { inner: Zeroizing::new(v) }
}

/// `zeroize::Zeroizing::deref`: the wrapper hands out the bytes it holds.
#[verifier::external_body]
fn zeroizing_deref(s: &Secret) -> (b: &[u8])
    ensures
        b@ == secret_bytes(*s),
{
    &s.inner
}

/// `zeroize::Zeroizing::deref_mut`, followed by an append on the vector inside: the new bytes
/// come behind those already held.
#[verifier::external_body]
fn zeroizing_extend(s: &mut Secret, b: &[u8])
    ensures
        secret_bytes(*final(s)) == secret_bytes(*old(s)) + b@,
{
    s.inner.extend_from_slice(b)
}

/// `zeroize::Zeroizing::deref_mut`, as an array: the wrapper lends out the bytes it holds, and holds
/// afterwards what the borrower left there. Converting to an array fails only for another length,
/// which is ruled out.
#[verifier::external_body]
fn zeroizing_array_mut<const N: usize>(s: &mut Secret) -> (b: &mut [u8; N])
    requires
        secret_bytes(*old(s)).len() == N,
    ensures
        (*b)@ == secret_bytes(*old(s)),
        secret_bytes(*final(s)) == final(b)@,
{
    s.inner.as_mut_slice().try_into().expect("the length of the array")
}

impl Secret {
    /// Takes charge of `v`.
    pub fn new(v: Vec<u8>) -> (s: Secret)
        ensures
            s@ == v@,
    {
        zeroizing_new(v)
    }

    /// The bytes.
    pub fn as_slice(&self) -> (b: &[u8])
        ensures
            b@ == self@,
    {
        zeroizing_deref(self)
    }

    /// Appends `b`.
    pub fn extend(&mut self, b: &[u8])
        ensures
            final(self)@ == old(self)@ + b@,
    {
        zeroizing_extend(self, b)
    }

    /// The bytes, to be overwritten in place.
    pub(crate) fn as_array_mut<const N: usize>(&mut self) -> (b: &mut [u8; N])
        requires
            old(self)@.len() == N,
        ensures
            (*b)@ == old(self)@,
            final(self)@ == final(b)@,
    {
        zeroizing_array_mut::<N>(self)
    }

    /// Appends one byte.
    pub fn push(&mut self, b: u8)
        ensures
            final(self)@ == old(self)@.push(b),
    {
        let one: [u8; 1] = [b];
        self.extend(one.as_slice());
        assert(self@ =~= old(self)@.push(b));
    }

    pub fn len(&self) -> (n: usize)
        ensures
            n == self@.len(),
    {
        self.as_slice().len()
    }

    pub fn is_empty(&self) -> (r: bool)
        ensures
            r == (self@.len() == 0),
    {
        self.as_slice().len() == 0
    }

    /// Whether two secrets hold the same bytes.
    pub fn same(&self, other: &Secret) -> (r: bool)
        ensures
            r == (self@ == other@),
    {
        bytes::same(self.as_slice(), other.as_slice())
    }

}

impl Clone for Secret {
    fn clone(&self) -> (s: Self)
        ensures
            s@ == self@,
    {
        Secret::new(bytes::to_vec(self.as_slice()))
    }
}

/// A 256-bit key.
#[derive(Debug)]
pub struct Key {
    bytes: Secret,
}

impl View for Key {
    type V = Seq<u8>;

    closed spec fn view(&self) -> Seq<u8> {
        self.bytes@
    }
}

impl Clone for Key {
    fn clone(&self) -> (k: Self)
        ensures
            k@ == self@,
    {
        proof {
            use_type_invariant(self);
        }
        Key { bytes: self.bytes.clone() }
    }
}

impl Key {
    #[verifier::type_invariant]
    spec fn sized(&self) -> bool {
        self.bytes@.len() == 32
    }

    /// The key made of these 32 bytes.
    pub fn new(b: &[u8; 32]) -> (k: Key)
        ensures
            k@ == b@,
    {
        Key { bytes: Secret::new(bytes::to_vec(b.as_slice())) }
    }

    /// The key made of the 32 bytes of `s`.
    pub(crate) fn holding(s: Secret) -> (k: Key)
        requires
            s@.len() == 32,
        ensures
            k@ == s@,
    {
        Key { bytes: s }
    }

    /// The 32 bytes.
    pub fn as_slice(&self) -> (b: &[u8])
        ensures
            b@ == self@,
            b@.len() == 32,
    {
        proof {
            use_type_invariant(self);
        }
        self.bytes.as_slice()
    }
}

} // verus!
