//! Random bytes: any function that fills a buffer, and the operating system's.

use crate::bytes;
use crate::vault::crypto;
use crate::vault::error::Error;
use crate::vault::secret::Secret;
use vstd::prelude::*;

verus! {

/// A source of random bytes can be called on any buffer.
pub open spec fn callable<R: FnMut(&mut [u8]) -> Result<(), Error>>(rng: R) -> bool {
    forall|buf: &mut [u8]| #[trigger] call_requires(rng, (buf,))
}

/// Calling the source on a zeroed buffer of `n` bytes can fail with `e`.
pub open spec fn refused<R: FnMut(&mut [u8]) -> Result<(), Error>>(
    rng: R,
    n: nat,
    e: Error,
) -> bool {
    exists|buf: &mut [u8]|
        (*buf)@ == bytes::zeros(n) && #[trigger] call_ensures(rng, (buf,), Err(e))
}

/// Calls the source.
fn ask<R: FnMut(&mut [u8]) -> Result<(), Error>>(rng: &mut R, buf: &mut [u8]) -> (r: Result<
    (),
    Error,
>)
    requires
        callable(*old(rng)),
    ensures
        *final(rng) == *old(rng),
        exists|lent: &mut [u8]|
            (*lent)@ == old(buf)@ && final(lent)@ == final(buf)@ && #[trigger] call_ensures(
                *old(rng),
                (lent,),
                r,
            ),
{
    rng(buf)
}

/// Draws `N` bytes into a buffer that is wiped when it is dropped: a call of the source filled the
/// zeroed buffer with them.
///
/// That the source is unchanged is said of it as a value: a closure is a value without state here,
/// and what its captures do between calls is not described.
pub fn draw<const N: usize, R: FnMut(&mut [u8]) -> Result<(), Error>>(rng: &mut R) -> (r: Result<
    Secret,
    Error,
>)
    requires
        callable(*old(rng)),
    ensures
        *final(rng) == *old(rng),
        r matches Ok(b) ==> b@.len() == N && exists|buf: &mut [u8], o: Result<(), Error>|
            o is Ok && (*buf)@ == bytes::zeros(N as nat) && final(buf)@ == b@
                && #[trigger] call_ensures(*old(rng), (buf,), o),
        r matches Err(e) ==> refused(*old(rng), N as nat, e),
{
    let zeros: [u8; N] = [0u8; N];
    assert(zeros@ =~= bytes::zeros(N as nat));
    let mut b: Secret = Secret::new(bytes::to_vec(zeros.as_slice()));
    match ask(rng, b.as_array_mut::<N>()) {
        Ok(_) => Ok(b),
        Err(e) => Err(e),
    }
}

/// Whether `b` is what `draw` can give: `N` bytes with which a call of the source filled a zeroed
/// buffer.
pub open spec fn drawn<const N: usize, R: FnMut(&mut [u8]) -> Result<(), Error>>(
    rng: R,
    b: Seq<u8>,
) -> bool {
    exists|lent: &mut R, out: Result<Secret, Error>|
        *lent == rng && out is Ok && out->Ok_0@ == b && #[trigger] call_ensures(
            draw::<N, R>,
            (lent,),
            out,
        )
}

/// Draws with `f`.
fn draw_by<R, F: Fn(&mut R) -> Result<Secret, Error>>(f: F, rng: &mut R) -> (r: Result<
    Secret,
    Error,
>)
    requires
        forall|lent: &mut R| *lent == *old(rng) ==> #[trigger] call_requires(f, (lent,)),
    ensures
        exists|lent: &mut R|
            *lent == *old(rng) && *final(lent) == *final(rng) && #[trigger] call_ensures(
                f,
                (lent,),
                r,
            ),
{
    f(rng)
}

/// Draws `N` bytes.
pub(crate) fn take<const N: usize, R: FnMut(&mut [u8]) -> Result<(), Error>>(rng: &mut R) -> (r:
    Result<Secret, Error>)
    requires
        callable(*old(rng)),
    ensures
        *final(rng) == *old(rng),
        r matches Ok(b) ==> b@.len() == N && drawn::<N, R>(*old(rng), b@),
        r matches Err(e) ==> refused(*old(rng), N as nat, e),
{
    draw_by(draw::<N, R>, rng)
}

/// Has `source` fill `buf`, and returns what it says.
fn fill<G: Fn(&mut [u8]) -> bool>(source: G, buf: &mut [u8]) -> (ok: bool)
    requires
        forall|lent: &mut [u8]| #[trigger] call_requires(source, (lent,)),
    ensures
        exists|lent: &mut [u8]|
            (*lent)@ == old(buf)@ && final(lent)@ == final(buf)@ && #[trigger] call_ensures(
                source,
                (lent,),
                ok,
            ),
{
    source(buf)
}

/// Fills `buf` from the operating system's generator: the generator is handed the buffer, and what
/// it leaves there and whether it succeeds is what comes back. An empty buffer needs no random
/// bytes, so it is always filled; whether another one is, and with which bytes, is up to the system.
pub fn os_rng(buf: &mut [u8]) -> (r: Result<(), Error>)
    ensures
        exists|lent: &mut [u8], ok: bool|
            (*lent)@ == old(buf)@ && final(lent)@ == final(buf)@ && (r is Ok <==> ok)
                && #[trigger] call_ensures(crypto::random_fill, (lent,), ok),
        final(buf)@.len() == old(buf)@.len(),
        old(buf)@.len() == 0 ==> r is Ok,
        r matches Err(e) ==> e == Error::Rng,
{
    system_result(fill(crypto::random_fill, buf))
}

/// What the operating system's generator comes to, where `ok` tells whether it filled the buffer.
pub fn system_result(ok: bool) -> (r: Result<(), Error>)
    ensures
        r == if ok {
            Ok::<(), Error>(())
        } else {
            Err(Error::Rng)
        },
{
    if ok {
        Ok(())
    } else {
        Err(Error::Rng)
    }
}

} // verus!
