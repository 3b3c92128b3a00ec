//! The body of a vault: the data in chunks, each encrypted under the file key with a nonce that
//! holds its number and whether it is the last.

use crate::bytes;
use crate::text;
use crate::vault::crypto::{self, TAG};
use crate::vault::error::{Error, ErrorView};
use crate::vault::secret::{Key, Secret};
use crate::vault::slot;
use crate::vault::stream::{Fill, Filler, ReadEvent};
use vstd::prelude::*;
use vstd::slice::*;
use vstd::string::*;

verus! {

/// The most data bytes in a chunk.
pub const CHUNK: usize = 0x100000;

/// The random bytes that start every nonce of a body.
pub const PREFIX: usize = 19;

/// Data bytes and tag of a full chunk.
pub const SEALED_CHUNK: usize = 0x100010;

/// The most chunks in a body.
pub open spec fn max_chunks() -> int {
    0x100000000
}

/// The nonce of chunk `i`.
pub open spec fn nonce_of(prefix: Seq<u8>, i: int, last: bool) -> Seq<u8> {
    prefix + bytes::be32(i as u32) + seq![if last { 1u8 } else { 0u8 }]
}

/// The number of the last chunk when `len` bytes are cut into pieces of `size`: only the last one
/// may be shorter, and it is empty only where there is nothing at all.
pub open spec fn last_index(len: nat, size: nat) -> nat {
    if len == 0 {
        0
    } else {
        ((len - 1) / size as int) as nat
    }
}

/// Piece `i` of `data` cut into pieces of `size`.
pub open spec fn piece(data: Seq<u8>, size: int, i: int) -> Seq<u8> {
    data.subrange(i * size, (i + 1) * size)
}

/// A chunk, encrypted.
pub open spec fn chunk(fk: Seq<u8>, prefix: Seq<u8>, i: int, last: bool, msg: Seq<u8>) -> Seq<u8> {
    crypto::aead_seal(fk, nonce_of(prefix, i, last), msg, slot::magic())
}

/// What a chunk holds, if it is accepted.
pub open spec fn unchunk(fk: Seq<u8>, prefix: Seq<u8>, i: int, last: bool, ct: Seq<u8>) -> Option<
    Seq<u8>,
> {
    crypto::aead_open(fk, nonce_of(prefix, i, last), ct, slot::magic())
}

/// The first `n` chunks of `data`, full ones that others follow.
pub open spec fn chunks(fk: Seq<u8>, prefix: Seq<u8>, data: Seq<u8>, n: nat) -> Seq<u8>
    decreases n,
{
    if n == 0 {
        Seq::empty()
    } else {
        chunks(fk, prefix, data, (n - 1) as nat) + chunk(
            fk,
            prefix,
            n - 1,
            false,
            piece(data, CHUNK as int, n - 1),
        )
    }
}

/// The data encrypted in `k` full chunks and a last one, which holds what is left.
pub open spec fn sealed_in(fk: Seq<u8>, prefix: Seq<u8>, data: Seq<u8>, k: nat) -> Seq<u8> {
    chunks(fk, prefix, data, k) + chunk(fk, prefix, k as int, true, data.skip(k * CHUNK))
}

/// The data encrypted, in as few chunks as it takes.
#[verifier::opaque]
pub open spec fn sealed(fk: Seq<u8>, prefix: Seq<u8>, data: Seq<u8>) -> Seq<u8> {
    sealed_in(fk, prefix, data, last_index(data.len(), CHUNK as nat))
}

/// What opening chunks comes to: the data that is given out, and the fault that stops it.
pub struct Opening {
    pub out: Seq<u8>,
    pub fault: Option<ErrorView>,
}

/// The fault of a chunk that is not accepted.
pub open spec fn rejected(i: int) -> ErrorView {
    ErrorView::Corrupt(
        "chunk "@ + text::decimal_text(i as nat)
            + " rejected (damaged, reordered or truncated)"@,
    )
}

/// The fault of a body that goes on behind the last chunk that a number can be given to.
pub open spec fn too_many() -> ErrorView {
    ErrorView::Corrupt("too many chunks"@)
}

/// What opening the first `n` chunks of `ct`, full ones that others follow, comes to.
pub open spec fn opening_first(fk: Seq<u8>, prefix: Seq<u8>, ct: Seq<u8>, n: nat) -> Opening
    decreases n,
{
    if n == 0 {
        Opening { out: Seq::empty(), fault: None }
    } else {
        let before = opening_first(fk, prefix, ct, (n - 1) as nat);
        if before.fault is Some {
            before
        } else {
            match unchunk(fk, prefix, n - 1, false, piece(ct, SEALED_CHUNK as int, n - 1)) {
                None => Opening { out: before.out, fault: Some(rejected(n - 1)) },
                Some(m) => Opening {
                    out: before.out + m,
                    fault: if n == max_chunks() {
                        Some(too_many())
                    } else {
                        None
                    },
                },
            }
        }
    }
}

/// What opening all chunks comes to.
pub open spec fn opening(fk: Seq<u8>, prefix: Seq<u8>, ct: Seq<u8>) -> Opening {
    let k = last_index(ct.len(), SEALED_CHUNK as nat);
    let before = opening_first(fk, prefix, ct, k);
    let tail = ct.skip(k * SEALED_CHUNK);
    if before.fault is Some {
        before
    } else if tail.len() < TAG {
        Opening { out: before.out, fault: Some(ErrorView::Truncated) }
    } else {
        match unchunk(fk, prefix, k as int, true, tail) {
            None => Opening { out: before.out, fault: Some(rejected(k as int)) },
            Some(m) => Opening { out: before.out + m, fault: None },
        }
    }
}

/// What opening a body, the prefix and the chunks, comes to.
#[verifier::opaque]
pub open spec fn body_opening(fk: Seq<u8>, body: Seq<u8>) -> Opening {
    if body.len() < PREFIX {
        Opening { out: Seq::empty(), fault: Some(ErrorView::Truncated) }
    } else {
        opening(fk, body.take(PREFIX as int), body.skip(PREFIX as int))
    }
}

/// Whether `body` is `data` sealed: a prefix, full chunks, and a last chunk with what is left. It
/// need not have the fewest chunks possible: behind full chunks the last one may be empty.
#[verifier::opaque]
pub open spec fn is_sealing(fk: Seq<u8>, body: Seq<u8>, data: Seq<u8>) -> bool {
    let k = last_index((body.len() - PREFIX) as nat, SEALED_CHUNK as nat);
    &&& body.len() >= PREFIX
    &&& body.skip(PREFIX as int) == sealed_in(fk, body.take(PREFIX as int), data, k)
    &&& k * CHUNK <= data.len() <= (k + 1) * CHUNK
}

/// Whether chunk `i` opens to what went into it, and has the length of that and a tag.
pub open spec fn sound(fk: Seq<u8>, prefix: Seq<u8>, i: int, last: bool, msg: Seq<u8>) -> bool {
    let ct = chunk(fk, prefix, i, last, msg);
    &&& unchunk(fk, prefix, i, last, ct) == Some(msg)
    &&& ct.len() == msg.len() + TAG
}

/// Whether the first `n` chunks of `data` are sound.
pub open spec fn all_sound(fk: Seq<u8>, prefix: Seq<u8>, data: Seq<u8>, n: int) -> bool {
    forall|i: int|
        0 <= i < n ==> sound(fk, prefix, i, false, #[trigger] piece(data, CHUNK as int, i))
}

/// Whether all chunks of `data` are sound, and there are no more of them than can be numbered.
pub open spec fn sealing_sound(fk: Seq<u8>, prefix: Seq<u8>, data: Seq<u8>) -> bool {
    let k = last_index(data.len(), CHUNK as nat);
    &&& k < max_chunks()
    &&& all_sound(fk, prefix, data, k as int)
    &&& sound(fk, prefix, k as int, true, data.skip(k * CHUNK))
}

/// Two chunks share a nonce only if they start with the same prefix, have the same number and are
/// both last or both not: a chunk that was moved, put into another body, or cut off from those
/// behind it, is opened under another nonce than it was sealed with.
pub proof fn law_nonce_tells_place(
    p: Seq<u8>,
    i: int,
    last: bool,
    q: Seq<u8>,
    j: int,
    last2: bool,
)
    requires
        p.len() == q.len(),
        0 <= i < max_chunks(),
        0 <= j < max_chunks(),
    ensures
        nonce_of(p, i, last) == nonce_of(q, j, last2) <==> p == q && i == j && last == last2,
{
    let a = nonce_of(p, i, last);
    let b = nonce_of(q, j, last2);
    let n = p.len() as int;
    if a == b {
        assert(p =~= a.take(n));
        assert(q =~= b.take(n));
        assert(a[n + 4] == b[n + 4]);
        assert(a.subrange(n, n + 4) =~= bytes::be32(i as u32));
        assert(b.subrange(n, n + 4) =~= bytes::be32(j as u32));
        bytes::lemma_be32_round_trip(i as u32, a, n);
        bytes::lemma_be32_round_trip(j as u32, b, n);
    }
}

/// The first chunks depend on the data they hold alone.
proof fn lemma_chunks_prefix(
    fk: Seq<u8>,
    prefix: Seq<u8>,
    data: Seq<u8>,
    more: Seq<u8>,
    n: nat,
)
    requires
        n * CHUNK <= data.len(),
    ensures
        chunks(fk, prefix, data + more, n) == chunks(fk, prefix, data, n),
        forall|i: int|
            0 <= i < n ==> #[trigger] piece(data + more, CHUNK as int, i) == piece(
                data,
                CHUNK as int,
                i,
            ),
    decreases n,
{
    if n > 0 {
        lemma_chunks_prefix(fk, prefix, data, more, (n - 1) as nat);
    }
    assert forall|i: int| 0 <= i < n implies #[trigger] piece(data + more, CHUNK as int, i)
        == piece(data, CHUNK as int, i) by {
        assert((i + 1) * CHUNK <= n * CHUNK) by (nonlinear_arith)
            requires
                i < n,
        ;
        assert(piece(data + more, CHUNK as int, i) =~= piece(data, CHUNK as int, i));
    }
}

/// The nonce of chunk `i`.
pub fn chunk_nonce(prefix: &[u8; 19], i: u32, last: bool) -> (n: [u8; 24])
    ensures
        n@ == nonce_of(prefix@, i as int, last),
{
    let mut v: Vec<u8> = bytes::to_vec(prefix.as_slice());
    bytes::push_be32(&mut v, i);
    v.push(if last { 1 } else { 0 });
    let n: [u8; 24] = bytes::field::<24>(v.as_slice(), 0);
    assert(v@.subrange(0, 24) =~= nonce_of(prefix@, i as int, last));
    n
}

fn seal_chunk(fk: &Key, prefix: &[u8; 19], i: u32, last: bool, msg: &[u8]) -> (r: Result<
    Secret,
    Error,
>)
    requires
        msg@.len() <= CHUNK,
    ensures
        r matches Ok(ct) && ct@ == chunk(fk@, prefix@, i as int, last, msg@) && sound(
            fk@,
            prefix@,
            i as int,
            last,
            msg@,
        ),
{
    let start: [u8; 8] = slot::magic_array();
    match crypto::encrypt(
        fk.as_slice(),
        &chunk_nonce(prefix, i, last),
        msg,
        start.as_slice(),
    ) {
        Some(ct) => Ok(Secret::new(ct)),
        None => Err(Error::Corrupt(text::owned("encrypt"))),
    }
}

/// What came of the last thing that a `Sealer` or an `Opener` asked for.
pub enum Io {
    Read(ReadEvent),
    Wrote,
    WriteFailed(String),
}

impl Io {
    /// The bytes that were read.
    pub open spec fn data(self) -> Seq<u8> {
        match self {
            Io::Read(ev) => ev.data(),
            _ => Seq::empty(),
        }
    }

    /// Whether a read says that the stream has ended.
    pub open spec fn is_end(self) -> bool {
        self matches Io::Read(ev) && ev.is_end()
    }

    /// The error that reading or writing itself ended in.
    pub open spec fn failure(self) -> Option<ErrorView> {
        match self {
            Io::Read(ReadEvent::Failed(w)) => Some(ErrorView::Io(w@)),
            Io::WriteFailed(w) => Some(ErrorView::Io(w@)),
            _ => None,
        }
    }
}

/// What a `Sealer` or an `Opener` wants done next.
pub enum Action {
    /// Read up to this many bytes.
    Read(usize),
    /// Write all of these bytes.
    Write(Secret),
    /// Flush what was written.
    Flush,
    /// Nothing: it is done, and this many data bytes went through.
    Done(u64),
    Fail(Error),
}

/// Where a `Sealer` or an `Opener` stands.
#[derive(Clone, Copy, PartialEq, Eq, Structural)]
pub enum Phase {
    Reading,
    /// Writing a chunk that others follow.
    Writing,
    /// Writing the last chunk.
    WritingLast,
    Flushing,
    Over,
}

impl Phase {
    /// Whether the phase waits for what `ev` reports.
    pub open spec fn awaits(self, ev: Io) -> bool {
        match self {
            Phase::Reading => ev is Read,
            Phase::Over => false,
            _ => !(ev is Read),
        }
    }
}

/// Encrypts a stream chunk by chunk.
pub struct Sealer {
    pub fk: Key,
    pub prefix: [u8; 19],
    /// The bytes of the chunk at hand and one more, which tells whether it is the last.
    pub filler: Filler,
    pub index: u32,
    pub total: u64,
    pub phase: Phase,
    /// All bytes taken in so far.
    pub taken: Ghost<Seq<u8>>,
    /// All bytes handed out for writing so far.
    pub sent: Ghost<Seq<u8>>,
}

impl Sealer {
    /// The chunks before the one at hand were sent and are sound; the buffer holds what was taken
    /// in behind them.
    pub closed spec fn wf(self) -> bool {
        let data = self.taken@;
        let done = self.index * CHUNK;
        &&& self.filler.want == CHUNK + 1
        &&& done <= data.len()
        &&& all_sound(self.fk@, self.prefix@, data, self.index as int)
        &&& match self.phase {
            Phase::Reading => {
                &&& self.sent@ == chunks(self.fk@, self.prefix@, data, self.index as nat)
                &&& self.filler.buf@ == data.skip(done)
                &&& self.filler.open()
                &&& self.index > 0 ==> self.filler.buf@.len() > 0
                &&& self.total == done
            },
            Phase::Writing => {
                &&& data.len() == done + CHUNK + 1
                &&& sound(
                    self.fk@,
                    self.prefix@,
                    self.index as int,
                    false,
                    piece(data, CHUNK as int, self.index as int),
                )
                &&& self.sent@ == chunks(self.fk@, self.prefix@, data, self.index as nat + 1)
                &&& self.filler.buf@ == data.skip(done + CHUNK)
                &&& self.total == done + CHUNK
            },
            _ => {
                &&& self.index == last_index(data.len(), CHUNK as nat)
                &&& sound(self.fk@, self.prefix@, self.index as int, true, data.skip(done))
                &&& self.sent@ == sealed(self.fk@, self.prefix@, data)
                &&& self.total == data.len()
            },
        }
    }

    /// Whether `ev` can come now.
    pub open spec fn takes(self, ev: Io) -> bool {
        &&& self.phase.awaits(ev)
        &&& ev matches Io::Read(r) ==> self.filler.takes(r)
    }

    /// A sealer that has seen nothing yet, and how many bytes it wants.
    pub fn begin(fk: Key, prefix: [u8; 19]) -> (r: (Sealer, usize))
        ensures
            r.0.wf(),
            r.0.phase == Phase::Reading,
            r.0.fk == fk,
            r.0.prefix == prefix,
            r.0.taken@ == Seq::<u8>::empty(),
            r.0.sent@ == Seq::<u8>::empty(),
            0 < r.1 == r.0.filler.want - r.0.filler.buf@.len(),
    {
        let s: Sealer = Sealer {
            fk,
            prefix,
            filler: Filler::new(CHUNK + 1),
            index: 0,
            total: 0,
            phase: Phase::Reading,
            taken: Ghost(Seq::empty()),
            sent: Ghost(Seq::empty()),
        };
        assert(s.taken@.skip(0) =~= s.filler.buf@);
        (s, CHUNK + 1)
    }

    /// Takes in what came of the last action, and says what to do next. A chunk is encrypted as
    /// soon as it is known whether another byte follows it.
    pub fn step(&mut self, ev: Io) -> (a: Action)
        requires
            old(self).wf(),
            old(self).takes(ev),
        ensures
            final(self).fk == old(self).fk,
            final(self).prefix == old(self).prefix,
            final(self).taken@ == old(self).taken@ + ev.data(),
            a is Fail || final(self).wf(),
            a is Write || final(self).sent@ == old(self).sent@,
            match a {
                Action::Read(n) => {
                    &&& old(self).phase == Phase::Reading || old(self).phase == Phase::Writing
                    &&& final(self).phase == Phase::Reading
                    &&& 0 < n == final(self).filler.want - final(self).filler.buf@.len()
                    &&& !ev.is_end()
                },
                Action::Write(ct) => {
                    &&& old(self).phase == Phase::Reading
                    &&& final(self).phase == if ev.is_end() {
                        Phase::WritingLast
                    } else {
                        Phase::Writing
                    }
                    &&& final(self).sent@ == old(self).sent@ + ct@
                },
                Action::Flush => {
                    &&& old(self).phase == Phase::WritingLast
                    &&& final(self).phase == Phase::Flushing
                },
                Action::Done(n) => {
                    let data = final(self).taken@;
                    let ct = final(self).sent@;
                    &&& old(self).phase == Phase::Flushing
                    &&& final(self).phase == Phase::Over
                    &&& n == data.len()
                    &&& ct == sealed(final(self).fk@, final(self).prefix@, data)
                    &&& sealing_sound(final(self).fk@, final(self).prefix@, data)
                    &&& ct.len() == data.len() + (last_index(data.len(), CHUNK as nat) + 1) * TAG
                    &&& body_opening(final(self).fk@, final(self).prefix@ + ct) == (Opening {
                        out: data,
                        fault: None,
                    })
                },
                Action::Fail(e) => match ev.failure() {
                    Some(f) => e@ == f,
                    None => {
                        &&& e@ == too_many()
                        &&& old(self).phase == Phase::Writing
                        &&& final(self).taken@.len() == max_chunks() * CHUNK + 1
                    },
                },
            },
            ev.failure() is Some ==> a is Fail,
    {
        match ev {
            Io::Read(r) => self.feed(r),
            Io::WriteFailed(w) => {
                assert(self.taken@ =~= old(self).taken@ + ev.data());
                Action::Fail(Error::Io(w))
            },
            Io::Wrote => {
                assert(self.taken@ =~= old(self).taken@ + ev.data());
                match self.phase {
                    Phase::Writing => {
                        if self.index == u32::MAX {
                            return Action::Fail(Error::Corrupt(text::owned("too many chunks")));
                        }
                        self.index = self.index + 1;
                        self.phase = Phase::Reading;
                        Action::Read(self.filler.missing())
                    },
                    Phase::WritingLast => {
                        self.phase = Phase::Flushing;
                        Action::Flush
                    },
                    _ => {
                        self.phase = Phase::Over;
                        proof {
                            law_sealed_body_opens(self.fk@, self.prefix@, self.taken@);
                        }
                        Action::Done(self.total)
                    },
                }
            },
        }
    }

    fn feed(&mut self, ev: ReadEvent) -> (a: Action)
        requires
            old(self).wf(),
            old(self).phase == Phase::Reading,
            old(self).filler.takes(ev),
        ensures
            final(self).fk == old(self).fk,
            final(self).prefix == old(self).prefix,
            final(self).taken@ == old(self).taken@ + ev.data(),
            a is Fail || final(self).wf(),
            a is Write || final(self).sent@ == old(self).sent@,
            match a {
                Action::Read(n) => {
                    &&& final(self).phase == Phase::Reading
                    &&& 0 < n == final(self).filler.want - final(self).filler.buf@.len()
                    &&& !ev.is_end()
                    &&& !(ev is Failed)
                },
                Action::Write(ct) => {
                    &&& final(self).phase == if ev.is_end() {
                        Phase::WritingLast
                    } else {
                        Phase::Writing
                    }
                    &&& final(self).sent@ == old(self).sent@ + ct@
                    &&& !(ev is Failed)
                },
                Action::Fail(e) => ev matches ReadEvent::Failed(w) && e@ == ErrorView::Io(w@),
                _ => false,
            },
    {
        let ghost before = self.taken@;
        let ghost new = ev.data();
        let ghost done = self.index * CHUNK;
        let fill: Fill = self.filler.feed(ev);
        self.taken = Ghost(before + new);
        proof {
            lemma_chunks_prefix(self.fk@, self.prefix@, before, new, self.index as nat);
            assert(all_sound(self.fk@, self.prefix@, self.taken@, self.index as int));
            assert(self.taken@.skip(done) =~= self.filler.buf@);
        }
        match fill {
            Fill::Failed(e) => Action::Fail(e),
            Fill::More => Action::Read(self.filler.missing()),
            Fill::End => {
                let n: usize = self.filler.buf.len();
                let last: bool = n <= CHUNK;
                let m: usize = if last { n } else { CHUNK };
                let msg: &[u8] = slice_subrange(self.filler.buf.as_slice(), 0, m);
                assert(last ==> msg@ =~= self.taken@.skip(done));
                assert(!last ==> msg@ =~= piece(self.taken@, CHUNK as int, self.index as int));
                let ct: Secret = match seal_chunk(&self.fk, &self.prefix, self.index, last, msg) {
                    Ok(ct) => ct,
                    Err(e) => return Action::Fail(e),
                };
                self.total = self.total + m as u64;
                self.sent = Ghost(self.sent@ + ct@);
                if last {
                    self.phase = Phase::WritingLast;
                    reveal(sealed);
                } else {
                    let mut rest: Filler = Filler::new(CHUNK + 1);
                    rest.buf.extend(slice_subrange(self.filler.buf.as_slice(), m, n));
                    assert(rest.buf@ =~= self.taken@.skip(done + CHUNK));
                    self.filler = rest;
                    self.phase = Phase::Writing;
                }
                Action::Write(ct)
            },
        }
    }
}

/// What opening the first chunks comes to depends on these chunks alone.
proof fn lemma_opening_prefix(fk: Seq<u8>, prefix: Seq<u8>, ct: Seq<u8>, more: Seq<u8>, n: nat)
    requires
        n * SEALED_CHUNK <= ct.len(),
    ensures
        opening_first(fk, prefix, ct + more, n) == opening_first(fk, prefix, ct, n),
    decreases n,
{
    if n > 0 {
        lemma_opening_prefix(fk, prefix, ct, more, (n - 1) as nat);
        assert(piece(ct + more, SEALED_CHUNK as int, n - 1) =~= piece(
            ct,
            SEALED_CHUNK as int,
            n - 1,
        ));
    }
}

/// A fault among the first chunks is final.
proof fn lemma_opening_fault(fk: Seq<u8>, prefix: Seq<u8>, ct: Seq<u8>, n: nat, m: nat)
    requires
        n <= m,
        opening_first(fk, prefix, ct, n).fault is Some,
    ensures
        opening_first(fk, prefix, ct, m) == opening_first(fk, prefix, ct, n),
    decreases m,
{
    if n < m {
        lemma_opening_fault(fk, prefix, ct, n, (m - 1) as nat);
    }
}

/// A fault in a chunk that others follow stops the opening of every body that starts like this.
proof fn lemma_fault_settles(
    fk: Seq<u8>,
    body: Seq<u8>,
    more: Seq<u8>,
    n: nat,
)
    requires
        body.len() > PREFIX + n * SEALED_CHUNK,
        opening_first(fk, body.take(PREFIX as int), body.skip(PREFIX as int), n).fault is Some,
    ensures
        body_opening(fk, body + more) == opening_first(
            fk,
            body.take(PREFIX as int),
            body.skip(PREFIX as int),
            n,
        ),
{
    reveal(body_opening);
    let prefix = body.take(PREFIX as int);
    let ct = body.skip(PREFIX as int);
    let all = body + more;
    assert(all.take(PREFIX as int) =~= prefix);
    assert(all.skip(PREFIX as int) =~= ct + more);
    lemma_opening_prefix(fk, prefix, ct, more, n);
    let k = last_index((ct + more).len(), SEALED_CHUNK as nat);
    assert(n <= k);
    lemma_opening_fault(fk, prefix, ct + more, n, k);
}

/// Sound chunks one behind the other have their lengths, and open to the data they hold.
proof fn lemma_chunks_open(fk: Seq<u8>, prefix: Seq<u8>, data: Seq<u8>, rest: Seq<u8>, n: nat)
    requires
        n < max_chunks(),
        n * CHUNK <= data.len(),
        all_sound(fk, prefix, data, n as int),
    ensures
        chunks(fk, prefix, data, n).len() == n * SEALED_CHUNK,
        opening_first(fk, prefix, chunks(fk, prefix, data, n) + rest, n) == (Opening {
            out: data.take(n * CHUNK),
            fault: None,
        }),
    decreases n,
{
    if n == 0 {
        assert(data.take(0) =~= Seq::empty());
    } else {
        let m = (n - 1) as nat;
        let msg = piece(data, CHUNK as int, m as int);
        let ct = chunk(fk, prefix, m as int, false, msg);
        let all = chunks(fk, prefix, data, n) + rest;
        lemma_chunks_open(fk, prefix, data, ct + rest, m);
        assert(all =~= chunks(fk, prefix, data, m) + (ct + rest));
        assert(sound(fk, prefix, m as int, false, msg));
        assert(piece(all, SEALED_CHUNK as int, m as int) =~= ct);
        assert(data.take(n * CHUNK) =~= data.take(m * CHUNK) + msg);
    }
}

/// A body of sound chunks opens to the data that was sealed, and is longer than it by the prefix
/// and a tag for every chunk.
pub proof fn law_sealed_body_opens(fk: Seq<u8>, prefix: Seq<u8>, data: Seq<u8>)
    requires
        prefix.len() == PREFIX,
        sealing_sound(fk, prefix, data),
    ensures
        body_opening(fk, prefix + sealed(fk, prefix, data)) == (Opening { out: data, fault: None }),
        sealed(fk, prefix, data).len() == data.len() + (last_index(data.len(), CHUNK as nat) + 1)
            * TAG,
{
    reveal(sealed);
    reveal(body_opening);
    let k = last_index(data.len(), CHUNK as nat);
    let tail = data.skip(k * CHUNK);
    let end = chunk(fk, prefix, k as int, true, tail);
    let ct = sealed(fk, prefix, data);
    let body = prefix + ct;
    lemma_chunks_open(fk, prefix, data, end, k);
    assert(body.take(PREFIX as int) =~= prefix);
    assert(body.skip(PREFIX as int) =~= ct);
    assert(last_index(ct.len(), SEALED_CHUNK as nat) == k);
    assert(ct.skip(k * SEALED_CHUNK) =~= end);
    assert(data.take(k * CHUNK) + tail =~= data);
}

/// The data of chunk `i` of `k` full chunks and a last one.
pub open spec fn message(data: Seq<u8>, i: int, k: nat) -> Seq<u8> {
    if i == k {
        data.skip(k * CHUNK)
    } else {
        piece(data, CHUNK as int, i)
    }
}

/// Whether the cipher accepts, under `fk`, nothing but the chunks that sealing `data` made, each
/// in its place.
pub open spec fn accepts_only(fk: Seq<u8>, prefix: Seq<u8>, data: Seq<u8>) -> bool {
    let k = last_index(data.len(), CHUNK as nat);
    forall|nonce: Seq<u8>, ct: Seq<u8>| #[trigger]
        crypto::aead_open(fk, nonce, ct, slot::magic()) is Some ==> exists|i: int|
            0 <= i <= k && nonce == nonce_of(prefix, i, i == k) && ct == chunk(
                fk,
                prefix,
                i,
                i == k,
                #[trigger] message(data, i, k),
            )
}

/// A chunk that is accepted at place `j` of a body is the chunk that was sealed for that place.
proof fn lemma_accepted_in_place(
    fk: Seq<u8>,
    prefix: Seq<u8>,
    data: Seq<u8>,
    q: Seq<u8>,
    j: int,
    last: bool,
    ct: Seq<u8>,
)
    requires
        prefix.len() == PREFIX,
        q.len() == PREFIX,
        last_index(data.len(), CHUNK as nat) < max_chunks(),
        accepts_only(fk, prefix, data),
        0 <= j < max_chunks(),
        unchunk(fk, q, j, last, ct) is Some,
    ensures
        q == prefix,
        j <= last_index(data.len(), CHUNK as nat),
        last == (j == last_index(data.len(), CHUNK as nat)),
        ct == chunk(
            fk,
            prefix,
            j,
            last,
            message(data, j, last_index(data.len(), CHUNK as nat)),
        ),
{
    let k = last_index(data.len(), CHUNK as nat);
    let nonce = nonce_of(q, j, last);
    assert(crypto::aead_open(fk, nonce, ct, slot::magic()) is Some);
    let i = choose|i: int|
        0 <= i <= k && nonce == nonce_of(prefix, i, i == k) && ct == chunk(
            fk,
            prefix,
            i,
            i == k,
            #[trigger] message(data, i, k),
        );
    law_nonce_tells_place(q, j, last, prefix, i, i == k);
}

/// Chunks that are accepted one behind the other are the first ones that were sealed; a fault stops
/// at whole chunks of the data.
proof fn lemma_only_sealed_first(
    fk: Seq<u8>,
    prefix: Seq<u8>,
    data: Seq<u8>,
    q: Seq<u8>,
    ct: Seq<u8>,
    n: nat,
)
    requires
        prefix.len() == PREFIX,
        q.len() == PREFIX,
        sealing_sound(fk, prefix, data),
        accepts_only(fk, prefix, data),
        n * SEALED_CHUNK <= ct.len(),
        n <= max_chunks(),
    ensures
        ({
            let o = opening_first(fk, q, ct, n);
            let k = last_index(data.len(), CHUNK as nat);
            &&& match o.fault {
                None => {
                    &&& n <= k
                    &&& n > 0 ==> q == prefix
                    &&& o.out == data.take(n * CHUNK)
                    &&& ct.take((n * SEALED_CHUNK) as int) == chunks(fk, prefix, data, n)
                },
                Some(e) => {
                    &&& e is Corrupt
                    &&& exists|m: int| 0 <= m <= k && o.out == #[trigger] data.take(m * CHUNK)
                },
            }
        }),
    decreases n,
{
    let k = last_index(data.len(), CHUNK as nat);
    if n == 0 {
        assert(data.take(0) =~= Seq::empty());
        assert(ct.take(0) =~= Seq::empty());
    } else {
        let m = (n - 1) as nat;
        lemma_only_sealed_first(fk, prefix, data, q, ct, m);
        let before = opening_first(fk, q, ct, m);
        if before.fault is None {
            let c = piece(ct, SEALED_CHUNK as int, m as int);
            match unchunk(fk, q, m as int, false, c) {
                None => {
                    assert(before.out == data.take(m as int * CHUNK));
                },
                Some(msg) => {
                    lemma_accepted_in_place(fk, prefix, data, q, m as int, false, c);
                    let mine = piece(data, CHUNK as int, m as int);
                    assert(sound(fk, prefix, m as int, false, mine));
                    assert(n <= k);
                    assert(n * CHUNK <= k * CHUNK) by (nonlinear_arith)
                        requires
                            n <= k,
                    ;
                    assert(data.take(n * CHUNK) =~= data.take(m * CHUNK) + mine);
                    assert(ct.take((n * SEALED_CHUNK) as int) =~= ct.take(
                        (m * SEALED_CHUNK) as int,
                    ) + c);
                },
            }
        }
    }
}

/// A body that was damaged, cut, lengthened or reordered does not open: where the cipher accepts
/// nothing but the chunks that sealing `data` made, every body but the one that was sealed ends in
/// a fault. What was given out before the fault is the data of whole chunks from the start. The
/// fault is that of a rejected chunk, unless the body ends within a prefix or a tag; so it is for
/// every body of the same length, such as one with two chunks swapped, and for one that is cut
/// between two chunks.
pub proof fn law_only_the_sealed_opens(
    fk: Seq<u8>,
    prefix: Seq<u8>,
    data: Seq<u8>,
    body: Seq<u8>,
)
    requires
        prefix.len() == PREFIX,
        sealing_sound(fk, prefix, data),
        accepts_only(fk, prefix, data),
        body != prefix + sealed(fk, prefix, data),
    ensures
        ({
            let o = body_opening(fk, body);
            let k = last_index(data.len(), CHUNK as nat);
            let ct = body.len() - PREFIX;
            &&& o.fault matches Some(e) && (e is Corrupt || e is Truncated)
            &&& exists|m: int| 0 <= m <= k && o.out == #[trigger] data.take(m * CHUNK)
            &&& o.fault == Some(ErrorView::Truncated) ==> ct < 0 || ct - last_index(
                ct as nat,
                SEALED_CHUNK as nat,
            ) * SEALED_CHUNK < TAG
            &&& body.len() == (prefix + sealed(fk, prefix, data)).len() ==> o.fault is Some
                && o.fault->0 is Corrupt
            &&& forall|j: int|
                1 <= j <= k && body == #[trigger] (prefix + sealed(fk, prefix, data)).take(
                    PREFIX + j * SEALED_CHUNK,
                ) ==> o.fault is Some && o.fault->0 is Corrupt
        }),
{
    let k = last_index(data.len(), CHUNK as nat);
    let all = sealed(fk, prefix, data);
    let whole = prefix + all;
    law_sealed_body_opens(fk, prefix, data);
    if body.len() < PREFIX {
        reveal(body_opening);
        assert(data.take(0 * CHUNK) =~= Seq::empty());
        assert(whole.len() >= PREFIX);
        assert forall|j: int|
            1 <= j <= k && body == #[trigger] whole.take(PREFIX + j * SEALED_CHUNK) implies false by {
            lemma_cut_fits(data.len(), j);
        }
    } else {
        let q = body.take(PREFIX as int);
        let ct = body.skip(PREFIX as int);
        assert(body_opening(fk, body) == opening(fk, q, ct)) by {
            reveal(body_opening);
        }
        assert(q + ct =~= body);
        lemma_only_sealed_opening(fk, prefix, data, q, ct);
        lemma_sealed_end(data.len());
        assert forall|j: int|
            1 <= j <= k && body == #[trigger] whole.take(
                PREFIX + j * SEALED_CHUNK,
            ) implies ends_whole(ct.len()) by {
            lemma_cut_fits(data.len(), j);
            assert(ct.len() == j * SEALED_CHUNK);
            lemma_full_end(j);
        }
    }
}

/// Whether the last chunk of `len` bytes of chunks has room for a tag.
spec fn ends_whole(len: nat) -> bool {
    len - last_index(len, SEALED_CHUNK as nat) * SEALED_CHUNK >= TAG
}

/// The last chunk of sealed data holds a tag.
proof fn lemma_sealed_end(len: nat)
    ensures
        ends_whole((len + (last_index(len, CHUNK as nat) + 1) * TAG) as nat),
{
}

/// A row of full chunks ends with a full one.
proof fn lemma_full_end(j: int)
    requires
        1 <= j,
    ensures
        ends_whole((j * SEALED_CHUNK) as nat),
{
}

/// A cut between two chunks lies within the sealed data.
proof fn lemma_cut_fits(len: nat, j: int)
    requires
        1 <= j <= last_index(len, CHUNK as nat),
    ensures
        0 <= j * SEALED_CHUNK <= len + (last_index(len, CHUNK as nat) + 1) * TAG,
{
}

/// What opening the chunks of a body comes to, where only the sealed ones are accepted.
proof fn lemma_only_sealed_opening(
    fk: Seq<u8>,
    prefix: Seq<u8>,
    data: Seq<u8>,
    q: Seq<u8>,
    ct: Seq<u8>,
)
    requires
        prefix.len() == PREFIX,
        q.len() == PREFIX,
        sealing_sound(fk, prefix, data),
        accepts_only(fk, prefix, data),
        q != prefix || ct != sealed(fk, prefix, data),
    ensures
        ({
            let o = opening(fk, q, ct);
            let k = last_index(data.len(), CHUNK as nat);
            &&& exists|m: int| 0 <= m <= k && o.out == #[trigger] data.take(m * CHUNK)
            &&& match o.fault {
                None => false,
                Some(e) => e is Corrupt || e is Truncated && ct.len() - last_index(
                    ct.len(),
                    SEALED_CHUNK as nat,
                ) * SEALED_CHUNK < TAG,
            }
        }),
{
    reveal(sealed);
    let k = last_index(data.len(), CHUNK as nat);
    let n = last_index(ct.len(), SEALED_CHUNK as nat);
    let tail = ct.skip(n * SEALED_CHUNK);
    if n <= max_chunks() {
        lemma_only_sealed_first(fk, prefix, data, q, ct, n);
    } else {
        let all = max_chunks() as nat;
        assert(all * SEALED_CHUNK <= n * SEALED_CHUNK) by (nonlinear_arith)
            requires
                all <= n,
        ;
        lemma_only_sealed_first(fk, prefix, data, q, ct, all);
        lemma_opening_fault(fk, q, ct, all, n);
    }
    let before = opening_first(fk, q, ct, n);
    if before.fault is None {
        assert(before.out == data.take(n as int * CHUNK));
        if tail.len() >= TAG && unchunk(fk, q, n as int, true, tail) is Some {
            lemma_accepted_in_place(fk, prefix, data, q, n as int, true, tail);
            assert(ct =~= ct.take((n * SEALED_CHUNK) as int) + tail);
            assert(ct == sealed(fk, prefix, data));
        }
    }
}

fn open_chunk(fk: &Key, prefix: &[u8; 19], i: u32, last: bool, ct: &[u8]) -> (r: Option<Secret>)
    ensures
        match r {
            Some(m) => {
                &&& unchunk(fk@, prefix@, i as int, last, ct@) == Some(m@)
                &&& ct@ == chunk(fk@, prefix@, i as int, last, m@)
                &&& ct@.len() == m@.len() + TAG
            },
            None => unchunk(fk@, prefix@, i as int, last, ct@) is None,
        },
{
    let start: [u8; 8] = slot::magic_array();
    match crypto::decrypt(fk.as_slice(), &chunk_nonce(prefix, i, last), ct, start.as_slice()) {
        Some(m) => Some(Secret::new(m)),
        None => None,
    }
}

/// Decrypts a body chunk by chunk.
pub struct Opener {
    pub fk: Key,
    /// The start of every nonce, once it has been read.
    pub prefix: Option<[u8; 19]>,
    /// The bytes of the chunk at hand and one more, which tells whether it is the last.
    pub filler: Filler,
    pub index: u32,
    pub total: u64,
    pub phase: Phase,
    /// All bytes taken in so far.
    pub taken: Ghost<Seq<u8>>,
    /// All bytes handed out for writing so far.
    pub sent: Ghost<Seq<u8>>,
}

impl Opener {
    /// The data of the chunks before the one at hand was sent; the buffer holds what was taken in
    /// behind them.
    pub closed spec fn wf(self) -> bool {
        match self.prefix {
            None => {
                &&& self.phase == Phase::Reading
                &&& self.filler.want == PREFIX
                &&& self.filler.open()
                &&& self.filler.buf@ == self.taken@
                &&& self.sent@ == Seq::<u8>::empty()
                &&& self.index == 0
                &&& self.total == 0
            },
            Some(prefix) => {
                let ct = self.taken@.skip(PREFIX as int);
                let done = self.index * SEALED_CHUNK;
                &&& self.taken@.len() >= PREFIX
                &&& prefix@ == self.taken@.take(PREFIX as int)
                &&& self.filler.want == SEALED_CHUNK + 1
                &&& done <= ct.len()
                &&& self.total == self.sent@.len()
                &&& match self.phase {
                    Phase::Reading => {
                        &&& opening_first(self.fk@, prefix@, ct, self.index as nat) == (Opening {
                            out: self.sent@,
                            fault: None,
                        })
                        &&& ct.take(done) == chunks(
                            self.fk@,
                            prefix@,
                            self.sent@,
                            self.index as nat,
                        )
                        &&& self.sent@.len() == self.index * CHUNK
                        &&& self.filler.buf@ == ct.skip(done)
                        &&& self.filler.open()
                        &&& self.index > 0 ==> self.filler.buf@.len() > 0
                    },
                    Phase::Writing => {
                        &&& opening_first(self.fk@, prefix@, ct, self.index as nat + 1) == (
                        Opening {
                            out: self.sent@,
                            fault: if self.index == u32::MAX {
                                Some(too_many())
                            } else {
                                None
                            },
                        })
                        &&& ct.take(done + SEALED_CHUNK) == chunks(
                            self.fk@,
                            prefix@,
                            self.sent@,
                            self.index as nat + 1,
                        )
                        &&& self.sent@.len() == (self.index + 1) * CHUNK
                        &&& ct.len() == done + SEALED_CHUNK + 1
                        &&& self.filler.buf@ == ct.skip(done + SEALED_CHUNK)
                    },
                    _ => {
                        &&& self.index == last_index(ct.len(), SEALED_CHUNK as nat)
                        &&& body_opening(self.fk@, self.taken@) == (Opening {
                            out: self.sent@,
                            fault: None,
                        })
                        &&& is_sealing(self.fk@, self.taken@, self.sent@)
                    },
                }
            },
        }
    }

    /// Whether `ev` can come now.
    pub open spec fn takes(self, ev: Io) -> bool {
        &&& self.phase.awaits(ev)
        &&& ev matches Io::Read(r) ==> self.filler.takes(r)
    }

    /// An opener that has seen nothing yet, and how many bytes it wants.
    pub fn begin(fk: Key) -> (r: (Opener, usize))
        ensures
            r.0.wf(),
            r.0.phase == Phase::Reading,
            r.0.fk == fk,
            r.0.taken@ == Seq::<u8>::empty(),
            r.0.sent@ == Seq::<u8>::empty(),
            0 < r.1 == r.0.filler.want - r.0.filler.buf@.len(),
    {
        let o: Opener = Opener {
            fk,
            prefix: None,
            filler: Filler::new(PREFIX),
            index: 0,
            total: 0,
            phase: Phase::Reading,
            taken: Ghost(Seq::empty()),
            sent: Ghost(Seq::empty()),
        };
        (o, PREFIX)
    }

    /// Takes in what came of the last action, and says what to do next. No data is handed out
    /// before the chunk that holds it was accepted.
    pub fn step(&mut self, ev: Io) -> (a: Action)
        requires
            old(self).wf(),
            old(self).takes(ev),
        ensures
            final(self).fk == old(self).fk,
            final(self).taken@ == old(self).taken@ + ev.data(),
            a is Fail || final(self).wf(),
            a is Write || final(self).sent@ == old(self).sent@,
            match a {
                Action::Read(n) => {
                    &&& old(self).phase == Phase::Reading || old(self).phase == Phase::Writing
                    &&& final(self).phase == Phase::Reading
                    &&& 0 < n == final(self).filler.want - final(self).filler.buf@.len()
                    &&& !ev.is_end()
                },
                Action::Write(pt) => {
                    &&& old(self).phase == Phase::Reading
                    &&& final(self).phase == if ev.is_end() {
                        Phase::WritingLast
                    } else {
                        Phase::Writing
                    }
                    &&& final(self).sent@ == old(self).sent@ + pt@
                },
                Action::Flush => {
                    &&& old(self).phase == Phase::WritingLast
                    &&& final(self).phase == Phase::Flushing
                },
                Action::Done(n) => {
                    let body = final(self).taken@;
                    let data = final(self).sent@;
                    &&& old(self).phase == Phase::Flushing
                    &&& final(self).phase == Phase::Over
                    &&& n == data.len()
                    &&& body_opening(final(self).fk@, body) == (Opening { out: data, fault: None })
                    &&& is_sealing(final(self).fk@, body, data)
                },
                Action::Fail(e) => match ev.failure() {
                    Some(f) => e@ == f,
                    None => if ev.is_end() {
                        body_opening(final(self).fk@, final(self).taken@) == (Opening {
                            out: final(self).sent@,
                            fault: Some(e@),
                        })
                    } else {
                        forall|more: Seq<u8>|
                            body_opening(
                                final(self).fk@,
                                #[trigger] (final(self).taken@ + more),
                            ) == (Opening { out: final(self).sent@, fault: Some(e@) })
                    },
                },
            },
            ev.failure() is Some ==> a is Fail,
    {
        match ev {
            Io::Read(r) => match self.prefix {
                None => self.feed_prefix(r),
                Some(p) => self.feed_chunk(p, r),
            },
            Io::WriteFailed(w) => {
                assert(self.taken@ =~= old(self).taken@ + ev.data());
                Action::Fail(Error::Io(w))
            },
            Io::Wrote => {
                assert(self.taken@ =~= old(self).taken@ + ev.data());
                match self.phase {
                    Phase::Writing => {
                        if self.index == u32::MAX {
                            proof {
                                assert forall|more: Seq<u8>|
                                    body_opening(self.fk@, #[trigger] (self.taken@ + more)) == (
                                    Opening { out: self.sent@, fault: Some(too_many()) }) by {
                                    lemma_fault_settles(
                                        self.fk@,
                                        self.taken@,
                                        more,
                                        self.index as nat + 1,
                                    );
                                }
                            }
                            return Action::Fail(Error::Corrupt(text::owned("too many chunks")));
                        }
                        self.index = self.index + 1;
                        self.phase = Phase::Reading;
                        Action::Read(self.filler.missing())
                    },
                    Phase::WritingLast => {
                        self.phase = Phase::Flushing;
                        Action::Flush
                    },
                    _ => {
                        self.phase = Phase::Over;
                        Action::Done(self.total)
                    },
                }
            },
        }
    }

    fn feed_prefix(&mut self, ev: ReadEvent) -> (a: Action)
        requires
            old(self).wf(),
            old(self).prefix is None,
            old(self).filler.takes(ev),
        ensures
            final(self).fk == old(self).fk,
            final(self).taken@ == old(self).taken@ + ev.data(),
            a is Fail || final(self).wf(),
            a is Write || final(self).sent@ == old(self).sent@,
            ev is Failed ==> a is Fail,
            match a {
                Action::Read(n) => {
                    &&& final(self).phase == Phase::Reading
                    &&& 0 < n == final(self).filler.want - final(self).filler.buf@.len()
                    &&& !ev.is_end()
                },
                Action::Write(pt) => {
                    &&& final(self).phase == if ev.is_end() {
                        Phase::WritingLast
                    } else {
                        Phase::Writing
                    }
                    &&& final(self).sent@ == old(self).sent@ + pt@
                },
                Action::Fail(e) => match ev {
                    ReadEvent::Failed(w) => e@ == ErrorView::Io(w@),
                    _ => if ev.is_end() {
                        body_opening(final(self).fk@, final(self).taken@) == (Opening {
                            out: final(self).sent@,
                            fault: Some(e@),
                        })
                    } else {
                        forall|more: Seq<u8>|
                            body_opening(
                                final(self).fk@,
                                #[trigger] (final(self).taken@ + more),
                            ) == (Opening { out: final(self).sent@, fault: Some(e@) })
                    },
                },
                _ => false,
            },
    {
        let ghost before = self.taken@;
        let fill: Fill = self.filler.feed(ev);
        self.taken = Ghost(before + ev.data());
        match fill {
            Fill::Failed(e) => Action::Fail(e),
            Fill::More => Action::Read(self.filler.missing()),
            Fill::End => {
                if self.filler.buf.len() != PREFIX {
                    reveal(body_opening);
                    return Action::Fail(Error::Truncated);
                }
                let p: [u8; 19] = bytes::field::<19>(self.filler.buf.as_slice(), 0);
                self.prefix = Some(p);
                self.filler = Filler::new(SEALED_CHUNK + 1);
                proof {
                    let ct = self.taken@.skip(PREFIX as int);
                    assert(ct =~= Seq::empty());
                    assert(ct.skip(0) =~= ct);
                    assert(ct.take(0) =~= ct);
                    assert(p@ =~= self.taken@.take(PREFIX as int));
                }
                Action::Read(SEALED_CHUNK + 1)
            },
        }
    }

    fn feed_chunk(&mut self, prefix: [u8; 19], ev: ReadEvent) -> (a: Action)
        requires
            old(self).wf(),
            old(self).phase == Phase::Reading,
            old(self).prefix == Some(prefix),
            old(self).filler.takes(ev),
        ensures
            final(self).fk == old(self).fk,
            final(self).taken@ == old(self).taken@ + ev.data(),
            a is Fail || final(self).wf(),
            a is Write || final(self).sent@ == old(self).sent@,
            ev is Failed ==> a is Fail,
            match a {
                Action::Read(n) => {
                    &&& final(self).phase == Phase::Reading
                    &&& 0 < n == final(self).filler.want - final(self).filler.buf@.len()
                    &&& !ev.is_end()
                },
                Action::Write(pt) => {
                    &&& final(self).phase == if ev.is_end() {
                        Phase::WritingLast
                    } else {
                        Phase::Writing
                    }
                    &&& final(self).sent@ == old(self).sent@ + pt@
                },
                Action::Fail(e) => match ev {
                    ReadEvent::Failed(w) => e@ == ErrorView::Io(w@),
                    _ => if ev.is_end() {
                        body_opening(final(self).fk@, final(self).taken@) == (Opening {
                            out: final(self).sent@,
                            fault: Some(e@),
                        })
                    } else {
                        forall|more: Seq<u8>|
                            body_opening(
                                final(self).fk@,
                                #[trigger] (final(self).taken@ + more),
                            ) == (Opening { out: final(self).sent@, fault: Some(e@) })
                    },
                },
                _ => false,
            },
    {
        let ghost before = self.taken@;
        let ghost new = ev.data();
        let fill: Fill = self.filler.feed(ev);
        self.taken = Ghost(before + new);
        let ghost ct0 = before.skip(PREFIX as int);
        let ghost ct = self.taken@.skip(PREFIX as int);
        let ghost done = self.index * SEALED_CHUNK;
        proof {
            assert(ct =~= ct0 + new);
            assert(prefix@ =~= self.taken@.take(PREFIX as int));
            lemma_opening_prefix(self.fk@, prefix@, ct0, new, self.index as nat);
            assert(ct.skip(done) =~= self.filler.buf@);
            assert(ct.take(done) =~= ct0.take(done));
        }
        match fill {
            Fill::Failed(e) => Action::Fail(e),
            Fill::More => Action::Read(self.filler.missing()),
            Fill::End => {
                let n: usize = self.filler.buf.len();
                let last: bool = n <= SEALED_CHUNK;
                let m: usize = if last { n } else { SEALED_CHUNK };
                let sealed_chunk: &[u8] = slice_subrange(self.filler.buf.as_slice(), 0, m);
                assert(last ==> sealed_chunk@ =~= ct.skip(done));
                assert(!last ==> sealed_chunk@ =~= piece(
                    ct,
                    SEALED_CHUNK as int,
                    self.index as int,
                ));
                assert(last ==> self.index == last_index(ct.len(), SEALED_CHUNK as nat));
                if m < TAG {
                    reveal(body_opening);
                    return Action::Fail(Error::Truncated);
                }
                match open_chunk(&self.fk, &prefix, self.index, last, sealed_chunk) {
                    None => {
                        let mut why: String = text::glue(
                            "chunk ",
                            text::decimal(self.index as u64).as_str(),
                        );
                        why.append(" rejected (damaged, reordered or truncated)");
                        proof {
                            let out = Opening {
                                out: self.sent@,
                                fault: Some(rejected(self.index as int)),
                            };
                            if last {
                                reveal(body_opening);
                            } else {
                                assert forall|more: Seq<u8>|
                                    body_opening(self.fk@, #[trigger] (self.taken@ + more))
                                        == out by {
                                    lemma_fault_settles(
                                        self.fk@,
                                        self.taken@,
                                        more,
                                        self.index as nat + 1,
                                    );
                                }
                            }
                        }
                        Action::Fail(Error::Corrupt(why))
                    },
                    Some(pt) => {
                        let ghost sent0 = self.sent@;
                        self.total = self.total + pt.len() as u64;
                        self.sent = Ghost(sent0 + pt@);
                        proof {
                            lemma_chunks_prefix(
                                self.fk@,
                                prefix@,
                                sent0,
                                pt@,
                                self.index as nat,
                            );
                        }
                        if last {
                            self.phase = Phase::WritingLast;
                            proof {
                                reveal(body_opening);
                                reveal(is_sealing);
                                assert(self.sent@.skip(self.index * CHUNK) =~= pt@);
                                assert(ct =~= ct.take(done) + ct.skip(done));
                            }
                        } else {
                            let mut rest: Filler = Filler::new(SEALED_CHUNK + 1);
                            rest.buf.extend(slice_subrange(self.filler.buf.as_slice(), m, n));
                            assert(rest.buf@ =~= ct.skip(done + SEALED_CHUNK));
                            self.filler = rest;
                            self.phase = Phase::Writing;
                            proof {
                                assert(piece(self.sent@, CHUNK as int, self.index as int) =~= pt@);
                                assert(ct.take(done + SEALED_CHUNK) =~= ct.take(done)
                                    + sealed_chunk@);
                            }
                        }
                        Action::Write(pt)
                    },
                }
            },
        }
    }
}

/// The layout of the chunks behind the prefix: chunk `i` holds the MiB of the data from `i` MiB on,
/// the last one what is left. It is sealed under the file key, authenticated by `UNISEAL1`, with a
/// nonce made of the prefix, the number of the chunk with its high byte first, and whether it is the
/// last.
pub proof fn law_body_layout(fk: Seq<u8>, prefix: Seq<u8>, data: Seq<u8>, i: int)
    requires
        prefix.len() == 19,
        sealing_sound(fk, prefix, data),
        0 <= i < 0x100000000,
        i * 0x100000 < data.len() || i == 0 && data.len() == 0,
    ensures
        ({
            let ct = sealed(fk, prefix, data);
            let last = data.len() <= (i + 1) * 0x100000;
            let nonce = prefix + seq![
                (i / 0x1000000) as u8,
                (i / 0x10000 % 0x100) as u8,
                (i / 0x100 % 0x100) as u8,
                (i % 0x100) as u8,
                if last { 1u8 } else { 0u8 },
            ];
            let aad = "UNISEAL1".spec_bytes();
            if last {
                &&& i * 0x100010 <= ct.len()
                &&& ct.skip(i * 0x100010) == crypto::aead_seal(
                    fk,
                    nonce,
                    data.skip(i * 0x100000),
                    aad,
                )
                &&& ct.len() == data.len() + 16 * (i + 1)
            } else {
                &&& (i + 1) * 0x100010 <= ct.len()
                &&& ct.subrange(i * 0x100010, (i + 1) * 0x100010) == crypto::aead_seal(
                    fk,
                    nonce,
                    data.subrange(i * 0x100000, (i + 1) * 0x100000),
                    aad,
                )
            }
        }),
{
    let last = data.len() <= (i + 1) * 0x100000;
    let k = last_index(data.len(), CHUNK as nat);
    let ct = sealed(fk, prefix, data);
    let tail = chunk(fk, prefix, k as int, true, data.skip(k * CHUNK));
    let row = chunks(fk, prefix, data, k);
    assert(ct == row + tail) by {
        reveal(sealed);
    }
    slot::lemma_magic_spelled();
    lemma_last_place(data.len(), i);
    lemma_chunk_places(fk, prefix, data, k, k);
    lemma_nonce_spelled(prefix, i, last);
    if last {
        assert(i == k);
        assert(ct.skip(i * 0x100010) =~= tail);
        assert(sound(fk, prefix, k as int, true, data.skip(k * CHUNK)));
    } else {
        assert(row.subrange(i * SEALED_CHUNK, (i + 1) * SEALED_CHUNK) == chunk(
            fk,
            prefix,
            i,
            false,
            piece(data, CHUNK as int, i),
        ));
        assert(ct.subrange(i * 0x100010, (i + 1) * 0x100010) =~= row.subrange(
            i * SEALED_CHUNK,
            (i + 1) * SEALED_CHUNK,
        ));
    }
}

proof fn lemma_nonce_spelled(prefix: Seq<u8>, i: int, last: bool)
    requires
        0 <= i < 0x100000000,
    ensures
        nonce_of(prefix, i, last) == prefix + seq![
            (i / 0x1000000) as u8,
            (i / 0x10000 % 0x100) as u8,
            (i / 0x100 % 0x100) as u8,
            (i % 0x100) as u8,
            if last { 1u8 } else { 0u8 },
        ],
{
    assert(nonce_of(prefix, i, last) =~= prefix + seq![
        (i / 0x1000000) as u8,
        (i / 0x10000 % 0x100) as u8,
        (i / 0x100 % 0x100) as u8,
        (i % 0x100) as u8,
        if last { 1u8 } else { 0u8 },
    ]);
}

/// Which chunk is the last.
proof fn lemma_last_place(len: nat, i: int)
    requires
        0 <= i,
        i * 0x100000 < len || i == 0 && len == 0,
    ensures
        i <= last_index(len, CHUNK as nat),
        i == last_index(len, CHUNK as nat) <==> len <= (i + 1) * 0x100000,
{
}

/// Where the full chunks stand.
proof fn lemma_chunk_places(fk: Seq<u8>, prefix: Seq<u8>, data: Seq<u8>, n: nat, k: nat)
    requires
        n <= k,
        k * CHUNK <= data.len(),
        all_sound(fk, prefix, data, k as int),
    ensures
        chunks(fk, prefix, data, n).len() == n * SEALED_CHUNK,
        forall|i: int|
            #![trigger piece(data, CHUNK as int, i)]
            0 <= i < n ==> {
                &&& 0 <= i * SEALED_CHUNK <= (i + 1) * SEALED_CHUNK <= n * SEALED_CHUNK
                &&& chunks(fk, prefix, data, n).subrange(
                    i * SEALED_CHUNK,
                    (i + 1) * SEALED_CHUNK,
                ) == chunk(fk, prefix, i, false, piece(data, CHUNK as int, i))
            },
    decreases n,
{
    if n > 0 {
        let m = (n - 1) as nat;
        lemma_chunk_places(fk, prefix, data, m, k);
        let before = chunks(fk, prefix, data, m);
        let msg = piece(data, CHUNK as int, m as int);
        let c = chunk(fk, prefix, m as int, false, msg);
        let all = chunks(fk, prefix, data, n);
        assert(sound(fk, prefix, m as int, false, msg));
        assert((m + 1) * CHUNK <= k * CHUNK) by (nonlinear_arith)
            requires
                m + 1 <= k,
        ;
        assert(msg.len() == CHUNK);
        assert(c.len() == SEALED_CHUNK);
        assert forall|i: int|
            #![trigger piece(data, CHUNK as int, i)]
            0 <= i < n implies {
            &&& 0 <= i * SEALED_CHUNK <= (i + 1) * SEALED_CHUNK <= n * SEALED_CHUNK
            &&& all.subrange(i * SEALED_CHUNK, (i + 1) * SEALED_CHUNK) == chunk(
                fk,
                prefix,
                i,
                false,
                piece(data, CHUNK as int, i),
            )
        } by {
            if i < m {
                assert(before.subrange(i * SEALED_CHUNK, (i + 1) * SEALED_CHUNK) == chunk(
                    fk,
                    prefix,
                    i,
                    false,
                    piece(data, CHUNK as int, i),
                ));
                assert(all.subrange(i * SEALED_CHUNK, (i + 1) * SEALED_CHUNK) =~= before.subrange(
                    i * SEALED_CHUNK,
                    (i + 1) * SEALED_CHUNK,
                ));
            } else {
                assert(all.subrange(i * SEALED_CHUNK, (i + 1) * SEALED_CHUNK) =~= c);
            }
        }
    }
}

/// A body that has no room for a prefix and a tag is truncated, and gives nothing out. One that is
/// longer and has a single chunk gives out what the cipher opens of it, or is damaged.
pub proof fn law_short_bodies(fk: Seq<u8>, body: Seq<u8>)
    ensures
        body.len() < 35 ==> body_opening(fk, body) == (Opening {
            out: Seq::empty(),
            fault: Some(ErrorView::Truncated),
        }),
        35 <= body.len() <= 19 + 0x100010 ==> body_opening(fk, body) == match crypto::aead_open(
            fk,
            body.take(19) + seq![0u8, 0u8, 0u8, 0u8, 1u8],
            body.skip(19),
            "UNISEAL1".spec_bytes(),
        ) {
            Some(data) => Opening { out: data, fault: None },
            None => Opening {
                out: Seq::empty(),
                fault: Some(
                    ErrorView::Corrupt(
                        "chunk "@ + text::decimal_text(0)
                            + " rejected (damaged, reordered or truncated)"@,
                    ),
                ),
            },
        },
{
    reveal(body_opening);
    slot::lemma_magic_spelled();
    if body.len() >= 19 {
        let ct = body.skip(19);
        let prefix = body.take(19);
        assert(ct.skip(0) =~= ct);
        if ct.len() <= 0x100010 {
            assert(last_index(ct.len(), SEALED_CHUNK as nat) == 0);
            assert(nonce_of(prefix, 0, true) =~= prefix + seq![0u8, 0u8, 0u8, 0u8, 1u8]);
            assert forall|m: Seq<u8>| #[trigger] (Seq::<u8>::empty() + m) == m by {
                assert(Seq::<u8>::empty() + m =~= m);
            }
        }
    }
}

} // verus!
