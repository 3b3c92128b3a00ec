//! Making and opening whole vaults.

use crate::bytes;
use crate::vault::body::{self, Action, Io, Opener, Opening, Phase, Sealer, CHUNK, PREFIX};
use crate::vault::crypto::TAG;
use crate::vault::error::{Error, ErrorView};
use crate::vault::header::{self, Header, MAX_SLOTS};
use crate::vault::kind::SlotSpec;
use crate::vault::rng;
use crate::vault::secret::{Key, Secret};
use crate::vault::slot::{self, Slot, SlotView};
use crate::vault::stream::SliceSource;
use vstd::prelude::*;
use vstd::slice::*;
use vstd::string::*;

verus! {

/// Whether every keyslot wraps `fk` by its recipe, and opens to it with what the recipe holds.
pub open spec fn wraps(slots: Seq<SlotView>, specs: Seq<SlotSpec>, fk: Seq<u8>) -> bool {
    &&& slots.len() == specs.len()
    &&& forall|i: int|
        0 <= i < slots.len() ==> {
            let s = #[trigger] slots[i];
            &&& slot::recipe_fault(specs[i]@) is None
            &&& s == SlotView::wrapping(fk, specs[i]@, s.salt, s.nonce)
            &&& s.opens(specs[i]@.material(), specs[i]@.pass) == Ok::<Seq<u8>, ErrorView>(fk)
        }
}

/// Whether making the keyslots of a vault can end in `e`.
pub open spec fn start_fails<R: FnMut(&mut [u8]) -> Result<(), Error>>(
    rng: R,
    specs: Seq<SlotSpec>,
    e: Error,
) -> bool {
    if specs.len() == 0 {
        e@ == ErrorView::BadSpec("at least one keyslot is required"@)
    } else if specs.len() > MAX_SLOTS {
        e == Error::TooManySlots
    } else {
        ||| rng::refused(rng, 32, e)
        ||| exists|k: int|
            0 <= k < specs.len() && slot::wrap_fails(rng, (#[trigger] specs[k])@, e) && forall|
                j: int,
            |
                0 <= j < k ==> slot::recipe_fault((#[trigger] specs[j])@) is None
    }
}

proof fn lemma_wraps_fault(slots: Seq<SlotView>, specs: Seq<SlotSpec>, fk: Seq<u8>, j: int)
    requires
        wraps(slots, specs, fk),
        0 <= j < specs.len(),
    ensures
        slot::recipe_fault(specs[j]@) is None,
{
    let s = slots[j];
    assert(s == SlotView::wrapping(fk, specs[j]@, s.salt, s.nonce));
}

proof fn lemma_wraps_push(
    slots: Seq<SlotView>,
    specs: Seq<SlotSpec>,
    fk: Seq<u8>,
    s: SlotView,
    spec: SlotSpec,
)
    requires
        wraps(slots, specs, fk),
        slot::recipe_fault(spec@) is None,
        s == SlotView::wrapping(fk, spec@, s.salt, s.nonce),
        s.opens(spec@.material(), spec@.pass) == Ok::<Seq<u8>, ErrorView>(fk),
    ensures
        wraps(slots.push(s), specs.push(spec), fk),
{
    let more = slots.push(s);
    assert forall|i: int| 0 <= i < more.len() implies ({
        let t = #[trigger] more[i];
        &&& slot::recipe_fault(specs.push(spec)[i]@) is None
        &&& t == SlotView::wrapping(fk, specs.push(spec)[i]@, t.salt, t.nonce)
        &&& t.opens(specs.push(spec)[i]@.material(), specs.push(spec)[i]@.pass) == Ok::<
            Seq<u8>,
            ErrorView,
        >(fk)
    }) by {
        if i < slots.len() {
            assert(more[i] == slots[i]);
        }
    }
}

/// Whether the salt and the nonce of every keyslot can have been drawn from `rng`.
pub open spec fn slots_drawn<R: FnMut(&mut [u8]) -> Result<(), Error>>(
    rng: R,
    slots: Seq<SlotView>,
) -> bool {
    forall|i: int|
        0 <= i < slots.len() ==> rng::drawn::<16, R>(rng, (#[trigger] slots[i]).salt)
            && rng::drawn::<24, R>(rng, slots[i].nonce)
}

/// A fresh file key, and the keyslots that wrap it. For a wrong number of recipes `rng` need not be
/// callable, and is not called.
///
/// That `rng` is unchanged is said of it as a value, as for `rng::draw`.
pub fn new_vault<R: FnMut(&mut [u8]) -> Result<(), Error>>(specs: &[SlotSpec], rng: &mut R) -> (r:
    Result<(Header, Key), Error>)
    requires
        1 <= specs@.len() <= MAX_SLOTS ==> rng::callable(*old(rng)),
    ensures
        *final(rng) == *old(rng),
        match r {
            Ok((h, fk)) => {
                &&& 1 <= specs@.len() <= MAX_SLOTS
                &&& wraps(h@, specs@, fk@)
            },
            Err(e) => start_fails(*old(rng), specs@, e),
        },
        r matches Ok((h, fk)) ==> rng::drawn::<32, R>(*old(rng), fk@) && slots_drawn(
            *old(rng),
            h@,
        ),
{
    if specs.len() == 0 {
        return Err(Error::BadSpec("at least one keyslot is required"));
    }
    if specs.len() > MAX_SLOTS {
        return Err(Error::TooManySlots);
    }
    let fk: Key = match rng::take::<32, R>(rng) {
        Ok(b) => Key::holding(b),
        Err(e) => return Err(e),
    };
    let mut h: Header = Header { slots: Vec::new() };
    let mut i: usize = 0;
    while i < specs.len()
        invariant
            rng::callable(*rng),
            *rng == *old(rng),
            i <= specs@.len() <= MAX_SLOTS,
            1 <= specs@.len(),
            h@.len() == i,
            wraps(h@, specs@.take(i as int), fk@),
            rng::drawn::<32, R>(*old(rng), fk@),
            slots_drawn(*old(rng), h@),
        decreases specs@.len() - i,
    {
        let ghost before = h@;
        match Slot::wrap(&fk, &specs[i], rng) {
            Ok(s) => {
                h.slots.push(s);
                assert(h@ =~= before.push(s@));
                proof {
                    lemma_wraps_push(before, specs@.take(i as int), fk@, s@, specs@[i as int]);
                }
                assert(specs@.take(i + 1) =~= specs@.take(i as int).push(specs@[i as int]));
            },
            Err(e) => {
                assert forall|j: int| 0 <= j < i implies slot::recipe_fault(
                    (#[trigger] specs@[j])@,
                ) is None by {
                    lemma_wraps_fault(before, specs@.take(i as int), fk@, j);
                }
                return Err(e);
            },
        }
        i = i + 1;
    }
    assert(specs@.take(i as int) =~= specs@);
    Ok((h, fk))
}

/// Whether `vault` is a vault of `data` under the file key `fk`: keyslots made by the recipes, and
/// behind them a body that opens to the data.
#[verifier::opaque]
pub open spec fn is_vault(
    vault: Seq<u8>,
    slots: Seq<SlotView>,
    specs: Seq<SlotSpec>,
    fk: Seq<u8>,
    prefix: Seq<u8>,
    data: Seq<u8>,
) -> bool {
    let n = header::header_len(slots.len() as int);
    let tags = body::last_index(data.len(), CHUNK as nat) + 1;
    &&& wraps(slots, specs, fk)
    &&& prefix.len() == PREFIX
    &&& body::sealing_sound(fk, prefix, data)
    &&& vault == header::header_bytes(slots) + prefix + body::sealed(fk, prefix, data)
    &&& vault.len() == n + PREFIX + data.len() + tags * TAG
    &&& header::parsed(vault) == Ok::<(Seq<SlotView>, int), ErrorView>((slots, n))
    &&& body::body_opening(fk, vault.skip(n)) == (Opening { out: data, fault: None })
}

/// Whether there is a right number of recipes and none of them lacks anything.
pub open spec fn in_order(specs: Seq<SlotSpec>) -> bool {
    &&& 1 <= specs.len() <= MAX_SLOTS
    &&& forall|i: int|
        0 <= i < specs.len() ==> slot::recipe_fault((#[trigger] specs[i])@) is None
}

proof fn lemma_wraps_in_order(slots: Seq<SlotView>, specs: Seq<SlotSpec>, fk: Seq<u8>)
    requires
        1 <= specs.len() <= MAX_SLOTS,
        wraps(slots, specs, fk),
    ensures
        in_order(specs),
{
    assert forall|i: int| 0 <= i < specs.len() implies slot::recipe_fault(
        (#[trigger] specs[i])@,
    ) is None by {
        lemma_wraps_fault(slots, specs, fk, i);
    }
}

/// Whether nothing but a header with the keyslots of these recipes was written behind `before`.
#[verifier::opaque]
pub open spec fn only_header(before: Seq<u8>, after: Seq<u8>, specs: Seq<SlotSpec>) -> bool {
    exists|slots: Seq<SlotView>, fk: Seq<u8>| #[trigger]
        wraps(slots, specs, fk) && after == before + header::header_bytes(slots)
}

/// How far a phase is from the end, where no more data comes.
spec fn steps_left(phase: Phase) -> int {
    match phase {
        Phase::Writing => 4,
        Phase::Reading => 3,
        Phase::WritingLast => 2,
        Phase::Flushing => 1,
        Phase::Over => 0,
    }
}

/// Whether an action is what its phase calls for.
spec fn fits_phase(action: Action, phase: Phase) -> bool {
    match action {
        Action::Read(_) => phase == Phase::Reading,
        Action::Write(_) => phase == Phase::Writing || phase == Phase::WritingLast,
        Action::Flush => phase == Phase::Flushing,
        Action::Done(_) => phase == Phase::Over,
        Action::Fail(_) => true,
    }
}

/// What is still to be written.
spec fn pending(action: Action) -> Seq<u8> {
    match action {
        Action::Write(b) => b@,
        _ => Seq::empty(),
    }
}

/// Encrypts what `src` holds into `dst`, and returns its length.
fn seal_body(src: &mut SliceSource, dst: &mut Vec<u8>, fk: Key, prefix: [u8; 19]) -> (r: Result<
    u64,
    Error,
>)
    requires
        old(src).wf(),
    ensures
        final(src).wf(),
        final(src).data == old(src).data,
        match r {
            Ok(n) => {
                &&& n == old(src).rest().len()
                &&& final(src).rest() == Seq::<u8>::empty()
                &&& final(dst)@ == old(dst)@ + body::sealed(fk@, prefix@, old(src).rest())
                &&& body::sealing_sound(fk@, prefix@, old(src).rest())
                &&& body::body_opening(
                    fk@,
                    prefix@ + body::sealed(fk@, prefix@, old(src).rest()),
                ) == (Opening { out: old(src).rest(), fault: None })
                &&& body::sealed(fk@, prefix@, old(src).rest()).len() == old(src).rest().len() + (
                body::last_index(old(src).rest().len(), CHUNK as nat) + 1) * TAG
            },
            Err(e) => {
                &&& e@ == body::too_many()
                &&& old(src).rest().len() > body::max_chunks() * CHUNK
            },
        },
        old(dst)@.len() <= final(dst)@.len(),
        final(dst)@.take(old(dst)@.len() as int) == old(dst)@,
{
    let ghost data = src.rest();
    let (mut sealer, want): (Sealer, usize) = Sealer::begin(fk, prefix);
    let mut action: Action = Action::Read(want);
    assert(data =~= sealer.taken@ + src.rest());
    assert(dst@ + pending(action) =~= old(dst)@ + sealer.sent@);
    loop
        invariant
            src.wf(),
            src.data == old(src).data,
            data == old(src).rest(),
            data == sealer.taken@ + src.rest(),
            sealer.fk == fk,
            sealer.prefix == prefix,
            dst@ + pending(action) == old(dst)@ + sealer.sent@,
            fits_phase(action, sealer.phase),
            !(action is Fail) ==> sealer.wf(),
            action matches Action::Read(n) ==> 0 < n == sealer.filler.want - sealer.filler.buf@.len(),
            action matches Action::Done(n) ==> {
                &&& n == sealer.taken@.len()
                &&& sealer.sent@ == body::sealed(fk@, prefix@, sealer.taken@)
                &&& body::sealing_sound(fk@, prefix@, sealer.taken@)
                &&& sealer.sent@.len() == n + (body::last_index(n as nat, CHUNK as nat) + 1) * TAG
                &&& body::body_opening(fk@, prefix@ + sealer.sent@) == (Opening {
                    out: sealer.taken@,
                    fault: None,
                })
            },
            action matches Action::Fail(e) ==> e@ == body::too_many() && data.len()
                > body::max_chunks() * CHUNK,
            !(action is Fail) && steps_left(sealer.phase) <= 2 ==> src.rest().len() == 0,
        decreases
                if action is Fail {
                    0
                } else {
                    src.rest().len() + 1
                },
                steps_left(sealer.phase),
    {
        let ghost sent = sealer.sent@;
        let ghost rest = src.rest();
        let ev: Io = match action {
            Action::Read(n) => Io::Read(src.read(n)),
            Action::Write(b) => {
                bytes::append(dst, b.as_slice());
                Io::Wrote
            },
            Action::Flush => Io::Wrote,
            Action::Done(n) => {
                assert(src.rest() =~= Seq::empty());
                assert(data =~= sealer.taken@);
                assert(dst@ =~= old(dst)@ + sealer.sent@);
                assert(dst@.take(old(dst)@.len() as int) =~= old(dst)@);
                return Ok(n);
            },
            Action::Fail(e) => {
                assert(dst@ =~= old(dst)@ + sealer.sent@);
                assert(dst@.take(old(dst)@.len() as int) =~= old(dst)@);
                return Err(e);
            },
        };
        assert(rest =~= ev.data() + src.rest());
        assert(dst@ =~= old(dst)@ + sent);
        action = sealer.step(ev);
        assert(data =~= sealer.taken@ + src.rest());
        assert(dst@ + pending(action) =~= old(dst)@ + sealer.sent@);
    }
}

/// The sizes of the keyslots of a header are those of the format.
proof fn lemma_header_sized(h: Header)
    ensures
        header::all_sized(h@),
{
    assert forall|i: int| 0 <= i < h@.len() implies (#[trigger] h@[i]).sized() by {
        assert(h@[i] == h.slots@[i]@);
    }
}

/// Keyslots and a body that opens make a vault.
proof fn lemma_is_vault(
    slots: Seq<SlotView>,
    specs: Seq<SlotSpec>,
    fk: Seq<u8>,
    prefix: Seq<u8>,
    data: Seq<u8>,
)
    requires
        1 <= slots.len() <= MAX_SLOTS,
        header::all_sized(slots),
        wraps(slots, specs, fk),
        prefix.len() == PREFIX,
        body::sealing_sound(fk, prefix, data),
        body::body_opening(fk, prefix + body::sealed(fk, prefix, data)) == (Opening {
            out: data,
            fault: None,
        }),
        body::sealed(fk, prefix, data).len() == data.len() + (body::last_index(
            data.len(),
            CHUNK as nat,
        ) + 1) * TAG,
    ensures
        is_vault(
            header::header_bytes(slots) + prefix + body::sealed(fk, prefix, data),
            slots,
            specs,
            fk,
            prefix,
            data,
        ),
{
    reveal(is_vault);
    let head = header::header_bytes(slots);
    let ct = body::sealed(fk, prefix, data);
    assert(head + prefix + ct =~= head + (prefix + ct));
    header::law_header_round_trip(slots, prefix + ct);
    header::lemma_slots_len(slots);
    assert(head.len() == header::header_len(slots.len() as int));
}

/// How a vault starts: the header, and behind it the prefix of the body.
pub fn vault_start(h: &Header, prefix: &[u8; 19]) -> (b: Vec<u8>)
    ensures
        b@ == header::header_bytes(h@) + prefix@,
{
    let mut b: Vec<u8> = h.to_bytes();
    bytes::append(&mut b, prefix.as_slice());
    b
}

/// Encrypt what `src` holds under a fresh file key wrapped in `specs`, writing the whole vault to
/// `dst`. Returns the header and the plaintext length.
///
/// That `rng` is unchanged is said of it as a value, as for `rng::draw`.
pub fn seal<R: FnMut(&mut [u8]) -> Result<(), Error>>(
    src: &mut SliceSource,
    dst: &mut Vec<u8>,
    specs: &[SlotSpec],
    rng: &mut R,
) -> (r: Result<(Header, u64), Error>)
    requires
        old(src).wf(),
        1 <= specs@.len() <= MAX_SLOTS ==> rng::callable(*old(rng)),
    ensures
        *final(rng) == *old(rng),
        final(src).wf(),
        final(src).data == old(src).data,
        old(dst)@.len() <= final(dst)@.len(),
        final(dst)@.take(old(dst)@.len() as int) == old(dst)@,
        match r {
            Ok((h, n)) => {
                &&& 1 <= h@.len() <= MAX_SLOTS
                &&& n == old(src).rest().len()
                &&& final(src).rest() == Seq::<u8>::empty()
            },
            Err(e) => {
                ||| start_fails(*old(rng), specs@, e) && final(dst)@ == old(dst)@ && final(src).rest()
                    == old(src).rest()
                ||| rng::refused(*old(rng), PREFIX as nat, e) && final(src).rest() == old(src).rest()
                    && only_header(old(dst)@, final(dst)@, specs@) && in_order(specs@)
                ||| e@ == body::too_many() && old(src).rest().len() > body::max_chunks() * CHUNK
                    && in_order(specs@)
            },
        },
        r matches Ok((h, n)) ==> slots_drawn(*old(rng), h@) && exists|
            fk: Seq<u8>,
            prefix: Seq<u8>,
        |
            rng::drawn::<32, R>(*old(rng), fk) && rng::drawn::<19, R>(*old(rng), prefix)
                && #[trigger] is_vault(
                final(dst)@.skip(old(dst)@.len() as int),
                h@,
                specs@,
                fk,
                prefix,
                old(src).rest(),
            ),
{
    let ghost data = src.rest();
    let ghost start = dst@.len() as int;
    let (h, fk): (Header, Key) = match new_vault(specs, rng) {
        Ok(made) => made,
        Err(e) => {
            assert(dst@.take(start) =~= dst@);
            return Err(e);
        },
    };
    proof {
        lemma_wraps_in_order(h@, specs@, fk@);
    }
    bytes::append(dst, h.to_bytes().as_slice());
    let prefix: [u8; 19] = match rng::take::<19, R>(rng) {
        Ok(b) => {
            assert(b@.subrange(0, 19) =~= b@);
            bytes::field::<19>(b.as_slice(), 0)
        },
        Err(e) => {
            assert(dst@.take(start) =~= old(dst)@);
            assert(only_header(old(dst)@, dst@, specs@)) by {
                reveal(only_header);
                assert(wraps(h@, specs@, fk@));
            }
            return Err(e);
        },
    };
    bytes::append(dst, prefix.as_slice());
    let ghost key = fk@;
    match seal_body(src, dst, fk, prefix) {
        Ok(n) => {
            proof {
                lemma_header_sized(h);
                lemma_is_vault(h@, specs@, key, prefix@, data);
                assert(dst@.take(start) =~= old(dst)@);
                assert(dst@.skip(start) =~= header::header_bytes(h@) + prefix@ + body::sealed(
                    key,
                    prefix@,
                    data,
                ));
                assert(is_vault(dst@.skip(start), h@, specs@, key, prefix@, data));
            }
            Ok((h, n))
        },
        Err(e) => {
            assert(dst@.take(start) =~= old(dst)@);
            Err(e)
        },
    }
}

/// Decrypt the body (everything after the header) with an unwrapped file key, writing the
/// plaintext to `dst`. Returns the plaintext length.
///
/// The data of every chunk before a fault is written out: the chunks that came through were
/// accepted, but the data is not whole.
pub fn open_body(src: &mut SliceSource, dst: &mut Vec<u8>, fk: &Key) -> (r: Result<u64, Error>)
    requires
        old(src).wf(),
    ensures
        final(src).wf(),
        final(src).data == old(src).data,
        old(src).pos <= final(src).pos,
        final(dst)@ == old(dst)@ + body::body_opening(fk@, old(src).rest()).out,
        match r {
            Ok(n) => {
                let data = body::body_opening(fk@, old(src).rest()).out;
                &&& body::body_opening(fk@, old(src).rest()).fault is None
                &&& n == data.len()
                &&& body::is_sealing(fk@, old(src).rest(), data)
                &&& final(src).rest() == Seq::<u8>::empty()
            },
            Err(e) => body::body_opening(fk@, old(src).rest()).fault == Some(e@),
        },
{
    let ghost ct = src.rest();
    let (mut opener, want): (Opener, usize) = Opener::begin(fk.clone());
    let mut action: Action = Action::Read(want);
    assert(ct =~= opener.taken@ + src.rest());
    assert(dst@ + pending(action) =~= old(dst)@ + opener.sent@);
    loop
        invariant
            src.wf(),
            src.data == old(src).data,
            old(src).pos <= src.pos,
            ct == old(src).rest(),
            ct == opener.taken@ + src.rest(),
            opener.fk@ == fk@,
            dst@ + pending(action) == old(dst)@ + opener.sent@,
            fits_phase(action, opener.phase),
            !(action is Fail) ==> opener.wf(),
            action matches Action::Read(n) ==> 0 < n == opener.filler.want
                - opener.filler.buf@.len(),
            action matches Action::Done(n) ==> {
                &&& n == opener.sent@.len()
                &&& body::body_opening(fk@, opener.taken@) == (Opening {
                    out: opener.sent@,
                    fault: None,
                })
                &&& body::is_sealing(fk@, opener.taken@, opener.sent@)
            },
            action matches Action::Fail(e) ==> body::body_opening(fk@, ct) == (Opening {
                out: opener.sent@,
                fault: Some(e@),
            }),
            !(action is Fail) && steps_left(opener.phase) <= 2 ==> src.rest().len() == 0,
        decreases
                if action is Fail {
                    0
                } else {
                    src.rest().len() + 1
                },
                steps_left(opener.phase),
    {
        let ghost sent = opener.sent@;
        let ghost rest = src.rest();
        let ev: Io = match action {
            Action::Read(n) => Io::Read(src.read(n)),
            Action::Write(b) => {
                bytes::append(dst, b.as_slice());
                Io::Wrote
            },
            Action::Flush => Io::Wrote,
            Action::Done(n) => {
                assert(src.rest() =~= Seq::empty());
                assert(ct =~= opener.taken@);
                assert(dst@ =~= old(dst)@ + opener.sent@);
                return Ok(n);
            },
            Action::Fail(e) => {
                assert(dst@ =~= old(dst)@ + opener.sent@);
                return Err(e);
            },
        };
        assert(rest =~= ev.data() + src.rest());
        assert(dst@ =~= old(dst)@ + sent);
        action = opener.step(ev);
        assert(ct =~= opener.taken@ + src.rest());
        assert(dst@ + pending(action) =~= old(dst)@ + opener.sent@);
        assert(src.rest().len() == 0 ==> ct =~= opener.taken@);
    }
}

/// In-memory convenience: whole vault as bytes.
///
/// That `rng` is unchanged is said of it as a value, as for `rng::draw`.
pub fn seal_bytes<R: FnMut(&mut [u8]) -> Result<(), Error>>(
    data: &[u8],
    specs: &[SlotSpec],
    rng: &mut R,
) -> (r: Result<Vec<u8>, Error>)
    requires
        1 <= specs@.len() <= MAX_SLOTS ==> rng::callable(*old(rng)),
    ensures
        *final(rng) == *old(rng),
        r matches Ok(vault) ==> exists|slots: Seq<SlotView>, fk: Seq<u8>, prefix: Seq<u8>|
            1 <= slots.len() <= MAX_SLOTS && slots_drawn(*old(rng), slots) && rng::drawn::<32, R>(
                *old(rng),
                fk,
            ) && rng::drawn::<19, R>(*old(rng), prefix) && #[trigger] is_vault(
                vault@,
                slots,
                specs@,
                fk,
                prefix,
                data@,
            ),
        r matches Err(e) ==> {
            ||| start_fails(*old(rng), specs@, e)
            ||| rng::refused(*old(rng), PREFIX as nat, e) && in_order(specs@)
            ||| e@ == body::too_many() && data@.len() > body::max_chunks() * CHUNK && in_order(specs@)
        },
{
    let mut out: Vec<u8> = Vec::new();
    let mut src: SliceSource = SliceSource::new(data);
    match seal(&mut src, &mut out, specs, rng) {
        Ok((h, _)) => {
            assert(out@.skip(0) =~= out@);
            let ghost (fk, prefix) = choose|fk: Seq<u8>, prefix: Seq<u8>|
                rng::drawn::<32, R>(*old(rng), fk) && rng::drawn::<19, R>(*old(rng), prefix)
                    && #[trigger] is_vault(out@.skip(0), h@, specs@, fk, prefix, data@);
            let vault: Result<Vec<u8>, Error> = Ok(out);
            assert(is_vault(vault->Ok_0@, h@, specs@, fk, prefix, data@));
            vault
        },
        Err(e) => Err(e),
    }
}

/// What a vault holds under the file key `fk`, or why it cannot be opened.
pub open spec fn contents(vault: Seq<u8>, fk: Seq<u8>) -> Result<Seq<u8>, ErrorView> {
    match header::parsed(vault) {
        Err(e) => Err(e),
        Ok((_, n)) => {
            let o = body::body_opening(fk, vault.skip(n));
            match o.fault {
                Some(e) => Err(e),
                None => Ok(o.out),
            }
        },
    }
}

/// What was sealed comes back: a vault of `data` under `fk` holds `data`, every one of its
/// keyslots gives out `fk` for what its recipe held, and replacing the keyslots by others that
/// are in order leaves the data readable under the same key.
pub proof fn law_vault_round_trip(
    vault: Seq<u8>,
    slots: Seq<SlotView>,
    specs: Seq<SlotSpec>,
    fk: Seq<u8>,
    prefix: Seq<u8>,
    data: Seq<u8>,
    others: Seq<SlotView>,
)
    requires
        is_vault(vault, slots, specs, fk, prefix, data),
        1 <= others.len() <= MAX_SLOTS,
        header::all_sized(others),
    ensures
        contents(vault, fk) == Ok::<Seq<u8>, ErrorView>(data),
        forall|i: int|
            0 <= i < slots.len() ==> (#[trigger] slots[i]).opens(
                specs[i]@.material(),
                specs[i]@.pass,
            ) == Ok::<Seq<u8>, ErrorView>(fk),
        contents(
            header::header_bytes(others) + vault.skip(header::header_len(slots.len() as int)),
            fk,
        ) == Ok::<Seq<u8>, ErrorView>(data),
{
    reveal(is_vault);
    header::law_rekey_keeps_body(vault, others);
}

/// A vault whose body was damaged, cut, lengthened or reordered is refused: where the cipher accepts
/// under the file key nothing but the chunks that were sealed, a vault with another body holds
/// nothing under that key, whatever its keyslots are.
pub proof fn law_damaged_vault_refused(
    vault: Seq<u8>,
    slots: Seq<SlotView>,
    specs: Seq<SlotSpec>,
    fk: Seq<u8>,
    prefix: Seq<u8>,
    data: Seq<u8>,
    other: Seq<u8>,
)
    requires
        is_vault(vault, slots, specs, fk, prefix, data),
        body::accepts_only(fk, prefix, data),
        header::parsed(other) is Ok,
        other.skip(header::parsed(other)->Ok_0.1) != vault.skip(
            header::header_len(slots.len() as int),
        ),
    ensures
        contents(other, fk) matches Err(e) && (e is Corrupt || e is Truncated),
{
    let m = header::parsed(other)->Ok_0.1;
    lemma_vault_body(vault, slots, specs, fk, prefix, data);
    body::law_only_the_sealed_opens(fk, prefix, data, other.skip(m));
}

/// What follows the header of a vault.
proof fn lemma_vault_body(
    vault: Seq<u8>,
    slots: Seq<SlotView>,
    specs: Seq<SlotSpec>,
    fk: Seq<u8>,
    prefix: Seq<u8>,
    data: Seq<u8>,
)
    requires
        is_vault(vault, slots, specs, fk, prefix, data),
    ensures
        prefix.len() == PREFIX,
        body::sealing_sound(fk, prefix, data),
        vault.skip(header::header_len(slots.len() as int)) == prefix + body::sealed(
            fk,
            prefix,
            data,
        ),
{
    reveal(is_vault);
    let n = header::header_len(slots.len() as int);
    let head = header::header_bytes(slots);
    let ct = body::sealed(fk, prefix, data);
    header::law_header_bytes(vault);
    assert(head.len() == n);
    lemma_behind(head, prefix, ct);
}

proof fn lemma_behind(a: Seq<u8>, b: Seq<u8>, c: Seq<u8>)
    ensures
        (a + b + c).skip(a.len() as int) == b + c,
{
    assert((a + b + c).skip(a.len() as int) =~= b + c);
}

/// In-memory convenience: plaintext of `blob` given the file key.
pub fn open_bytes(blob: &[u8], fk: &Key) -> (r: Result<Secret, Error>)
    ensures
        match r {
            Ok(data) => contents(blob@, fk@) == Ok::<Seq<u8>, ErrorView>(data@),
            Err(e) => contents(blob@, fk@) == Err::<Seq<u8>, ErrorView>(e@),
        },
{
    let n: usize = match Header::parse(blob) {
        Ok((_, n)) => n,
        Err(e) => return Err(e),
    };
    proof {
        header::law_header_bytes(blob@);
    }
    let rest: &[u8] = slice_subrange(blob, n, blob.len());
    assert(rest@ =~= blob@.skip(n as int));
    let mut out: Vec<u8> = Vec::new();
    let mut src: SliceSource = SliceSource::new(rest);
    match open_body(&mut src, &mut out, fk) {
        Ok(_) => {
            assert(out@ =~= body::body_opening(fk@, rest@).out);
            Ok(Secret::new(out))
        },
        Err(e) => Err(e),
    }
}

/// The layout of a vault: `UNISEAL1`, the number of recipes, for each recipe a keyslot of 112 bytes
/// that wraps the file key by it, the 19 bytes of the prefix, and the chunks.
pub proof fn law_vault_layout(
    vault: Seq<u8>,
    slots: Seq<SlotView>,
    specs: Seq<SlotSpec>,
    fk: Seq<u8>,
    prefix: Seq<u8>,
    data: Seq<u8>,
    i: int,
)
    requires
        is_vault(vault, slots, specs, fk, prefix, data),
        0 <= i < specs.len() <= 8,
    ensures
        slots.len() == specs.len(),
        vault.len() >= 9 + 112 * specs.len() + 19,
        vault.take(8) == "UNISEAL1".spec_bytes(),
        vault[8] == specs.len(),
        vault.subrange(9 + 112 * i, 9 + 112 * (i + 1)) == slots[i].bytes(),
        slots[i] == SlotView::wrapping(fk, specs[i]@, slots[i].salt, slots[i].nonce),
        slots[i].kind == specs[i].kind,
        slot::recipe_fault(specs[i]@) is None,
        slots[i].opens(specs[i]@.material(), specs[i]@.pass) == Ok::<Seq<u8>, ErrorView>(fk),
        vault.subrange(9 + 112 * specs.len() as int, 9 + 112 * specs.len() as int + 19) == prefix,
        vault.skip(9 + 112 * specs.len() as int + 19) == body::sealed(fk, prefix, data),
{
    let head = header::header_bytes(slots);
    let ct = body::sealed(fk, prefix, data);
    lemma_vault_parts(vault, slots, specs, fk, prefix, data, i);
    header::law_header_layout(slots, i);
    lemma_pieces(head, prefix, ct, i);
}

proof fn lemma_vault_parts(
    vault: Seq<u8>,
    slots: Seq<SlotView>,
    specs: Seq<SlotSpec>,
    fk: Seq<u8>,
    prefix: Seq<u8>,
    data: Seq<u8>,
    i: int,
)
    requires
        is_vault(vault, slots, specs, fk, prefix, data),
        0 <= i < specs.len() <= 8,
    ensures
        slots.len() == specs.len(),
        header::all_sized(slots),
        prefix.len() == 19,
        vault == header::header_bytes(slots) + prefix + body::sealed(fk, prefix, data),
        slots[i] == SlotView::wrapping(fk, specs[i]@, slots[i].salt, slots[i].nonce),
        slots[i].kind == specs[i].kind,
        slot::recipe_fault(specs[i]@) is None,
        slots[i].opens(specs[i]@.material(), specs[i]@.pass) == Ok::<Seq<u8>, ErrorView>(fk),
{
    reveal(is_vault);
    assert(slots[i] == SlotView::wrapping(fk, specs[i]@, slots[i].salt, slots[i].nonce));
    header::law_header_bytes(vault);
}

proof fn lemma_pieces(head: Seq<u8>, prefix: Seq<u8>, ct: Seq<u8>, i: int)
    requires
        0 <= i,
        9 + 112 * (i + 1) <= head.len(),
        prefix.len() == 19,
    ensures
        ({
            let all = head + prefix + ct;
            let n = head.len() as int;
            &&& all.len() >= n + 19
            &&& all.take(8) == head.take(8)
            &&& all[8] == head[8]
            &&& all.subrange(9 + 112 * i, 9 + 112 * (i + 1)) == head.subrange(
                9 + 112 * i,
                9 + 112 * (i + 1),
            )
            &&& all.subrange(n, n + 19) == prefix
            &&& all.skip(n + 19) == ct
        }),
{
    let all = head + prefix + ct;
    let n = head.len() as int;
    assert(all.take(8) =~= head.take(8));
    assert(all.subrange(9 + 112 * i, 9 + 112 * (i + 1)) =~= head.subrange(
        9 + 112 * i,
        9 + 112 * (i + 1),
    ));
    assert(all.subrange(n, n + 19) =~= prefix);
    assert(all.skip(n + 19) =~= ct);
}

/// A vault needs one to eight recipes: without any, and with more, that is what is wrong, whatever
/// the source of random bytes does.
pub proof fn law_number_of_recipes<R: FnMut(&mut [u8]) -> Result<(), Error>>(
    rng: R,
    specs: Seq<SlotSpec>,
    e: Error,
)
    requires
        start_fails(rng, specs, e),
    ensures
        specs.len() == 0 ==> e@ == ErrorView::BadSpec("at least one keyslot is required"@),
        specs.len() > 8 ==> e == Error::TooManySlots,
        1 <= specs.len() <= 8 ==> rng::refused(rng, 32, e) || exists|k: int|
            #![trigger specs[k]]
            0 <= k < specs.len() && slot::wrap_fails(rng, specs[k]@, e),
{
}

/// What a vault holds is what its body gives out under the file key, once its header is read; a
/// fault anywhere means that nothing is held.
pub proof fn law_contents(vault: Seq<u8>, fk: Seq<u8>)
    ensures
        header::parsed(vault) matches Err(e) ==> contents(vault, fk) == Err::<Seq<u8>, ErrorView>(
            e,
        ),
        header::parsed(vault) matches Ok((slots, n)) ==> {
            let o = body::body_opening(fk, vault.skip(9 + 112 * slots.len() as int));
            &&& o.fault matches Some(e) ==> contents(vault, fk) == Err::<Seq<u8>, ErrorView>(e)
            &&& o.fault is None ==> contents(vault, fk) == Ok::<Seq<u8>, ErrorView>(o.out)
        },
{
    header::law_header_bytes(vault);
}

/// Every keyslot of a new vault wraps the one file key, each by its own recipe.
pub proof fn law_every_recipe_is_wrapped(
    slots: Seq<SlotView>,
    specs: Seq<SlotSpec>,
    fk: Seq<u8>,
    i: int,
)
    requires
        wraps(slots, specs, fk),
        0 <= i < specs.len(),
    ensures
        slots.len() == specs.len(),
        slot::recipe_fault(specs[i]@) is None,
        slots[i].kind == specs[i].kind,
        slots[i] == SlotView::wrapping(fk, specs[i]@, slots[i].salt, slots[i].nonce),
        slots[i].opens(specs[i]@.material(), specs[i]@.pass) == Ok::<Seq<u8>, ErrorView>(fk),
{
    assert(slots[i] == SlotView::wrapping(fk, specs[i]@, slots[i].salt, slots[i].nonce));
}

/// Where a vault could only be begun, a whole header stands behind what was there before, and no
/// more.
pub proof fn law_only_header(before: Seq<u8>, after: Seq<u8>, specs: Seq<SlotSpec>)
    requires
        only_header(before, after, specs),
    ensures
        exists|slots: Seq<SlotView>|
            slots.len() == specs.len() && after == before + #[trigger] header::header_bytes(slots),
{
    reveal(only_header);
    let (slots, fk) = choose|slots: Seq<SlotView>, fk: Seq<u8>| #[trigger]
        wraps(slots, specs, fk) && after == before + header::header_bytes(slots);
    assert(slots.len() == specs.len() && after == before + header::header_bytes(slots));
}

} // verus!
