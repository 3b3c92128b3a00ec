//! The keyslots of a vault; the body streams separately.

use crate::bytes;
use crate::text;
use crate::vault::error::{Error, ErrorView};
use crate::vault::kind::{SlotSpec, SpecView};
use crate::vault::rng;
use crate::vault::secret::Key;
use crate::vault::slot::{self, Slot, SlotView, SLOT_LEN};
use crate::vault::stream::{Fill, Filler, ReadEvent, SliceSource};
use vstd::prelude::*;
use vstd::slice::*;
use vstd::string::*;

verus! {

/// The most keyslots that a vault can have.
pub const MAX_SLOTS: usize = 8;

/// The keyslots of a vault.
#[derive(Debug, Clone)]
pub struct Header {
    pub slots: Vec<Slot>,
}

impl View for Header {
    type V = Seq<SlotView>;

    open spec fn view(&self) -> Seq<SlotView> {
        Seq::new(self.slots@.len(), |i: int| self.slots@[i]@)
    }
}

/// The keyslots one behind the other.
pub open spec fn slots_bytes(slots: Seq<SlotView>) -> Seq<u8>
    decreases slots.len(),
{
    if slots.len() == 0 {
        Seq::empty()
    } else {
        slots_bytes(slots.drop_last()) + slots.last().bytes()
    }
}

/// The header on disk.
pub open spec fn header_bytes(slots: Seq<SlotView>) -> Seq<u8> {
    slot::magic() + seq![(slots.len() % 256) as u8] + slots_bytes(slots)
}

/// The bytes of keyslot `i`, in a row of keyslots.
pub open spec fn slot_at(b: Seq<u8>, i: int) -> Seq<u8> {
    b.subrange(i * SLOT_LEN, (i + 1) * SLOT_LEN)
}

/// The first `n` keyslots of a row, if every kind is known.
pub open spec fn slots_of(b: Seq<u8>, n: nat) -> Option<Seq<SlotView>>
    decreases n,
{
    if n == 0 {
        Some(Seq::empty())
    } else {
        match (slots_of(b, (n - 1) as nat), SlotView::of_bytes(slot_at(b, n - 1))) {
            (Some(s), Some(v)) => Some(s.push(v)),
            _ => None,
        }
    }
}

/// The bytes of a header with `n` keyslots.
pub open spec fn header_len(n: int) -> int {
    9 + n * SLOT_LEN
}

/// The header at the start of a vault and its length, or why there is none.
pub open spec fn parsed(blob: Seq<u8>) -> Result<(Seq<SlotView>, int), ErrorView> {
    if blob.len() < 8 || blob.take(8) != slot::magic() {
        Err(ErrorView::NotVault)
    } else if blob.len() == 8 {
        Err(ErrorView::Truncated)
    } else if blob[8] == 0 || blob[8] > MAX_SLOTS {
        Err(ErrorView::Corrupt("keyslot count"@))
    } else if blob.len() < header_len(blob[8] as int) {
        Err(ErrorView::Truncated)
    } else {
        match slots_of(blob.skip(9), blob[8] as nat) {
            None => Err(ErrorView::Corrupt("unknown keyslot kind"@)),
            Some(slots) => Ok((slots, header_len(blob[8] as int))),
        }
    }
}

/// How many bytes the start of a vault announces: nine, and behind them the keyslots.
pub open spec fn announced(blob: Seq<u8>) -> int {
    if blob.len() < 9 || blob.take(8) != slot::magic() || blob[8] == 0 || blob[8] > MAX_SLOTS {
        9
    } else {
        header_len(blob[8] as int)
    }
}

/// How many bytes are read off a stream to get at its header.
pub open spec fn read_len(blob: Seq<u8>) -> int {
    if blob.len() < announced(blob) {
        blob.len() as int
    } else {
        announced(blob)
    }
}

/// Every keyslot has the sizes of the format.
pub open spec fn all_sized(slots: Seq<SlotView>) -> bool {
    forall|i: int| 0 <= i < slots.len() ==> (#[trigger] slots[i]).sized()
}

/// The keyslots take 112 bytes each.
pub proof fn lemma_slots_len(slots: Seq<SlotView>)
    requires
        all_sized(slots),
    ensures
        slots_bytes(slots).len() == slots.len() * SLOT_LEN,
    decreases slots.len(),
{
    if slots.len() > 0 {
        lemma_slots_len(slots.drop_last());
        slot::law_slot_round_trip(slots.last());
    }
}

/// A row of keyslots depends on its own bytes alone.
proof fn lemma_slots_of_prefix(a: Seq<u8>, b: Seq<u8>, n: nat)
    requires
        n * SLOT_LEN <= a.len(),
        n * SLOT_LEN <= b.len(),
        a.take((n * SLOT_LEN) as int) == b.take((n * SLOT_LEN) as int),
    ensures
        slots_of(a, n) == slots_of(b, n),
    decreases n,
{
    if n > 0 {
        let m = (n - 1) as nat;
        let k = (n * SLOT_LEN) as int;
        let j = (m * SLOT_LEN) as int;
        assert(a.take(j) =~= a.take(k).take(j));
        assert(b.take(j) =~= b.take(k).take(j));
        lemma_slots_of_prefix(a, b, m);
        assert(slot_at(a, m as int) =~= a.take(k).subrange(j, k));
        assert(slot_at(b, m as int) =~= b.take(k).subrange(j, k));
    }
}

/// Writing a row of keyslots and reading it gives the keyslots back, whatever follows.
proof fn lemma_slots_round_trip(slots: Seq<SlotView>, rest: Seq<u8>)
    requires
        all_sized(slots),
    ensures
        slots_of(slots_bytes(slots) + rest, slots.len()) == Some(slots),
    decreases slots.len(),
{
    if slots.len() > 0 {
        let init = slots.drop_last();
        let tail = slots.last().bytes() + rest;
        lemma_slots_round_trip(init, tail);
        lemma_slots_len(init);
        slot::law_slot_round_trip(slots.last());
        assert(slots_bytes(slots) + rest =~= slots_bytes(init) + tail);
        assert(slot_at(slots_bytes(slots) + rest, init.len() as int) =~= slots.last().bytes());
        assert(init.push(slots.last()) =~= slots);
    } else {
        assert(slots =~= Seq::empty());
    }
}

/// Keyslots that were read from a row are written as that row.
proof fn lemma_slots_bytes(b: Seq<u8>, n: nat)
    requires
        n * SLOT_LEN <= b.len(),
    ensures
        slots_of(b, n) matches Some(slots) ==> {
            &&& slots.len() == n
            &&& all_sized(slots)
            &&& slots_bytes(slots) == b.take((n * SLOT_LEN) as int)
        },
    decreases n,
{
    if n > 0 {
        let m = (n - 1) as nat;
        lemma_slots_bytes(b, m);
        if let Some(slots) = slots_of(b, n) {
            slot::law_slot_bytes(slot_at(b, m as int));
            assert(slots.drop_last() =~= slots_of(b, m)->0);
            assert(slots_bytes(slots) =~= b.take((n * SLOT_LEN) as int));
        }
    } else {
        assert(b.take(0) =~= Seq::<u8>::empty());
    }
}

/// A header that is written and then parsed comes back, with the place where the body starts,
/// whatever body follows.
#[verifier::spinoff_prover]
pub proof fn law_header_round_trip(slots: Seq<SlotView>, body: Seq<u8>)
    requires
        1 <= slots.len() <= MAX_SLOTS,
        all_sized(slots),
    ensures
        parsed(header_bytes(slots) + body) == Ok::<(Seq<SlotView>, int), ErrorView>(
            (slots, header_bytes(slots).len() as int),
        ),
        (header_bytes(slots) + body).skip(header_bytes(slots).len() as int) == body,
{
    let blob = header_bytes(slots) + body;
    lemma_header_layout(slots, body);
    lemma_slots_round_trip(slots, body);
    lemma_parsed(blob, slots);
}

/// Where the parts of a header stand, whatever follows.
proof fn lemma_header_layout(slots: Seq<SlotView>, body: Seq<u8>)
    requires
        1 <= slots.len() <= MAX_SLOTS,
        all_sized(slots),
    ensures
        ({
            let blob = header_bytes(slots) + body;
            let n = header_len(slots.len() as int);
            &&& header_bytes(slots).len() == n
            &&& blob.len() >= n
            &&& blob.take(8) == slot::magic()
            &&& blob[8] == slots.len()
            &&& blob.skip(9) == slots_bytes(slots) + body
            &&& blob.skip(n) == body
        }),
{
    let row = slots_bytes(slots);
    let count = (slots.len() % 256) as u8;
    slot::lemma_magic_len();
    lemma_slots_len(slots);
    lemma_pieces(slot::magic(), count, row, body);
}

/// What makes a byte string start with the header of these keyslots.
proof fn lemma_parsed(blob: Seq<u8>, slots: Seq<SlotView>)
    requires
        1 <= slots.len() <= MAX_SLOTS,
        blob.len() >= header_len(slots.len() as int),
        blob.take(8) == slot::magic(),
        blob[8] == slots.len(),
        slots_of(blob.skip(9), slots.len()) == Some(slots),
    ensures
        parsed(blob) == Ok::<(Seq<SlotView>, int), ErrorView>(
            (slots, header_len(slots.len() as int)),
        ),
{
}

/// A byte string made of eight bytes, one byte and two more pieces, taken apart.
proof fn lemma_pieces(head: Seq<u8>, count: u8, row: Seq<u8>, body: Seq<u8>)
    requires
        head.len() == 8,
    ensures
        ({
            let blob = head + seq![count] + row + body;
            &&& blob.len() == 9 + row.len() + body.len()
            &&& blob.take(8) == head
            &&& blob[8] == count
            &&& blob.skip(9) == row + body
            &&& blob.skip((9 + row.len()) as int) == body
        }),
{
    let blob = head + seq![count] + row + body;
    assert(blob.take(8) =~= head);
    assert(blob.skip(9) =~= row + body);
    assert(blob.skip((9 + row.len()) as int) =~= body);
}

/// A byte string that starts with eight bytes, put together again.
proof fn lemma_prefix_pieces(head: Seq<u8>, blob: Seq<u8>, k: int)
    requires
        head.len() == 8,
        0 <= k,
        9 + k <= blob.len(),
        blob.take(8) == head,
    ensures
        head + seq![blob[8]] + blob.skip(9).take(k) == blob.take(9 + k),
{
    let built = head + seq![blob[8]] + blob.skip(9).take(k);
    assert forall|i: int| 0 <= i < 9 + k implies built[i] == blob[i] by {
        if i < 8 {
            assert(blob.take(8)[i] == blob[i]);
        }
    }
    assert(built =~= blob.take(9 + k));
}

/// A header that was parsed is written as the very bytes it was parsed from.
pub proof fn law_header_bytes(blob: Seq<u8>)
    ensures
        parsed(blob) matches Ok((slots, n)) ==> {
            &&& 1 <= slots.len() <= MAX_SLOTS
            &&& all_sized(slots)
            &&& n == header_len(slots.len() as int)
            &&& header_bytes(slots) == blob.take(n)
        },
{
    if let Ok((slots, n)) = parsed(blob) {
        lemma_slots_bytes(blob.skip(9), blob[8] as nat);
        lemma_prefix_pieces(slot::magic(), blob, blob[8] as int * SLOT_LEN);
    }
}

/// Parsing a header looks at its own bytes alone.
pub proof fn law_parse_prefix(blob: Seq<u8>, more: Seq<u8>)
    ensures
        parsed(blob) is Ok ==> parsed(blob + more) == parsed(blob),
{
    if let Ok((slots, n)) = parsed(blob) {
        law_header_bytes(blob);
        lemma_cut(blob, more, n);
        law_header_round_trip(slots, blob.skip(n) + more);
    }
}

/// Cutting a byte string and putting it together again.
proof fn lemma_cut(b: Seq<u8>, more: Seq<u8>, n: int)
    requires
        0 <= n <= b.len(),
    ensures
        b.take(n) + (b.skip(n) + more) == b + more,
        b.take(n).len() == n,
{
    assert(b.take(n) + (b.skip(n) + more) =~= b + more);
}

/// Replacing the keyslots of a vault by others leaves its body untouched: the new vault parses to
/// the new keyslots, and what follows its header is what followed the old one.
pub proof fn law_rekey_keeps_body(blob: Seq<u8>, slots: Seq<SlotView>)
    requires
        parsed(blob) is Ok,
        1 <= slots.len() <= MAX_SLOTS,
        all_sized(slots),
    ensures
        ({
            let n = parsed(blob)->Ok_0.1;
            let rekeyed = header_bytes(slots) + blob.skip(n);
            &&& parsed(rekeyed) matches Ok((s, m)) && s == slots && rekeyed.skip(m) == blob.skip(n)
        }),
{
    law_header_round_trip(slots, blob.skip(parsed(blob)->Ok_0.1));
}

impl Header {
    /// Parse from the start of a vault; returns the header and its length.
    pub fn parse(blob: &[u8]) -> (r: Result<(Header, usize), Error>)
        ensures
            r matches Ok((h, n)) ==> parsed(blob@) == Ok::<(Seq<SlotView>, int), ErrorView>(
                (h@, n as int),
            ),
            r matches Err(e) ==> parsed(blob@) == Err::<(Seq<SlotView>, int), ErrorView>(e@),
    {
        if blob.len() < 8 {
            return Err(Error::NotVault);
        }
        let start: [u8; 8] = slot::magic_array();
        assert(blob@.take(8) =~= blob@.subrange(0, 8));
        if !bytes::same(slice_subrange(blob, 0, 8), start.as_slice()) {
            return Err(Error::NotVault);
        }
        if blob.len() == 8 {
            return Err(Error::Truncated);
        }
        let n: usize = blob[8] as usize;
        if n == 0 || n > MAX_SLOTS {
            return Err(Error::Corrupt(text::owned("keyslot count")));
        }
        let end: usize = 9 + n * SLOT_LEN;
        if blob.len() < end {
            return Err(Error::Truncated);
        }
        let mut slots: Vec<Slot> = Vec::new();
        let ghost row = blob@.skip(9);
        let mut i: usize = 0;
        assert((Header { slots })@ =~= Seq::empty());
        while i < n
            invariant
                i <= n <= MAX_SLOTS,
                1 <= n == blob@[8],
                blob@.take(8) == slot::magic(),
                end == 9 + n * SLOT_LEN,
                end <= blob@.len(),
                row == blob@.skip(9),
                slots_of(row, i as nat) == Some((Header { slots })@),
            decreases n - i,
        {
            let piece: &[u8] = slice_subrange(blob, 9 + i * SLOT_LEN, 9 + (i + 1) * SLOT_LEN);
            assert(piece@ =~= slot_at(row, i as int));
            match Slot::read(piece) {
                Ok(s) => {
                    let ghost before = (Header { slots })@;
                    slots.push(s);
                    assert((Header { slots })@ =~= before.push(s@));
                },
                Err(e) => {
                    proof {
                        lemma_slots_none(row, i as nat + 1, n as nat);
                    }
                    return Err(e);
                },
            }
            i = i + 1;
        }
        Ok((Header { slots }, end))
    }

    pub fn to_bytes(&self) -> (out: Vec<u8>)
        ensures
            out@ == header_bytes(self@),
    {
        let start: [u8; 8] = slot::magic_array();
        let mut out: Vec<u8> = bytes::to_vec(start.as_slice());
        out.push((self.slots.len() % 256) as u8);
        let ghost head = out@;
        let mut i: usize = 0;
        assert(self@.take(0) =~= Seq::empty());
        while i < self.slots.len()
            invariant
                i <= self.slots@.len(),
                out@ =~= head + slots_bytes(self@.take(i as int)),
            decreases self.slots@.len() - i,
        {
            self.slots[i].write(&mut out);
            assert(self@.take(i + 1).drop_last() =~= self@.take(i as int));
            i = i + 1;
        }
        assert(self@.take(i as int) =~= self@);
        out
    }
}

/// One unknown kind spoils every longer row.
proof fn lemma_slots_none(b: Seq<u8>, m: nat, n: nat)
    requires
        m <= n,
        slots_of(b, m) is None,
    ensures
        slots_of(b, n) is None,
    decreases n,
{
    if m < n {
        lemma_slots_none(b, m, (n - 1) as nat);
    }
}

/// From nine bytes on only a missing end can still be mended by more bytes.
proof fn lemma_settled(blob: Seq<u8>, more: Seq<u8>)
    requires
        blob.len() >= 9,
        parsed(blob) != Err::<(Seq<SlotView>, int), ErrorView>(ErrorView::Truncated),
    ensures
        parsed(blob + more) == parsed(blob),
{
    let all = blob + more;
    assert(all.take(8) =~= blob.take(8));
    assert(all[8] == blob[8]);
    if parsed(blob) is Ok {
        law_parse_prefix(blob, more);
    } else if blob.take(8) == slot::magic() && 1 <= blob[8] <= MAX_SLOTS {
        let k = blob[8] as int * SLOT_LEN;
        assert(all.skip(9).take(k) =~= blob.skip(9).take(k));
        lemma_slots_of_prefix(all.skip(9), blob.skip(9), blob[8] as nat);
    }
}

/// What was read to get at the header tells what would be read if more followed.
proof fn lemma_read_len(blob: Seq<u8>, more: Seq<u8>)
    requires
        blob.len() == announced(blob) || blob.len() < announced(blob) && more.len() == 0,
    ensures
        read_len(blob + more) == blob.len(),
        (blob + more).skip(blob.len() as int) == more,
{
    assert(more.len() == 0 ==> blob + more =~= blob);
    assert(blob.len() >= 9 ==> (blob + more).take(8) =~= blob.take(8));
    assert((blob + more).skip(blob.len() as int) =~= more);
}

/// What the reader of a header wants next.
pub enum HeadStep {
    /// Read up to this many bytes and hand them in.
    Read(usize),
    /// The header; the stream stands at the body.
    Done(Header),
    Fail(Error),
}

/// Reads exactly a header off a stream.
pub struct HeaderReader {
    pub filler: Filler,
}

impl HeaderReader {
    /// The bytes taken in so far.
    pub open spec fn taken(self) -> Seq<u8> {
        self.filler.buf@
    }

    /// The first nine bytes are wanted first; they tell how many more there are.
    pub open spec fn wf(self) -> bool {
        &&& self.filler.open()
        &&& if self.taken().len() < 9 {
            self.filler.want == 9
        } else {
            &&& self.taken().take(8) == slot::magic()
            &&& 1 <= self.taken()[8] <= MAX_SLOTS
            &&& self.filler.want == header_len(self.taken()[8] as int)
        }
    }

    /// A reader that has seen nothing yet, and how many bytes it wants.
    pub fn begin() -> (r: (HeaderReader, usize))
        ensures
            r.0.wf(),
            r.0.taken() == Seq::<u8>::empty(),
            r.1 == 9,
    {
        (HeaderReader { filler: Filler::new(9) }, 9)
    }

    /// Takes in what a read brought. It fails when the stream ends too early, or as soon as no
    /// more bytes could make a header of what is there.
    pub fn step(&mut self, ev: ReadEvent) -> (r: HeadStep)
        requires
            old(self).wf(),
            old(self).filler.takes(ev),
        ensures
            final(self).taken() == old(self).taken() + ev.data(),
            match r {
                HeadStep::Read(n) => {
                    &&& !(ev is Failed) && !ev.is_end()
                    &&& final(self).wf()
                    &&& n == final(self).filler.want - final(self).taken().len()
                },
                HeadStep::Done(h) => {
                    &&& parsed(final(self).taken()) == Ok::<(Seq<SlotView>, int), ErrorView>(
                        (h@, final(self).taken().len() as int),
                    )
                    &&& final(self).taken().len() == announced(final(self).taken())
                },
                HeadStep::Fail(e) => match ev {
                    ReadEvent::Failed(w) => e@ == ErrorView::Io(w@),
                    _ => {
                        &&& parsed(final(self).taken()) == Err::<(Seq<SlotView>, int), ErrorView>(
                            e@,
                        )
                        &&& if ev.is_end() {
                            final(self).taken().len() < announced(final(self).taken())
                        } else {
                            final(self).taken().len() == announced(final(self).taken())
                        }
                        &&& ev.is_end() || forall|more: Seq<u8>|
                            parsed(#[trigger] (final(self).taken() + more)) == Err::<
                                (Seq<SlotView>, int),
                                ErrorView,
                            >(e@)
                    },
                },
            },
            ev is Failed ==> r is Fail,
    {
        let fill: Fill = self.filler.feed(ev);
        assert(old(self).taken().len() >= 9 ==> self.taken().take(8) =~= old(self).taken().take(8)
            && self.taken()[8] == old(self).taken()[8]);
        match fill {
            Fill::Failed(e) => HeadStep::Fail(e),
            Fill::More => HeadStep::Read(self.filler.missing()),
            Fill::End => {
                let n: usize = self.filler.buf.len();
                match Header::parse(self.filler.buf.as_slice()) {
                    Ok((h, _)) => HeadStep::Done(h),
                    Err(e) => {
                        if n == 9 && self.filler.want == 9 && matches!(e, Error::Truncated) {
                            assert(self.taken().take(8) == slot::magic());
                            self.filler.want = 9 + self.filler.buf.as_slice()[8] as usize * SLOT_LEN;
                            HeadStep::Read(self.filler.missing())
                        } else {
                            proof {
                                if n == self.filler.want {
                                    assert forall|more: Seq<u8>|
                                        parsed(#[trigger] (self.taken() + more)) == Err::<
                                            (Seq<SlotView>, int),
                                            ErrorView,
                                        >(e@) by {
                                        lemma_settled(self.taken(), more);
                                    }
                                }
                            }
                            HeadStep::Fail(e)
                        }
                    },
                }
            },
        }
    }
}

impl Header {
    /// Read exactly the header, leaving `r` positioned at the body.
    pub fn read(r: &mut SliceSource) -> (res: Result<Header, Error>)
        requires
            old(r).wf(),
        ensures
            final(r).wf(),
            final(r).data == old(r).data,
            final(r).rest() == old(r).rest().skip(read_len(old(r).rest())),
            match res {
                Ok(h) => parsed(old(r).rest()) matches Ok((slots, n)) && slots == h@ && n
                    == read_len(old(r).rest()),
                Err(e) => parsed(old(r).rest()) == Err::<(Seq<SlotView>, int), ErrorView>(e@),
            },
    {
        let ghost all = r.rest();
        let (mut reader, mut want): (HeaderReader, usize) = HeaderReader::begin();
        assert(all =~= reader.taken() + r.rest());
        loop
            invariant
                r.wf(),
                reader.wf(),
                want == reader.filler.want - reader.taken().len(),
                all == reader.taken() + r.rest(),
                all == old(r).rest(),
                r.data == old(r).data,
            decreases r.rest().len(),
        {
            let ghost taken = reader.taken();
            let ev: ReadEvent = r.read(want);
            assert(all =~= taken + ev.data() + r.rest());
            match reader.step(ev) {
                HeadStep::Read(n) => {
                    want = n;
                },
                HeadStep::Done(h) => {
                    proof {
                        law_parse_prefix(reader.taken(), r.rest());
                        lemma_read_len(reader.taken(), r.rest());
                    }
                    return Ok(h);
                },
                HeadStep::Fail(e) => {
                    assert(ev.is_end() ==> all =~= reader.taken());
                    proof {
                        lemma_read_len(reader.taken(), r.rest());
                    }
                    return Err(e);
                },
            }
        }
    }
}

/// A keyslot that was added opens: behind the keyslots that were there before, the new one gives
/// out the file key for the factors of its recipe, unless hashing the passphrase fails.
pub proof fn law_added_slot_opens(
    before: Seq<SlotView>,
    s: SlotView,
    spec: SpecView,
    fk: Seq<u8>,
    material: Option<Seq<u8>>,
    pass: Option<Seq<u8>>,
    r: Result<Seq<u8>, ErrorView>,
)
    requires
        slot::recipe_fault(spec) is None,
        s == SlotView::wrapping(fk, spec, s.salt, s.nonce),
        s.opens(spec.material(), spec.pass) == Ok::<Seq<u8>, ErrorView>(fk),
        s.kind.wants_dongle() ==> material == spec.material(),
        s.kind.wants_pass() ==> pass == spec.pass,
        before.push(s)[before.len() as int].yields(material, pass, r),
    ensures
        before.push(s).take(before.len() as int) == before,
        r == Ok::<Seq<u8>, ErrorView>(fk) || r == Err::<Seq<u8>, ErrorView>(ErrorView::Argon)
            && s.kind.wants_pass() && slot::argon_refused(spec.pass->0, s.salt, spec.argon),
{
    assert(before.push(s).take(before.len() as int) =~= before);
    slot::law_wrapped_key_returns(s, spec, fk, material, pass, r);
}

impl Header {
    /// Unwrap the file key with slot `i`.
    pub fn open_slot(&self, i: usize, material: Option<&[u8]>, pass: Option<&[u8]>) -> (r: Result<
        Key,
        Error,
    >)
        ensures
            i >= self@.len() ==> (r matches Err(e) && e == Error::NoSuchSlot),
            i < self@.len() ==> self@[i as int].yields(
                slot::opt_bytes(material),
                slot::opt_bytes(pass),
                slot::unwrapped(r),
            ),
    {
        if i < self.slots.len() {
            self.slots[i].unwrap(material, pass)
        } else {
            Err(Error::NoSuchSlot)
        }
    }

    /// Adds a keyslot that wraps the same file key; the keyslots that are there stay as they are.
    /// Returns the index of the new one. Where the header is full or the recipe lacks something `rng`
    /// need not be callable, and is not called.
    ///
    /// That `rng` is unchanged is said of it as a value, as for `rng::draw`.
    pub fn add_slot<R: FnMut(&mut [u8]) -> Result<(), Error>>(
        &mut self,
        fk: &Key,
        spec: &SlotSpec,
        rng: &mut R,
    ) -> (r: Result<usize, Error>)
        requires
            old(self)@.len() < MAX_SLOTS && slot::recipe_fault(spec@) is None ==> rng::callable(
                *old(rng),
            ),
        ensures
            *final(rng) == *old(rng),
            old(self)@.len() >= MAX_SLOTS ==> (r matches Err(e) && e == Error::TooManySlots),
            match r {
                Ok(i) => {
                    let s = final(self)@[i as int];
                    &&& i == old(self)@.len()
                    &&& slot::recipe_fault(spec@) is None
                    &&& final(self)@ == old(self)@.push(s)
                    &&& s == SlotView::wrapping(fk@, spec@, s.salt, s.nonce)
                    &&& s.opens(spec@.material(), spec@.pass) == Ok::<Seq<u8>, ErrorView>(fk@)
                },
                Err(e) => {
                    &&& *final(self) == *old(self)
                    &&& old(self)@.len() < MAX_SLOTS ==> slot::wrap_fails(*old(rng), spec@, e)
                },
            },
            r matches Ok(i) ==> rng::drawn::<16, R>(*old(rng), final(self)@[i as int].salt)
                && rng::drawn::<24, R>(*old(rng), final(self)@[i as int].nonce),
    {
        if self.slots.len() >= MAX_SLOTS {
            return Err(Error::TooManySlots);
        }
        match Slot::wrap(fk, spec, rng) {
            Ok(s) => {
                self.slots.push(s);
                assert(self@ =~= old(self)@.push(s@));
                Ok(self.slots.len() - 1)
            },
            Err(e) => Err(e),
        }
    }

    /// Removes keyslot `i`; the others keep their order.
    pub fn remove_slot(&mut self, i: usize) -> (r: Result<(), Error>)
        ensures
            r is Ok <==> i < old(self)@.len() && old(self)@.len() != 1,
            i >= old(self)@.len() ==> (r matches Err(e) && e == Error::NoSuchSlot),
            i < old(self)@.len() && old(self)@.len() == 1 ==> (r matches Err(e) && e
                == Error::LastSlot),
            r is Ok ==> final(self)@ == old(self)@.remove(i as int),
            r is Ok ==> final(self)@ == old(self)@.take(i as int) + old(self)@.skip(i + 1),
            r is Err ==> *final(self) == *old(self),
    {
        if i >= self.slots.len() {
            return Err(Error::NoSuchSlot);
        }
        if self.slots.len() == 1 {
            return Err(Error::LastSlot);
        }
        self.slots.remove(i);
        assert(self@ =~= old(self)@.remove(i as int));
        assert(self@ =~= old(self)@.take(i as int) + old(self)@.skip(i + 1));
        Ok(())
    }
}

/// The layout of a header on disk: `UNISEAL1`, the number of keyslots, and the keyslots, 112 bytes
/// each.
pub proof fn law_header_layout(slots: Seq<SlotView>, i: int)
    requires
        slots.len() <= 8,
        all_sized(slots),
        0 <= i < slots.len(),
    ensures
        ({
            let b = header_bytes(slots);
            &&& b.len() == 9 + 112 * slots.len()
            &&& b.take(8) == "UNISEAL1".spec_bytes()
            &&& b[8] == slots.len()
            &&& b.subrange(9 + 112 * i, 9 + 112 * (i + 1)) == slots[i].bytes()
        }),
{
    let b = header_bytes(slots);
    slot::lemma_magic_spelled();
    slot::lemma_magic_len();
    lemma_slots_len(slots);
    lemma_slot_place(slots, i);
    assert(b.take(8) =~= slot::magic());
    assert(b.subrange(9 + 112 * i, 9 + 112 * (i + 1)) =~= slots_bytes(slots).subrange(
        112 * i,
        112 * (i + 1),
    ));
}

proof fn lemma_slot_place(slots: Seq<SlotView>, i: int)
    requires
        all_sized(slots),
        0 <= i < slots.len(),
    ensures
        slots_bytes(slots).subrange(112 * i, 112 * (i + 1)) == slots[i].bytes(),
        slots_bytes(slots).len() == 112 * slots.len(),
    decreases slots.len(),
{
    let init = slots.drop_last();
    lemma_slots_len(slots);
    lemma_slots_len(init);
    slot::law_slot_round_trip(slots.last());
    if i < init.len() {
        assert(all_sized(init));
        lemma_slot_place(init, i);
        assert(slots_bytes(slots).subrange(112 * i, 112 * (i + 1)) =~= slots_bytes(init).subrange(
            112 * i,
            112 * (i + 1),
        ));
    } else {
        assert(slots_bytes(slots).subrange(112 * i, 112 * (i + 1)) =~= slots.last().bytes());
    }
}

/// What is wrong with the start of a byte string that is no vault: it does not spell `UNISEAL1`, it
/// ends too early, it announces no keyslot or more than eight, or a keyslot has none of the three
/// kinds. Else there is a header.
pub proof fn law_what_parses(blob: Seq<u8>)
    ensures
        ({
            let named = blob.len() >= 8 && blob.take(8) == "UNISEAL1".spec_bytes();
            let counted = named && blob.len() >= 9 && 1 <= blob[8] <= 8;
            let whole = counted && blob.len() >= 9 + 112 * blob[8];
            let known = forall|i: int|
                0 <= i < blob[8] ==> 1 <= #[trigger] blob[9 + 112 * i] <= 3;
            &&& !named ==> parsed(blob) == Err::<(Seq<SlotView>, int), ErrorView>(
                ErrorView::NotVault,
            )
            &&& named && blob.len() == 8 ==> parsed(blob) == Err::<
                (Seq<SlotView>, int),
                ErrorView,
            >(ErrorView::Truncated)
            &&& named && blob.len() >= 9 && !counted ==> parsed(blob) == Err::<
                (Seq<SlotView>, int),
                ErrorView,
            >(ErrorView::Corrupt("keyslot count"@))
            &&& counted && !whole ==> parsed(blob) == Err::<(Seq<SlotView>, int), ErrorView>(
                ErrorView::Truncated,
            )
            &&& whole && !known ==> parsed(blob) == Err::<(Seq<SlotView>, int), ErrorView>(
                ErrorView::Corrupt("unknown keyslot kind"@),
            )
            &&& whole && known ==> (parsed(blob) matches Ok((slots, n)) && slots.len() == blob[8]
                && n == 9 + 112 * blob[8])
        }),
{
    slot::lemma_magic_spelled();
    if blob.len() >= 9 && blob.take(8) == slot::magic() && 1 <= blob[8] <= 8 && blob.len() >= 9
        + 112 * blob[8] {
        lemma_known(blob, blob[8] as nat);
    }
}

proof fn lemma_known(blob: Seq<u8>, n: nat)
    requires
        blob.len() >= 9 + 112 * n,
    ensures
        slots_of(blob.skip(9), n) is Some <==> forall|i: int|
            0 <= i < n ==> 1 <= #[trigger] blob[9 + 112 * i] <= 3,
        slots_of(blob.skip(9), n) matches Some(s) ==> s.len() == n,
    decreases n,
{
    if n > 0 {
        let m = (n - 1) as nat;
        lemma_known(blob, m);
        assert(slot_at(blob.skip(9), m as int)[0] == blob[9 + 112 * m as int]);
        if slots_of(blob.skip(9), n) is Some {
            assert forall|i: int| 0 <= i < n implies 1 <= #[trigger] blob[9 + 112 * i] <= 3 by {
                if i == m {
                }
            }
        }
    }
}

/// How much is read off a stream to get at its header: nine bytes, and where they announce keyslots,
/// 112 for each of them; less only where the stream ends before.
pub proof fn law_how_much_is_read(blob: Seq<u8>)
    ensures
        ({
            let counted = blob.len() >= 9 && blob.take(8) == "UNISEAL1".spec_bytes() && 1 <= blob[8]
                <= 8;
            let wanted = if counted {
                9 + 112 * blob[8]
            } else {
                9int
            };
            read_len(blob) == if blob.len() < wanted {
                blob.len() as int
            } else {
                wanted
            }
        }),
{
    slot::lemma_magic_spelled();
}

} // verus!
