//! HID++ requests to Logitech receivers and the judging of their answers.
//!
//! Two report styles exist on these firmwares:
//! - short reports (`0x10`, 7 bytes) for HID++ 1.0 GET/SET;
//! - long GETs sent as SHORT reports with sub `0x83`, answered LONG (`0x11`). Long `0x11` requests
//!   are rejected, so a long GET uses the short form.
//!
//! Every GET distinguishes three outcomes, because the fingerprint must never silently absorb a
//! timeout as "no data":
//! - `Data`: the register answered;
//! - `Refused`: HID++ error frame `8F` (unoccupied slot, closed register);
//! - `Silent`: no matching frame in time (bus glitch, contention with Solaar / Logi Options).
//!   Callers retry or abort, they never guess.

use crate::bytes;
use vstd::prelude::*;
use vstd::slice::*;

verus! {

pub const LOGITECH_VID: u16 = 0x046D;

/// TI Unifying receiver (CU-0008).
pub const TI_PID: u16 = 0xC52B;

/// Nano receiver (CU-0010).
pub const NANO_PID: u16 = 0xC52F;

/// Usage page of the HID++ vendor collection.
pub const VENDOR_PAGE: u16 = 0xFF00;

/// Sub-id of a HID++ error frame.
pub const ERR_SUBID: u8 = 0x8F;

/// How long one read of a frame may take.
pub const TIMEOUT_MS: i32 = 150;

/// How many frames are looked at for one answer.
pub const MAX_FRAMES: usize = 8;

#[derive(Debug, Clone, Copy, PartialEq, Eq)]
pub enum Reply<T> {
    Data(T),
    Refused,
    Silent,
}

impl<T> Reply<T> {
    /// The data, if the register answered.
    pub fn data(self) -> (d: Option<T>)
        ensures
            d == match self {
                Reply::Data(d) => Some(d),
                _ => None,
            },
    {
        match self {
            Reply::Data(d) => Some(d),
            _ => None,
        }
    }
}

/// A reply, with its bytes as a sequence.
pub open spec fn reply_view(r: Reply<Vec<u8>>) -> Reply<Seq<u8>> {
    match r {
        Reply::Data(d) => Reply::Data(d@),
        Reply::Refused => Reply::Refused,
        Reply::Silent => Reply::Silent,
    }
}

/// Whether an attached device is the HID++ vendor collection of the receiver `pid`.
pub fn is_vendor(vendor_id: u16, product_id: u16, usage_page: u16, pid: u16) -> (r: bool)
    ensures
        r == (vendor_id == 0x046D && product_id == pid && usage_page == 0xFF00),
{
    vendor_id == LOGITECH_VID && product_id == pid && usage_page == VENDOR_PAGE
}

/// One GET.
#[derive(Debug, Clone, Copy, PartialEq, Eq, Structural)]
pub enum Query {
    /// Three bytes of a register.
    Short { reg: u8, p0: u8 },
    /// Fifteen bytes of a register.
    Long { reg: u8, sub: u8 },
    /// One flash byte, through register D4.
    D4 { addr: u16 },
}

impl Query {
    pub open spec fn sub_id(self) -> u8 {
        match self {
            Query::Long { .. } => 0x83,
            _ => 0x81,
        }
    }

    pub open spec fn reg(self) -> u8 {
        match self {
            Query::Short { reg, .. } => reg,
            Query::Long { reg, .. } => reg,
            Query::D4 { .. } => 0xD4,
        }
    }

    /// The report that asks for it.
    pub open spec fn report(self) -> Seq<u8> {
        let (a, b) = match self {
            Query::Short { p0, .. } => (p0, 0),
            Query::Long { sub, .. } => (sub, 0),
            Query::D4 { addr } => ((addr as int % 0x100) as u8, (addr as int / 0x100) as u8),
        };
        seq![0x10u8, 0xFFu8, self.sub_id(), self.reg(), a, b, 0u8]
    }

    /// How many bytes the answer holds.
    pub open spec fn width(self) -> nat {
        match self {
            Query::Short { .. } => 3,
            Query::Long { .. } => 15,
            Query::D4 { .. } => 1,
        }
    }

    /// The bytes of the answer in a frame that answers it.
    pub open spec fn payload(self, frame: Seq<u8>) -> Seq<u8> {
        match self {
            Query::Short { .. } => frame.subrange(4, 7),
            Query::Long { .. } => frame.subrange(5, 20),
            Query::D4 { .. } => frame.subrange(6, 7),
        }
    }

    /// What a frame says to this GET; nothing, if it belongs to something else (a notification, a
    /// stale answer).
    pub open spec fn meaning(self, frame: Seq<u8>) -> Option<Reply<Seq<u8>>> {
        if frame[1] != 0xFF {
            None
        } else if frame[2] == ERR_SUBID && frame[3] == self.sub_id() && frame[4] == self.reg() {
            Some(Reply::Refused)
        } else if frame[2] == self.sub_id() && frame[3] == self.reg() && (self matches Query::Long {
            sub,
            ..
        } ==> frame[0] == 0x11 && frame[4] == sub) {
            Some(Reply::Data(self.payload(frame)))
        } else {
            None
        }
    }

    /// What the GET comes to from the `k`-th frame on, where `frames` tells what each wait for a
    /// frame brings.
    pub open spec fn reply_from(self, frames: spec_fn(int) -> Option<Seq<u8>>, k: int) -> Reply<
        Seq<u8>,
    >
        decreases MAX_FRAMES - k,
    {
        if k >= MAX_FRAMES {
            Reply::Silent
        } else {
            match frames(k) {
                None => Reply::Silent,
                Some(f) => match self.meaning(f) {
                    Some(r) => r,
                    None => self.reply_from(frames, k + 1),
                },
            }
        }
    }

    /// The report that asks for it.
    pub fn request(&self) -> (req: [u8; 7])
        ensures
            req@ == self.report(),
    {
        let req: [u8; 7] = match *self {
            Query::Short { reg, p0 } => [0x10, 0xFF, 0x81, reg, p0, 0, 0],
            Query::Long { reg, sub } => [0x10, 0xFF, 0x83, reg, sub, 0, 0],
            Query::D4 { addr } => [
                0x10,
                0xFF,
                0x81,
                0xD4,
                (addr % 0x100) as u8,
                (addr / 0x100) as u8,
                0,
            ],
        };
        assert(req@ =~= self.report());
        req
    }

    /// Judges a frame.
    pub fn judge(&self, frame: &[u8; 64]) -> (r: Option<Reply<Vec<u8>>>)
        ensures
            match r {
                Some(reply) => self.meaning(frame@) == Some(reply_view(reply)),
                None => self.meaning(frame@) is None,
            },
            match r {
                Some(Reply::Data(d)) => self.meaning(frame@) == Some(Reply::Data(d@)),
                Some(Reply::Refused) => self.meaning(frame@) == Some(Reply::<Seq<u8>>::Refused),
                Some(Reply::Silent) => false,
                None => self.meaning(frame@) is None,
            },
    {
        if frame[1] != 0xFF {
            return None;
        }
        let (sub_id, reg): (u8, u8) = match *self {
            Query::Short { reg, .. } => (0x81, reg),
            Query::Long { reg, .. } => (0x83, reg),
            Query::D4 { .. } => (0x81, 0xD4),
        };
        if frame[2] == ERR_SUBID && frame[3] == sub_id && frame[4] == reg {
            return Some(Reply::Refused);
        }
        if frame[2] != sub_id || frame[3] != reg {
            return None;
        }
        let f: &[u8] = frame.as_slice();
        let payload: &[u8] = match *self {
            Query::Short { .. } => slice_subrange(f, 4, 7),
            Query::Long { sub, .. } => {
                if frame[0] != 0x11 || frame[4] != sub {
                    return None;
                }
                slice_subrange(f, 5, 20)
            },
            Query::D4 { .. } => slice_subrange(f, 6, 7),
        };
        Some(Reply::Data(bytes::to_vec(payload)))
    }
}

/// Short HID++ 1.0 GET: `[10 FF 81 reg p0 00 00]`. Returns 3 data bytes.
pub fn short_get(reg: u8, p0: u8) -> (x: Exchange)
    ensures
        x == (Exchange { query: Query::Short { reg, p0 }, seen: 0 }),
{
    Exchange { query: Query::Short { reg, p0 }, seen: 0 }
}

/// Long GET via short report: `[10 FF 83 reg sub 00 00]`, 15-byte answer.
pub fn long_get(reg: u8, sub: u8) -> (x: Exchange)
    ensures
        x == (Exchange { query: Query::Long { reg, sub }, seen: 0 }),
{
    Exchange { query: Query::Long { reg, sub }, seen: 0 }
}

/// `GET [D4 LSB MSB]` answers one flash byte.
pub fn d4read(addr: u16) -> (x: Exchange)
    ensures
        x == (Exchange { query: Query::D4 { addr }, seen: 0 }),
{
    Exchange { query: Query::D4 { addr }, seen: 0 }
}

/// One GET under way: its report is sent, then frames are awaited until one of them answers, as
/// long as they come in time and not too many of them are unrelated.
#[derive(Debug, Clone, Copy)]
pub struct Exchange {
    pub query: Query,
    pub seen: usize,
}

/// What an exchange comes to: without a report that went out there is nothing to wait for.
pub open spec fn exchanged(
    query: Query,
    sent: bool,
    frames: spec_fn(int) -> Option<Seq<u8>>,
) -> Reply<Seq<u8>> {
    if sent {
        query.reply_from(frames, 0)
    } else {
        Reply::Silent
    }
}

/// What waiting for a frame brought, with its bytes as a sequence.
pub open spec fn frame_view(f: Option<[u8; 64]>) -> Option<Seq<u8>> {
    match f {
        Some(f) => Some(f@),
        None => None,
    }
}

impl Exchange {
    /// The exchange still looks at frames.
    pub open spec fn waiting(self) -> bool {
        self.seen < MAX_FRAMES
    }

    /// Whether sending the report ends the exchange.
    pub fn sent(&self, ok: bool) -> (r: Option<Reply<Vec<u8>>>)
        requires
            self.seen == 0,
        ensures
            match r {
                Some(reply) => forall|frames: spec_fn(int) -> Option<Seq<u8>>|
                    #[trigger] exchanged(self.query, ok, frames) == reply_view(reply),
                None => ok && forall|frames: spec_fn(int) -> Option<Seq<u8>>|
                    #[trigger] exchanged(self.query, ok, frames) == self.query.reply_from(
                        frames,
                        0,
                    ),
            },
            r is Some <==> !ok,
    {
        if ok {
            None
        } else {
            Some(Reply::Silent)
        }
    }

    /// Takes in what waiting for a frame brought; no reply means to wait for another one.
    pub fn received(&mut self, frame: Option<[u8; 64]>) -> (r: Option<Reply<Vec<u8>>>)
        requires
            old(self).waiting(),
        ensures
            final(self).query == old(self).query,
            r matches Some(Reply::Data(d)) ==> d@.len() == old(self).query.width(),
            match r {
                Some(reply) => forall|frames: spec_fn(int) -> Option<Seq<u8>>|
                    frames(old(self).seen as int) == frame_view(frame)
                        ==> #[trigger] old(self).query.reply_from(frames, old(self).seen as int)
                        == reply_view(reply),
                None => {
                    &&& final(self).waiting()
                    &&& final(self).seen == old(self).seen + 1
                    &&& forall|frames: spec_fn(int) -> Option<Seq<u8>>|
                        frames(old(self).seen as int) == frame_view(frame)
                            ==> #[trigger] old(self).query.reply_from(
                            frames,
                            old(self).seen as int,
                        ) == old(self).query.reply_from(frames, final(self).seen as int)
                },
            },
    {
        reveal_with_fuel(Query::reply_from, 2);
        match frame {
            None => Some(Reply::Silent),
            Some(f) => match self.query.judge(&f) {
                Some(reply) => Some(reply),
                None => {
                    self.seen = self.seen + 1;
                    if self.seen == MAX_FRAMES {
                        Some(Reply::Silent)
                    } else {
                        None
                    }
                },
            },
        }
    }
}

/// The report of a GET names what it asks for: the register, and behind it the parameter, the
/// sub-register, or the flash address with its low byte first.
pub proof fn law_report(q: Query)
    ensures
        q.report().len() == 7,
        q.report()[0] == 0x10 && q.report()[1] == 0xFF && q.report()[6] == 0,
        q matches Query::Short { reg, p0 } ==> q.report()[2] == 0x81 && q.report()[3] == reg
            && q.report()[4] == p0 && q.report()[5] == 0,
        q matches Query::Long { reg, sub } ==> q.report()[2] == 0x83 && q.report()[3] == reg
            && q.report()[4] == sub && q.report()[5] == 0,
        q matches Query::D4 { addr } ==> q.report()[2] == 0x81 && q.report()[3] == 0xD4
            && q.report()[4] + 256 * q.report()[5] == addr,
{
}

/// An error frame that names what was sent refuses every GET: with the device index FF, 8F, and
/// behind it the sub-id and the register of the report.
pub proof fn law_error_frame_refuses(q: Query, frame: Seq<u8>)
    requires
        frame.len() == 64,
        frame[1] == 0xFF,
        frame[2] == 0x8F,
        frame[3] == q.report()[2],
        frame[4] == q.report()[3],
    ensures
        q.meaning(frame) == Some(Reply::<Seq<u8>>::Refused),
{
}

/// A frame that repeats the sub-id and the register of the report answers it: a GET of three bytes
/// or of a flash byte whatever the report style, one of fifteen bytes only in a long report that
/// repeats the sub-register too.
pub proof fn law_matching_frame_answers(q: Query, frame: Seq<u8>)
    requires
        frame.len() == 64,
        frame[1] == 0xFF,
        frame[2] == q.report()[2],
        frame[3] == q.report()[3],
        q is Long ==> frame[0] == 0x11 && frame[4] == q.report()[4],
    ensures
        q.meaning(frame) matches Some(Reply::Data(d)) && {
            &&& q is Short ==> d == seq![frame[4], frame[5], frame[6]]
            &&& q is Long ==> d.len() == 15 && forall|i: int|
                0 <= i < 15 ==> #[trigger] d[i] == frame[5 + i]
            &&& q is D4 ==> d == seq![frame[6]]
        },
{
    let d = q.payload(frame);
    if q is Short {
        assert(d =~= seq![frame[4], frame[5], frame[6]]);
    } else if q is D4 {
        assert(d =~= seq![frame[6]]);
    }
}

/// Nothing else speaks to a GET: not a frame with another device index, not an error frame that
/// names another report, not an answer to another register, and to a GET of fifteen bytes no short
/// report and no other sub-register.
pub proof fn law_other_frames_are_skipped(q: Query, frame: Seq<u8>)
    requires
        frame.len() == 64,
        ({
            ||| frame[1] != 0xFF
            ||| frame[2] == 0x8F && (frame[3] != q.report()[2] || frame[4] != q.report()[3])
            ||| frame[2] != 0x8F && (frame[2] != q.report()[2] || frame[3] != q.report()[3])
            ||| frame[2] != 0x8F && q is Long && (frame[0] != 0x11 || frame[4] != q.report()[4])
        }),
    ensures
        q.meaning(frame) is None,
{
}

/// The reply to a GET is what the first frame that speaks to it says, if it is among the first
/// eight and all of them came in time; else there is none.
pub proof fn law_first_frame_decides(
    q: Query,
    frames: spec_fn(int) -> Option<Seq<u8>>,
    k: int,
)
    requires
        0 <= k <= 8,
        forall|j: int| 0 <= j < k ==> (#[trigger] frames(j)) is Some && q.meaning(frames(j)->0) is None,
    ensures
        exchanged(q, false, frames) == Reply::<Seq<u8>>::Silent,
        k == 8 || frames(k) is None ==> exchanged(q, true, frames) == Reply::<Seq<u8>>::Silent,
        k < 8 && frames(k) is Some && q.meaning(frames(k)->0) is Some ==> exchanged(q, true, frames)
            == q.meaning(frames(k)->0)->0,
{
    lemma_unrelated_skipped(q, frames, 0, k);
}

proof fn lemma_unrelated_skipped(
    q: Query,
    frames: spec_fn(int) -> Option<Seq<u8>>,
    from: int,
    k: int,
)
    requires
        0 <= from <= k <= 8,
        forall|j: int| from <= j < k ==> (#[trigger] frames(j)) is Some && q.meaning(frames(j)->0)
            is None,
    ensures
        q.reply_from(frames, from) == q.reply_from(frames, k),
    decreases k - from,
{
    if from < k {
        assert(frames(from) is Some);
        lemma_unrelated_skipped(q, frames, from + 1, k);
    }
}

} // verus!
