//! Reading a fingerprint off the receivers, question by question.

use crate::bytes;
use crate::fingerprint::{
    self, collect, Fingerprint, FingerprintView, FpError, FpErrorView, Record, SlotInfo, SlotInfoView,
};
use crate::hid::{self, Query, Reply, NANO_PID, TI_PID};
use crate::text;
use crate::vault::Secret;
use vstd::prelude::*;
use vstd::slice::*;

verus! {

/// What a receiver answers: to a question that is asked for the receiver itself (0), for one of the
/// slots of the TI receiver (1 to 6), or of the Nano receiver (7).
pub type Answers = spec_fn(int, Query) -> Reply<Seq<u8>>;

/// The place of questions to the Nano receiver.
pub open spec fn nano_place() -> int {
    7
}

/// The text that bytes spell in UTF-8, with replacement characters for what is not UTF-8.
pub uninterp spec fn utf8_lossy(b: Seq<u8>) -> Seq<char>;

/// `String::from_utf8_lossy`: the text depends on the bytes alone.
#[verifier::external_body]
fn text_of(b: &[u8]) -> (s: String)
    ensures
        s@ == utf8_lossy(b@),
{
    String::from_utf8_lossy(b).into_owned()
}

pub open spec fn unresponsive<T>(what: Seq<char>) -> Result<T, FpErrorView> {
    Err(FpErrorView::Unresponsive(what))
}

/// The serial number register of a receiver.
pub open spec fn serial_query() -> Query {
    Query::Long { reg: 0xB5, sub: 0x03 }
}

/// A byte in decimal digits, one or two for each half.
pub open spec fn bcd_text(b: u8) -> Seq<char> {
    text::decimal_text((b / 16) as nat) + text::decimal_text((b % 16) as nat)
}

/// The firmware version, for display.
pub open spec fn firmware_text(major: Seq<char>, minor: Seq<char>, build: Seq<char>) -> Seq<char> {
    "RQR"@ + major + "."@ + minor + "_B"@ + build
}

/// The build number, for display.
pub open spec fn build_text(r: Reply<Seq<u8>>) -> Seq<char> {
    match r {
        Reply::Data(v) => text::hex_text(v.subrange(1, 3)),
        _ => "????"@,
    }
}

/// The firmware version that the receiver reports.
pub open spec fn firmware(ask: Answers) -> Result<Seq<char>, FpErrorView> {
    match ask(0, Query::Short { reg: 0xF1, p0: 0x01 }) {
        Reply::Silent => unresponsive("TI F1/01"@),
        Reply::Refused => Ok(firmware_text("??"@, "??"@, "????"@)),
        Reply::Data(v) => {
            let build = ask(0, Query::Short { reg: 0xF1, p0: 0x02 });
            if build is Silent {
                unresponsive("TI F1/02"@)
            } else {
                Ok(firmware_text(bcd_text(v[1]), bcd_text(v[2]), build_text(build)))
            }
        },
    }
}

/// The flash pages that can hold the pairing records.
pub open spec fn page(k: int) -> u16 {
    if k == 0 {
        0xE400
    } else if k == 1 {
        0xE800
    } else if k == 2 {
        0xEC00
    } else {
        0xF000
    }
}

/// The first page from the `k`-th on that is marked as holding the records; 0 if none is.
pub open spec fn active_page(ask: Answers, k: int) -> Result<u16, FpErrorView>
    decreases 4 - k,
{
    if k >= 4 {
        Ok(0)
    } else {
        match ask(0, Query::D4 { addr: page(k) }) {
            Reply::Silent => unresponsive("TI D4 page"@),
            Reply::Data(b) if b[0] == 0x3F => Ok(page(k)),
            _ => active_page(ask, k + 1),
        }
    }
}

/// What kind of device a pairing register speaks of.
pub open spec fn kind_text(k: u8) -> Seq<char> {
    if k == 1 {
        "keyboard"@
    } else if k == 2 {
        "mouse"@
    } else {
        "kind"@ + text::hex_text(seq![k])
    }
}

/// The name in a name register: its length, 14 at most, and its bytes.
pub open spec fn name_text(n: Seq<u8>) -> Seq<char> {
    utf8_lossy(n.subrange(1, 1 + if n[0] < 14 { n[0] as int } else { 14 }))
}

/// Where the `step`-th record of a page starts.
pub open spec fn record_base(active: u16, step: int) -> u16 {
    (active + 4 + 0x14 * step) as u16
}

/// The bytes of a pairing record from the `i`-th on.
pub open spec fn record_from(ask: Answers, slot: int, base: u16, i: int) -> Result<
    Seq<u8>,
    FpErrorView,
>
    decreases 16 - i,
{
    if i >= 16 {
        Ok(Seq::empty())
    } else {
        match ask(slot, Query::D4 { addr: (base + 4 + i) as u16 }) {
            Reply::Silent => unresponsive("TI D4 record"@),
            Reply::Refused => unresponsive("TI D4 record refused"@),
            Reply::Data(b) => match record_from(ask, slot, base, i + 1) {
                Err(e) => Err(e),
                Ok(rest) => Ok(seq![b[0]] + rest),
            },
        }
    }
}

/// The pairing record of a receiver slot, looked for from the `step`-th record of the page on.
pub open spec fn scan(ask: Answers, slot: int, active: u16, step: int) -> Result<
    Option<Seq<u8>>,
    FpErrorView,
>
    decreases 33 - step,
{
    if step >= 33 {
        Ok(None)
    } else {
        match ask(slot, Query::D4 { addr: record_base(active, step) }) {
            Reply::Silent => unresponsive("TI D4 scan"@),
            Reply::Data(b) if b[0] == 0x60 + (slot - 1) => match record_from(
                ask,
                slot,
                record_base(active, step),
                0,
            ) {
                Err(e) => Err(e),
                Ok(r) => Ok(Some(r)),
            },
            _ => scan(ask, slot, active, step + 1),
        }
    }
}

/// The pairing record of a receiver slot, if the flash can be read.
pub open spec fn record(ask: Answers, slot: int, active: u16) -> Result<
    Option<Seq<u8>>,
    FpErrorView,
> {
    if active == 0 {
        Ok(None)
    } else {
        scan(ask, slot, active, 0)
    }
}

/// The serial number of the device in a slot; empty, if it is refused.
pub open spec fn device_serial(ask: Answers, slot: int) -> Result<Seq<u8>, FpErrorView> {
    match ask(slot, Query::Long { reg: 0xB5, sub: (0x30 + slot - 1) as u8 }) {
        Reply::Silent => unresponsive("TI B5/3x"@),
        Reply::Refused => Ok(Seq::empty()),
        Reply::Data(e) => Ok(e.take(4)),
    }
}

/// The name of the device in a slot; empty, if it is refused.
pub open spec fn device_name(ask: Answers, slot: int) -> Result<Seq<char>, FpErrorView> {
    match ask(slot, Query::Long { reg: 0xB5, sub: (0x40 + slot - 1) as u8 }) {
        Reply::Silent => unresponsive("TI B5/4x"@),
        Reply::Refused => Ok(Seq::empty()),
        Reply::Data(n) => Ok(name_text(n)),
    }
}

/// The device whose pairing register reads `p`, from its name on.
pub open spec fn device_from_name(ask: Answers, slot: int, active: u16, p: Seq<u8>) -> Result<
    SlotInfoView,
    FpErrorView,
> {
    match device_name(ask, slot) {
        Err(e) => Err(e),
        Ok(name) => device_from_serial(ask, slot, active, p, name),
    }
}

/// The device whose pairing register reads `p`, from its serial number on.
pub open spec fn device_from_serial(
    ask: Answers,
    slot: int,
    active: u16,
    p: Seq<u8>,
    name: Seq<char>,
) -> Result<SlotInfoView, FpErrorView> {
    match device_serial(ask, slot) {
        Err(e) => Err(e),
        Ok(serial) => match record(ask, slot, active) {
            Err(e) => Err(e),
            Ok(record) => Ok(device(slot, p, name, serial, record)),
        },
    }
}

/// A device, put together.
pub open spec fn device(
    slot: int,
    p: Seq<u8>,
    name: Seq<char>,
    serial: Seq<u8>,
    record: Option<Seq<u8>>,
) -> SlotInfoView {
    SlotInfoView {
        slot: slot as u8,
        wpid: p.subrange(2, 4),
        kind: kind_text(p[6]),
        name,
        serial,
        record,
    }
}

/// The device in a receiver slot, if it is occupied.
pub open spec fn device_in(ask: Answers, slot: int, active: u16) -> Result<
    Option<SlotInfoView>,
    FpErrorView,
> {
    match ask(slot, Query::Long { reg: 0xB5, sub: (0x20 + slot - 1) as u8 }) {
        Reply::Silent => unresponsive("TI B5/2x"@),
        Reply::Refused => Ok(None),
        Reply::Data(p) => match device_from_name(ask, slot, active, p) {
            Err(e) => Err(e),
            Ok(d) => Ok(Some(d)),
        },
    }
}

/// The devices in the receiver slots from `slot` on.
pub open spec fn devices_from(ask: Answers, slot: int, active: u16) -> Result<
    Seq<SlotInfoView>,
    FpErrorView,
>
    decreases 7 - slot,
{
    if slot > 6 {
        Ok(Seq::empty())
    } else {
        match device_in(ask, slot, active) {
            Err(e) => Err(e),
            Ok(d) => match devices_from(ask, slot + 1, active) {
                Err(e) => Err(e),
                Ok(rest) => Ok(
                    match d {
                        Some(d) => seq![d] + rest,
                        None => rest,
                    },
                ),
            },
        }
    }
}

/// What a read comes to once the TI receiver was read, or found absent: `fp` is what is known.
pub open spec fn finish(fp: FingerprintView, nano: bool, ask: Answers) -> Result<
    FingerprintView,
    FpErrorView,
> {
    if nano {
        match ask(nano_place(), serial_query()) {
            Reply::Silent => unresponsive("Nano B5/03"@),
            Reply::Refused => unresponsive("Nano B5/03 refused"@),
            Reply::Data(s) => Ok(
                FingerprintView { nano_present: true, nano_serial: s.take(4), ..fp },
            ),
        }
    } else if fp.ti_present {
        Ok(fp)
    } else {
        Err(FpErrorView::NoReceiver)
    }
}

/// What a read comes to from receiver slot `slot` on.
pub open spec fn finish_devices(
    fp: FingerprintView,
    slot: int,
    active: u16,
    nano: bool,
    ask: Answers,
) -> Result<FingerprintView, FpErrorView> {
    match devices_from(ask, slot, active) {
        Err(e) => Err(e),
        Ok(rest) => finish(FingerprintView { slots: fp.slots + rest, ..fp }, nano, ask),
    }
}

/// What a read comes to from the `k`-th flash page on.
pub open spec fn finish_pages(fp: FingerprintView, k: int, nano: bool, ask: Answers) -> Result<
    FingerprintView,
    FpErrorView,
> {
    match active_page(ask, k) {
        Err(e) => Err(e),
        Ok(active) => finish_devices(
            FingerprintView { d4_open: active != 0, ..fp },
            1,
            active,
            nano,
            ask,
        ),
    }
}

/// What the TI receiver with serial number `s` gives.
pub open spec fn ti_reading(s: Seq<u8>, nano: bool, ask: Answers) -> Result<
    FingerprintView,
    FpErrorView,
> {
    match firmware(ask) {
        Err(e) => Err(e),
        Ok(firmware) => finish_pages(
            FingerprintView {
                ti_present: true,
                receiver_serial: s.take(4),
                firmware,
                ..FingerprintView::blank()
            },
            0,
            nano,
            ask,
        ),
    }
}

/// What one read of the receivers comes to, where `ti` and `nano` tell which of them could be
/// opened: the fingerprint, or the first register that did not answer.
pub open spec fn reading(ti: bool, nano: bool, ask: Answers) -> Result<
    FingerprintView,
    FpErrorView,
> {
    if ti {
        match ask(0, serial_query()) {
            Reply::Silent => unresponsive("TI B5/03"@),
            Reply::Refused => unresponsive("TI B5/03 refused"@),
            Reply::Data(s) => ti_reading(s, nano, ask),
        }
    } else {
        finish(FingerprintView::blank(), nano, ask)
    }
}

/// Where a read stands: what was asked last.
#[derive(Clone, Copy, Debug)]
pub enum Stage {
    OpenTi,
    TiSerial,
    Version,
    Build,
    Page { k: u8 },
    Pairing { slot: u8 },
    Name { slot: u8 },
    Serial { slot: u8 },
    Scan { slot: u8, step: u16 },
    Record { slot: u8, step: u16, i: u16 },
    OpenNano,
    NanoSerial,
}

/// A read under way.
pub struct Reader {
    pub stage: Stage,
    /// What is known so far.
    pub fp: Fingerprint,
    /// The firmware version, as far as it is known.
    pub major: String,
    pub minor: String,
    /// The flash page with the pairing records.
    pub active: u16,
    /// Of the device at hand: the pairing register, the name, the serial number, and the first
    /// bytes of the record.
    pub pairing: Vec<u8>,
    pub name: String,
    pub serial: Vec<u8>,
    pub record: Secret,
}

/// What came of the last thing that a read asked for.
pub enum Heard {
    /// Whether the receiver could be opened.
    Opened(bool),
    Answer(Reply<Vec<u8>>),
}

/// What a read asks for next.
pub enum Next {
    /// Open the HID++ collection of this receiver.
    Open(Reader, u16),
    /// Ask the receiver that was opened last.
    Ask(Reader, Query),
    Done(Fingerprint),
    Fail(FpError),
}

/// What a read comes to once the device at hand is known.
pub open spec fn with_device(
    fp: FingerprintView,
    d: Result<SlotInfoView, FpErrorView>,
    slot: int,
    active: u16,
    nano: bool,
    ask: Answers,
) -> Result<FingerprintView, FpErrorView> {
    match d {
        Err(e) => Err(e),
        Ok(d) => finish_devices(
            FingerprintView { slots: fp.slots.push(d), ..fp },
            slot + 1,
            active,
            nano,
            ask,
        ),
    }
}

impl Reader {
    /// The question that was asked last.
    pub open spec fn query(self) -> Query {
        match self.stage {
            Stage::Version => Query::Short { reg: 0xF1, p0: 0x01 },
            Stage::Build => Query::Short { reg: 0xF1, p0: 0x02 },
            Stage::Page { k } => Query::D4 { addr: page(k as int) },
            Stage::Pairing { slot } => Query::Long { reg: 0xB5, sub: (0x20 + slot - 1) as u8 },
            Stage::Name { slot } => Query::Long { reg: 0xB5, sub: (0x40 + slot - 1) as u8 },
            Stage::Serial { slot } => Query::Long { reg: 0xB5, sub: (0x30 + slot - 1) as u8 },
            Stage::Scan { step, .. } => Query::D4 { addr: record_base(self.active, step as int) },
            Stage::Record { step, i, .. } => Query::D4 {
                addr: (record_base(self.active, step as int) + 4 + i) as u16,
            },
            _ => serial_query(),
        }
    }

    /// For what it was asked.
    pub open spec fn place(self) -> int {
        match self.stage {
            Stage::Pairing { slot } => slot as int,
            Stage::Name { slot } => slot as int,
            Stage::Serial { slot } => slot as int,
            Stage::Scan { slot, .. } => slot as int,
            Stage::Record { slot, .. } => slot as int,
            Stage::NanoSerial => nano_place(),
            _ => 0,
        }
    }

    /// A receiver is to be opened.
    pub open spec fn opening(self) -> bool {
        self.stage is OpenTi || self.stage is OpenNano
    }

    pub open spec fn wf(self) -> bool {
        let fp = self.fp@;
        let slot = self.place();
        &&& fp.wf()
        &&& fp.regular()
        &&& !fp.nano_present
        &&& match self.stage {
            Stage::OpenTi | Stage::TiSerial => fp == FingerprintView::blank(),
            Stage::Version | Stage::Build => fp.slots.len() == 0 && fp.ti_present,
            Stage::Page { k } => k < 4 && fp.slots.len() == 0 && fp.ti_present,
            Stage::Pairing { .. } => 1 <= slot <= 6 && fp.ti_present && self.active <= 0xF000,
            Stage::Name { .. } | Stage::Serial { .. } => {
                &&& 1 <= slot <= 6
                &&& self.active <= 0xF000
                &&& fp.ti_present
                &&& self.pairing@.len() == 15
                &&& self.serial@.len() < 256
            },
            Stage::Scan { step, .. } => {
                &&& 1 <= slot <= 6
                &&& fp.ti_present
                &&& self.pairing@.len() == 15
                &&& self.serial@.len() < 256
                &&& 0 < self.active <= 0xF000
                &&& step < 33
            },
            Stage::Record { step, i, .. } => {
                &&& 1 <= slot <= 6
                &&& fp.ti_present
                &&& self.pairing@.len() == 15
                &&& self.serial@.len() < 256
                &&& 0 < self.active <= 0xF000
                &&& step < 33
                &&& i < 16
                &&& self.record@.len() == i
            },
            Stage::OpenNano | Stage::NanoSerial => true,
        }
    }

    /// The device at hand, with this record.
    pub open spec fn device(self, record: Option<Seq<u8>>) -> SlotInfoView {
        device(self.place(), self.pairing@, self.name@, self.serial@, record)
    }

    /// What the read comes to from here.
    pub open spec fn outcome(self, ti: bool, nano: bool, ask: Answers) -> Result<
        FingerprintView,
        FpErrorView,
    > {
        let fp = self.fp@;
        let slot = self.place();
        match self.stage {
            Stage::OpenTi => reading(ti, nano, ask),
            Stage::TiSerial => reading(true, nano, ask),
            Stage::Version => match firmware(ask) {
                Err(e) => Err(e),
                Ok(firmware) => finish_pages(FingerprintView { firmware, ..fp }, 0, nano, ask),
            },
            Stage::Build => {
                let build = ask(0, self.query());
                if build is Silent {
                    unresponsive("TI F1/02"@)
                } else {
                    finish_pages(
                        FingerprintView {
                            firmware: firmware_text(
                                self.major@,
                                self.minor@,
                                build_text(build),
                            ),
                            ..fp
                        },
                        0,
                        nano,
                        ask,
                    )
                }
            },
            Stage::Page { k } => finish_pages(fp, k as int, nano, ask),
            Stage::Pairing { .. } => finish_devices(fp, slot, self.active, nano, ask),
            Stage::Name { .. } => with_device(
                fp,
                device_from_name(ask, slot, self.active, self.pairing@),
                slot,
                self.active,
                nano,
                ask,
            ),
            Stage::Serial { .. } => with_device(
                fp,
                device_from_serial(ask, slot, self.active, self.pairing@, self.name@),
                slot,
                self.active,
                nano,
                ask,
            ),
            Stage::Scan { step, .. } => match scan(ask, slot, self.active, step as int) {
                Err(e) => Err(e),
                Ok(r) => with_device(fp, Ok(self.device(r)), slot, self.active, nano, ask),
            },
            Stage::Record { step, i, .. } => match record_from(
                ask,
                slot,
                record_base(self.active, step as int),
                i as int,
            ) {
                Err(e) => Err(e),
                Ok(rest) => with_device(
                    fp,
                    Ok(self.device(Some(self.record@ + rest))),
                    slot,
                    self.active,
                    nano,
                    ask,
                ),
            },
            Stage::OpenNano => finish(fp, nano, ask),
            Stage::NanoSerial => finish(fp, true, ask),
        }
    }

    /// Whether `ev` is what is waited for.
    pub open spec fn awaits(self, ev: Heard) -> bool {
        match ev {
            Heard::Opened(_) => self.opening(),
            Heard::Answer(r) => {
                &&& !self.opening()
                &&& reply_fits(r, self.query())
            },
        }
    }

    /// Whether `ev` is what these receivers let hear.
    pub open spec fn hears(self, ev: Heard, ti: bool, nano: bool, ask: Answers) -> bool {
        match ev {
            Heard::Opened(ok) => ok == if self.stage is OpenTi {
                ti
            } else {
                nano
            },
            Heard::Answer(r) => ask(self.place(), self.query()) == hid::reply_view(r),
        }
    }

    /// A bound on the number of steps that are left.
    pub open spec fn left(self) -> int {
        match self.stage {
            Stage::OpenTi => 620,
            Stage::TiSerial => 610,
            Stage::Version => 600,
            Stage::Build => 599,
            Stage::Page { k } => 590 - k,
            Stage::Pairing { slot } => (7 - slot) * 60 + 10,
            Stage::Name { slot } => (7 - slot) * 60 + 9,
            Stage::Serial { slot } => (7 - slot) * 60 + 8,
            Stage::Scan { slot, step } => (7 - slot) * 60 + 7 - step,
            Stage::Record { slot, i, .. } => (7 - slot) * 60 - 26 - i,
            Stage::OpenNano => 2,
            Stage::NanoSerial => 1,
        }
    }
}

/// An answer has as many bytes as was asked for.
pub open spec fn reply_fits(r: Reply<Vec<u8>>, q: Query) -> bool {
    r matches Reply::Data(d) ==> d@.len() == q.width()
}

impl Next {
    /// What the read comes to from here.
    pub open spec fn outcome(self, ti: bool, nano: bool, ask: Answers) -> Result<
        FingerprintView,
        FpErrorView,
    > {
        match self {
            Next::Open(r, _) => r.outcome(ti, nano, ask),
            Next::Ask(r, _) => r.outcome(ti, nano, ask),
            Next::Done(fp) => Ok(fp@),
            Next::Fail(e) => Err(e@),
        }
    }

    /// What is asked for is what the state of the read says, and a fingerprint that is handed out
    /// is in order.
    pub open spec fn wf(self) -> bool {
        match self {
            Next::Open(r, pid) => {
                &&& r.wf()
                &&& r.opening()
                &&& pid == if r.stage is OpenTi {
                    TI_PID
                } else {
                    NANO_PID
                }
            },
            Next::Ask(r, q) => r.wf() && !r.opening() && q == r.query(),
            Next::Done(fp) => fp@.wf() && fp@.regular(),
            Next::Fail(_) => true,
        }
    }

    /// A bound on the number of steps that are left.
    pub open spec fn left(self) -> int {
        match self {
            Next::Open(r, _) => r.left(),
            Next::Ask(r, _) => r.left(),
            _ => 0,
        }
    }
}

/// Whether `next` carries on a read at `r` that heard `ev`: whatever the receivers are that let
/// this hear, the read comes to the same.
pub open spec fn carries_on(r: Reader, ev: Heard, next: Next) -> bool {
    &&& next.wf()
    &&& next.left() < r.left()
    &&& forall|ti: bool, nano: bool, ask: Answers|
        r.hears(ev, ti, nano, ask) ==> #[trigger] r.outcome(ti, nano, ask) == next.outcome(
            ti,
            nano,
            ask,
        )
}

fn bcd_byte(b: u8) -> (s: String)
    ensures
        s@ == bcd_text(b),
{
    text::glue(
        text::decimal((b / 16) as u64).as_str(),
        text::decimal((b % 16) as u64).as_str(),
    )
}

/// `Silent` aborts the read; `Refused` is a legitimate "no data".
fn need<T>(r: Reply<T>, what: &str) -> (res: Result<Option<T>, FpError>)
    ensures
        match r {
            Reply::Data(d) => res == Ok::<Option<T>, FpError>(Some(d)),
            Reply::Refused => res == Ok::<Option<T>, FpError>(None),
            Reply::Silent => res matches Err(e) && e@ == FpErrorView::Unresponsive(what@),
        },
{
    match r {
        Reply::Data(d) => Ok(Some(d)),
        Reply::Refused => Ok(None),
        Reply::Silent => Err(FpError::Unresponsive(text::owned(what))),
    }
}

fn version_text(major: &str, minor: &str, build: &str) -> (s: String)
    ensures
        s@ == firmware_text(major@, minor@, build@),
{
    let mut s: String = text::glue("RQR", major);
    s.append(".");
    s.append(minor);
    s.append("_B");
    s.append(build);
    s
}

fn page_at(k: u8) -> (p: u16)
    requires
        k < 4,
    ensures
        p == page(k as int),
{
    match k {
        0 => 0xE400,
        1 => 0xE800,
        2 => 0xEC00,
        _ => 0xF000,
    }
}

fn kind_label(k: u8) -> (s: String)
    ensures
        s@ == kind_text(k),
{
    match k {
        1 => text::owned("keyboard"),
        2 => text::owned("mouse"),
        _ => {
            let b: [u8; 1] = [k];
            assert(b@ =~= seq![k]);
            text::glue("kind", text::hex(b.as_slice()).as_str())
        },
    }
}

/// The first device of the rest, and the rest without it.
proof fn lemma_first_device(
    fp: FingerprintView,
    slot: int,
    active: u16,
    p: Seq<u8>,
    nano: bool,
    ask: Answers,
)
    requires
        1 <= slot <= 6,
        ask(slot, Query::Long { reg: 0xB5, sub: (0x20 + slot - 1) as u8 }) == Reply::Data(p),
    ensures
        finish_devices(fp, slot, active, nano, ask) == with_device(
            fp,
            device_from_name(ask, slot, active, p),
            slot,
            active,
            nano,
            ask,
        ),
{
    if let Ok(d) = device_from_name(ask, slot, active, p) {
        if let Ok(rest) = devices_from(ask, slot + 1, active) {
            assert(fp.slots + (seq![d] + rest) =~= fp.slots.push(d) + rest);
        }
    }
}

impl Reader {
    /// Starts a read.
    pub fn begin() -> (next: Next)
        ensures
            next.wf(),
            next is Open,
            forall|ti: bool, nano: bool, ask: Answers| #[trigger]
                next.outcome(ti, nano, ask) == reading(ti, nano, ask),
    {
        let r: Reader = Reader {
            stage: Stage::OpenTi,
            fp: Fingerprint::default(),
            major: String::new(),
            minor: String::new(),
            active: 0,
            pairing: Vec::new(),
            name: String::new(),
            serial: Vec::new(),
            record: Secret::new(Vec::new()),
        };
        Next::Open(r, TI_PID)
    }

    /// Goes on to receiver slot `slot`, or behind the last one to the Nano receiver.
    fn go_to_slot(self, slot: u8) -> (next: Next)
        requires
            1 <= slot <= 7,
            self.fp@.wf(),
            self.fp@.regular(),
            self.fp@.ti_present,
            !self.fp@.nano_present,
            self.active <= 0xF000,
        ensures
            next.wf(),
            next.left() <= (7 - slot) * 60 + 10,
            forall|ti: bool, nano: bool, ask: Answers| #[trigger]
                next.outcome(ti, nano, ask) == finish_devices(
                    self.fp@,
                    slot as int,
                    self.active,
                    nano,
                    ask,
                ),
    {
        let mut r: Reader = self;
        assert(r.fp@.slots + Seq::<SlotInfoView>::empty() =~= r.fp@.slots);
        if slot > 6 {
            r.stage = Stage::OpenNano;
            Next::Open(r, NANO_PID)
        } else {
            r.stage = Stage::Pairing { slot };
            Next::Ask(r, Query::Long { reg: 0xB5, sub: 0x20 + slot - 1 })
        }
    }

    /// The device at hand is complete.
    fn end_device(self, slot: u8, record: Option<Record>) -> (next: Next)
        requires
            1 <= slot <= 6,
            slot == self.place(),
            self.fp@.wf(),
            self.fp@.regular(),
            self.fp@.ti_present,
            !self.fp@.nano_present,
            self.active <= 0xF000,
            self.pairing@.len() == 15,
            self.serial@.len() < 256,
            record matches Some(rec) ==> rec@.len() == 16,
        ensures
            next.wf(),
            next.left() <= (6 - slot) * 60 + 10,
            forall|ti: bool, nano: bool, ask: Answers| #[trigger]
                next.outcome(ti, nano, ask) == with_device(
                    self.fp@,
                    Ok(self.device(fingerprint::record_view(record))),
                    slot as int,
                    self.active,
                    nano,
                    ask,
                ),
    {
        let mut r: Reader = self;
        let ghost before = r.fp@;
        let ghost made = self.device(fingerprint::record_view(record));
        let info: SlotInfo = SlotInfo {
            slot,
            wpid: bytes::field::<2>(r.pairing.as_slice(), 2),
            kind: kind_label(r.pairing[6]),
            name: r.name.clone(),
            serial: bytes::to_vec(r.serial.as_slice()),
            record,
        };
        assert(info@ == made);
        r.fp.slots.push(info);
        assert(r.fp@.slots =~= before.slots.push(made));
        assert forall|i: int| 0 <= i < r.fp@.slots.len() implies 1 <= (
        #[trigger] r.fp@.slots[i]).slot <= 8 by {
            if i < before.slots.len() {
                assert(r.fp@.slots[i] == before.slots[i]);
            }
        }
        assert(r.fp@.regular()) by {
            assert forall|i: int| 0 <= i < r.fp@.slots.len() implies ({
                let s = #[trigger] r.fp@.slots[i];
                &&& s.wpid.len() == 2
                &&& s.serial.len() < 256
                &&& crate::vault::slot::or_empty(s.record).len() < 256
            }) by {
                if i < before.slots.len() {
                    assert(r.fp@.slots[i] == before.slots[i]);
                }
            }
        }
        r.go_to_slot(slot + 1)
    }

    fn heard_ti_serial(self, reply: Reply<Vec<u8>>) -> (next: Next)
        requires
            self.wf(),
            self.stage is TiSerial,
            reply_fits(reply, self.query()),
        ensures
            carries_on(self, Heard::Answer(reply), next),
    {
        let mut r: Reader = self;
        match need(reply, "TI B5/03") {
            Err(e) => Next::Fail(e),
            Ok(None) => Next::Fail(FpError::Unresponsive(text::owned("TI B5/03 refused"))),
            Ok(Some(s)) => {
                r.fp.ti_present = true;
                r.fp.receiver_serial = bytes::to_vec(slice_subrange(s.as_slice(), 0, 4));
                assert(r.fp.receiver_serial@ =~= s@.take(4));
                assert(r.fp@.slots =~= self.fp@.slots);
                r.stage = Stage::Version;
                Next::Ask(r, Query::Short { reg: 0xF1, p0: 0x01 })
            },
        }
    }

    /// Goes on to the flash pages.
    fn go_to_pages(self, firmware: String) -> (next: Next)
        requires
            self.wf(),
            self.stage is Version || self.stage is Build,
        ensures
            next.wf(),
            next.left() <= 590,
            forall|ti: bool, nano: bool, ask: Answers| #[trigger]
                next.outcome(ti, nano, ask) == finish_pages(
                    FingerprintView { firmware: firmware@, ..self.fp@ },
                    0,
                    nano,
                    ask,
                ),
    {
        let mut r: Reader = self;
        r.fp.firmware = firmware;
        assert(r.fp@.slots =~= self.fp@.slots);
        r.stage = Stage::Page { k: 0 };
        Next::Ask(r, Query::D4 { addr: 0xE400 })
    }

    // Firmware: display only, never part of the material.
    fn heard_version(self, reply: Reply<Vec<u8>>) -> (next: Next)
        requires
            self.wf(),
            self.stage is Version,
            reply_fits(reply, self.query()),
        ensures
            carries_on(self, Heard::Answer(reply), next),
    {
        match need(reply, "TI F1/01") {
            Err(e) => Next::Fail(e),
            Ok(None) => self.go_to_pages(version_text("??", "??", "????")),
            Ok(Some(v)) => {
                let mut r: Reader = self;
                r.major = bcd_byte(v[1]);
                r.minor = bcd_byte(v[2]);
                r.stage = Stage::Build;
                Next::Ask(r, Query::Short { reg: 0xF1, p0: 0x02 })
            },
        }
    }

    fn heard_build(self, reply: Reply<Vec<u8>>) -> (next: Next)
        requires
            self.wf(),
            self.stage is Build,
            reply_fits(reply, self.query()),
        ensures
            carries_on(self, Heard::Answer(reply), next),
    {
        match need(reply, "TI F1/02") {
            Err(e) => Next::Fail(e),
            Ok(None) => {
                let f: String = version_text(self.major.as_str(), self.minor.as_str(), "????");
                self.go_to_pages(f)
            },
            Ok(Some(v)) => {
                let build: String = text::hex(slice_subrange(v.as_slice(), 1, 3));
                let f: String = version_text(
                    self.major.as_str(),
                    self.minor.as_str(),
                    build.as_str(),
                );
                self.go_to_pages(f)
            },
        }
    }

    fn heard_page(self, k: u8, reply: Reply<Vec<u8>>) -> (next: Next)
        requires
            self.wf(),
            self.stage == (Stage::Page { k }),
            reply_fits(reply, self.query()),
        ensures
            carries_on(self, Heard::Answer(reply), next),
    {
        let found: bool = match need(reply, "TI D4 page") {
            Err(e) => return Next::Fail(e),
            Ok(Some(b)) => b[0] == 0x3F,
            Ok(None) => false,
        };
        let mut r: Reader = self;
        if found {
            r.active = page_at(k);
            r.fp.d4_open = true;
            assert(r.fp@.slots =~= self.fp@.slots);
            r.go_to_slot(1)
        } else if k < 3 {
            r.stage = Stage::Page { k: (k + 1) as u8 };
            Next::Ask(r, Query::D4 { addr: page_at(k + 1) })
        } else {
            r.active = 0;
            r.fp.d4_open = false;
            assert(r.fp@.slots =~= self.fp@.slots);
            reveal_with_fuel(active_page, 2);
            r.go_to_slot(1)
        }
    }

    fn heard_pairing(self, slot: u8, reply: Reply<Vec<u8>>) -> (next: Next)
        requires
            self.wf(),
            self.stage == (Stage::Pairing { slot }),
            reply_fits(reply, self.query()),
        ensures
            carries_on(self, Heard::Answer(reply), next),
    {
        let mut r: Reader = self;
        match need(reply, "TI B5/2x") {
            Err(e) => Next::Fail(e),
            Ok(None) => r.go_to_slot(slot + 1),
            Ok(Some(p)) => {
                r.pairing = p;
                r.name = String::new();
                r.serial = Vec::new();
                r.stage = Stage::Name { slot };
                proof {
                    assert forall|ti: bool, nano: bool, ask: Answers|
                        self.hears(Heard::Answer(reply), ti, nano, ask) implies
                        #[trigger] self.outcome(ti, nano, ask) == r.outcome(ti, nano, ask) by {
                        lemma_first_device(self.fp@, slot as int, self.active, p@, nano, ask);
                    }
                }
                Next::Ask(r, Query::Long { reg: 0xB5, sub: 0x40 + slot - 1 })
            },
        }
    }

    fn heard_name(self, slot: u8, reply: Reply<Vec<u8>>) -> (next: Next)
        requires
            self.wf(),
            self.stage == (Stage::Name { slot }),
            reply_fits(reply, self.query()),
        ensures
            carries_on(self, Heard::Answer(reply), next),
    {
        let mut r: Reader = self;
        match need(reply, "TI B5/4x") {
            Err(e) => return Next::Fail(e),
            Ok(None) => {
                r.name = String::new();
            },
            Ok(Some(n)) => {
                let len: usize = if n[0] < 14 { n[0] as usize } else { 14 };
                r.name = text_of(slice_subrange(n.as_slice(), 1, 1 + len));
            },
        }
        r.stage = Stage::Serial { slot };
        Next::Ask(r, Query::Long { reg: 0xB5, sub: 0x30 + slot - 1 })
    }

    fn heard_serial(self, slot: u8, reply: Reply<Vec<u8>>) -> (next: Next)
        requires
            self.wf(),
            self.stage == (Stage::Serial { slot }),
            reply_fits(reply, self.query()),
        ensures
            carries_on(self, Heard::Answer(reply), next),
    {
        let mut r: Reader = self;
        match need(reply, "TI B5/3x") {
            Err(e) => return Next::Fail(e),
            Ok(None) => {
                r.serial = Vec::new();
            },
            Ok(Some(e)) => {
                r.serial = bytes::to_vec(slice_subrange(e.as_slice(), 0, 4));
                assert(r.serial@ =~= e@.take(4));
            },
        }
        if r.active == 0 {
            r.end_device(slot, None)
        } else {
            r.stage = Stage::Scan { slot, step: 0 };
            let addr: u16 = r.active + 4;
            Next::Ask(r, Query::D4 { addr })
        }
    }

    fn heard_scan(self, slot: u8, step: u16, reply: Reply<Vec<u8>>) -> (next: Next)
        requires
            self.wf(),
            self.stage == (Stage::Scan { slot, step }),
            reply_fits(reply, self.query()),
        ensures
            carries_on(self, Heard::Answer(reply), next),
    {
        let found: bool = match need(reply, "TI D4 scan") {
            Err(e) => return Next::Fail(e),
            Ok(Some(b)) => b[0] == 0x60 + (slot - 1),
            Ok(None) => false,
        };
        let mut r: Reader = self;
        if found {
            r.record = Secret::new(Vec::with_capacity(16));
            r.stage = Stage::Record { slot, step, i: 0 };
            proof {
                assert forall|rest: Seq<u8>| #[trigger] (r.record@ + rest) == rest by {
                    assert(r.record@ + rest =~= rest);
                }
            }
            let addr: u16 = r.active + 4 + 0x14 * step + 4;
            Next::Ask(r, Query::D4 { addr })
        } else if step < 32 {
            r.stage = Stage::Scan { slot, step: (step + 1) as u16 };
            let addr: u16 = r.active + 4 + 0x14 * (step + 1);
            Next::Ask(r, Query::D4 { addr })
        } else {
            reveal_with_fuel(scan, 2);
            r.end_device(slot, None)
        }
    }

    fn heard_record(self, slot: u8, step: u16, i: u16, reply: Reply<Vec<u8>>) -> (next: Next)
        requires
            self.wf(),
            self.stage == (Stage::Record { slot, step, i }),
            reply_fits(reply, self.query()),
        ensures
            carries_on(self, Heard::Answer(reply), next),
    {
        let mut r: Reader = self;
        let b: u8 = match need(reply, "TI D4 record") {
            Err(e) => return Next::Fail(e),
            Ok(None) => {
                return Next::Fail(FpError::Unresponsive(text::owned("TI D4 record refused")));
            },
            Ok(Some(b)) => b[0],
        };
        r.record.push(b);
        proof {
            assert forall|rest: Seq<u8>| #[trigger] (r.record@ + rest) == self.record@ + (seq![b]
                + rest) by {
                assert(r.record@ + rest =~= self.record@ + (seq![b] + rest));
            }
        }
        if i < 15 {
            r.stage = Stage::Record { slot, step, i: (i + 1) as u16 };
            let addr: u16 = r.active + 4 + 0x14 * step + 4 + (i + 1);
            Next::Ask(r, Query::D4 { addr })
        } else {
            reveal_with_fuel(record_from, 2);
            assert(r.record@ + Seq::<u8>::empty() =~= r.record@);
            let record: Option<Record> = Record::from_secret(r.record.clone());
            r.end_device(slot, record)
        }
    }

    fn heard_nano_serial(self, reply: Reply<Vec<u8>>) -> (next: Next)
        requires
            self.wf(),
            self.stage is NanoSerial,
            reply_fits(reply, self.query()),
        ensures
            carries_on(self, Heard::Answer(reply), next),
    {
        match need(reply, "Nano B5/03") {
            Err(e) => Next::Fail(e),
            Ok(None) => Next::Fail(FpError::Unresponsive(text::owned("Nano B5/03 refused"))),
            Ok(Some(s)) => {
                let mut fp: Fingerprint = self.fp;
                fp.nano_present = true;
                fp.nano_serial = bytes::to_vec(slice_subrange(s.as_slice(), 0, 4));
                assert(fp.nano_serial@ =~= s@.take(4));
                assert(fp@.slots =~= self.fp@.slots);
                Next::Done(fp)
            },
        }
    }

    fn heard_opened(self, ok: bool) -> (next: Next)
        requires
            self.wf(),
            self.opening(),
        ensures
            carries_on(self, Heard::Opened(ok), next),
    {
        let mut r: Reader = self;
        match r.stage {
            Stage::OpenTi => {
                if ok {
                    r.stage = Stage::TiSerial;
                    Next::Ask(r, Query::Long { reg: 0xB5, sub: 0x03 })
                } else {
                    r.stage = Stage::OpenNano;
                    Next::Open(r, NANO_PID)
                }
            },
            _ => {
                if ok {
                    r.stage = Stage::NanoSerial;
                    Next::Ask(r, Query::Long { reg: 0xB5, sub: 0x03 })
                } else if r.fp.ti_present {
                    Next::Done(r.fp)
                } else {
                    Next::Fail(FpError::NoReceiver)
                }
            },
        }
    }

    /// Takes in what came of the last thing that was asked for.
    pub fn step(self, ev: Heard) -> (next: Next)
        requires
            self.wf(),
            self.awaits(ev),
        ensures
            carries_on(self, ev, next),
    {
        match ev {
            Heard::Opened(ok) => self.heard_opened(ok),
            Heard::Answer(reply) => match self.stage {
                Stage::Version => self.heard_version(reply),
                Stage::Build => self.heard_build(reply),
                Stage::Page { k } => self.heard_page(k, reply),
                Stage::Pairing { slot } => self.heard_pairing(slot, reply),
                Stage::Name { slot } => self.heard_name(slot, reply),
                Stage::Serial { slot } => self.heard_serial(slot, reply),
                Stage::Scan { slot, step } => self.heard_scan(slot, step, reply),
                Stage::Record { slot, step, i } => self.heard_record(slot, step, i, reply),
                Stage::NanoSerial => self.heard_nano_serial(reply),
                _ => self.heard_ti_serial(reply),
            },
        }
    }
}

/// Whether the registers of a receiver slot that are asked for all answered.
pub open spec fn slot_answered(ask: Answers, slot: int) -> bool {
    let p = ask(slot, Query::Long { reg: 0xB5, sub: (0x20 + slot - 1) as u8 });
    &&& !(p is Silent)
    &&& p is Data ==> {
        &&& !(ask(slot, Query::Long { reg: 0xB5, sub: (0x40 + slot - 1) as u8 }) is Silent)
        &&& !(ask(slot, Query::Long { reg: 0xB5, sub: (0x30 + slot - 1) as u8 }) is Silent)
    }
}

proof fn lemma_devices_answered(ask: Answers, slot: int, active: u16)
    requires
        1 <= slot <= 7,
        devices_from(ask, slot, active) is Ok,
    ensures
        forall|n: int| slot <= n <= 6 ==> #[trigger] slot_answered(ask, n),
        active != 0 ==> forall|n: int|
            slot <= n <= 6 && ask(n, Query::Long { reg: 0xB5, sub: (0x20 + n - 1) as u8 }) is Data
                ==> #[trigger] scan(ask, n, active, 0) is Ok,
    decreases 7 - slot,
{
    if slot <= 6 {
        lemma_devices_answered(ask, slot + 1, active);
    }
}

/// A read that succeeds skipped no receiver and guessed at no register: every receiver that could
/// be opened is in the fingerprint, every register that was asked answered or refused, and where
/// the flash can be read, the search for the record of every device came to an end.
pub proof fn law_silence_aborts(ti: bool, nano: bool, ask: Answers)
    requires
        reading(ti, nano, ask) is Ok,
    ensures
        ti || nano,
        reading(ti, nano, ask)->Ok_0.ti_present == ti,
        reading(ti, nano, ask)->Ok_0.nano_present == nano,
        ti ==> ask(0, serial_query()) is Data,
        nano ==> ask(nano_place(), serial_query()) is Data,
        ti ==> firmware(ask) is Ok,
        ti ==> active_page(ask, 0) is Ok,
        ti ==> forall|n: int| 1 <= n <= 6 ==> #[trigger] slot_answered(ask, n),
        ti && active_page(ask, 0)->Ok_0 != 0 ==> forall|n: int|
            1 <= n <= 6 && ask(n, Query::Long { reg: 0xB5, sub: (0x20 + n - 1) as u8 }) is Data
                ==> #[trigger] scan(ask, n, active_page(ask, 0)->Ok_0, 0) is Ok,
{
    if ti {
        lemma_devices_answered(ask, 1, active_page(ask, 0)->Ok_0);
    }
}

/// The flash byte at `addr`, as it is told for receiver slot `n`.
pub open spec fn flash_byte(ask: Answers, n: int, addr: int) -> Option<u8> {
    match ask(n, Query::D4 { addr: addr as u16 }) {
        Reply::Data(b) => Some(b[0]),
        _ => None,
    }
}

/// Whether the flash page at `pg` is the one that is marked as holding the pairing records: the
/// first of the four that answers 3F; 0, if none does.
pub open spec fn is_active(ask: Answers, pg: u16) -> bool {
    let marked = |p: int| flash_byte(ask, 0, p) == Some(0x3Fu8);
    &&& pg == 0xE400 || pg == 0xE800 || pg == 0xEC00 || pg == 0xF000 || pg == 0
    &&& pg != 0 ==> marked(pg as int)
    &&& pg != 0xE400 ==> !marked(0xE400)
    &&& pg != 0xE400 && pg != 0xE800 ==> !marked(0xE800)
    &&& pg != 0xE400 && pg != 0xE800 && pg != 0xEC00 ==> !marked(0xEC00)
    &&& pg == 0 ==> !marked(0xF000)
}

/// Whether place `k` of the page at `pg` holds the marker of receiver slot `n`: 60 for slot 1, and
/// so on to 65 for slot 6.
pub open spec fn marked_at(ask: Answers, n: int, pg: u16, k: int) -> bool {
    flash_byte(ask, n, pg + 4 + 20 * k) == Some((0x5F + n) as u8)
}

/// Whether `r` are the 16 bytes that stand four bytes behind the marker at place `k`.
pub open spec fn record_at(ask: Answers, n: int, pg: u16, k: int, r: Seq<u8>) -> bool {
    &&& r.len() == 16
    &&& forall|j: int|
        0 <= j < 16 ==> flash_byte(ask, n, pg + 8 + 20 * k + j) == Some(#[trigger] r[j])
}

/// Whether `r` is the pairing record of receiver slot `n`: the one behind the first of the 33 places
/// of the page that holds its marker, and none only if no place does.
pub open spec fn is_record(ask: Answers, n: int, pg: u16, r: Option<Seq<u8>>) -> bool {
    match r {
        None => pg == 0 || forall|k: int| 0 <= k < 33 ==> !#[trigger] marked_at(ask, n, pg, k),
        Some(r) => pg != 0 && exists|k: int|
            {
                &&& 0 <= k < 33
                &&& #[trigger] marked_at(ask, n, pg, k)
                &&& forall|j: int| 0 <= j < k ==> !#[trigger] marked_at(ask, n, pg, j)
                &&& record_at(ask, n, pg, k, r)
            },
    }
}

/// Whether place `k` of the page at `pg` stayed silent.
pub open spec fn silent_at(ask: Answers, n: int, pg: u16, k: int) -> bool {
    ask(n, Query::D4 { addr: (pg + 4 + 20 * k) as u16 }) is Silent
}

/// Whether no place that was looked at for the record of receiver slot `n` stayed silent: none up to
/// the one with its marker.
pub open spec fn places_answered(ask: Answers, n: int, pg: u16) -> bool {
    forall|k: int|
        pg != 0 && 0 <= k < 33 && #[trigger] silent_at(ask, n, pg, k) ==> exists|j: int|
            0 <= j < k && #[trigger] marked_at(ask, n, pg, j)
}

/// What the pairing register of receiver slot `n` answers.
pub open spec fn pairing(ask: Answers, n: int) -> Reply<Seq<u8>> {
    ask(n, Query::Long { reg: 0xB5, sub: (0x1F + n) as u8 })
}

/// Whether `d` is the device in receiver slot `d.slot`, as its registers tell: the pairing register
/// B5/20, the name register B5/40 and the serial register B5/30 of the first slot, and so on for the
/// others, and the flash.
pub open spec fn is_device(ask: Answers, pg: u16, d: SlotInfoView) -> bool {
    let n = d.slot as int;
    &&& pairing(ask, n) matches Reply::Data(p) && {
        &&& d.wpid == p.subrange(2, 4)
        &&& p[6] == 1 ==> d.kind == "keyboard"@
        &&& p[6] == 2 ==> d.kind == "mouse"@
        &&& p[6] != 1 && p[6] != 2 ==> d.kind == "kind"@ + text::hex_text(seq![p[6]])
    }
    &&& match ask(n, Query::Long { reg: 0xB5, sub: (0x3F + n) as u8 }) {
        Reply::Silent => false,
        Reply::Refused => d.name.len() == 0,
        Reply::Data(t) => d.name == utf8_lossy(
            t.subrange(1, if t[0] <= 14 { t[0] as int } else { 14 } + 1),
        ),
    }
    &&& match ask(n, Query::Long { reg: 0xB5, sub: (0x2F + n) as u8 }) {
        Reply::Silent => false,
        Reply::Refused => d.serial.len() == 0,
        Reply::Data(t) => d.serial == t.take(4),
    }
    &&& is_record(ask, n, pg, d.record)
    &&& places_answered(ask, n, pg)
}

/// What a read that succeeds with the TI receiver tells is what the registers hold: the serial
/// numbers, the devices in the slots whose pairing register answers, in the order of the slots, and
/// of each device its fields and its pairing record. Nothing that was asked stayed silent.
pub proof fn law_read_tells_the_registers(nano: bool, ask: Answers, fp: FingerprintView)
    requires
        reading(true, nano, ask) == Ok::<FingerprintView, FpErrorView>(fp),
    ensures
        fp.ti_present,
        fp.nano_present == nano,
        ask(0, Query::Long { reg: 0xB5, sub: 0x03 }) matches Reply::Data(s) && fp.receiver_serial
            == s.take(4),
        nano ==> (ask(7, Query::Long { reg: 0xB5, sub: 0x03 }) matches Reply::Data(s)
            && fp.nano_serial == s.take(4)),
        forall|i: int| 0 <= i < fp.slots.len() ==> 1 <= (#[trigger] fp.slots[i]).slot <= 6,
        forall|i: int, j: int|
            0 <= i < j < fp.slots.len() ==> (#[trigger] fp.slots[i]).slot < (
            #[trigger] fp.slots[j]).slot,
        forall|n: int|
            1 <= n <= 6 ==> !((#[trigger] pairing(ask, n)) is Silent) && (fingerprint::has_device(
                fp.slots,
                n as u8,
            ) <==> pairing(ask, n) is Data),
        exists|pg: u16| #[trigger]
            is_active(ask, pg) && (fp.d4_open <==> pg != 0) && forall|i: int|
                0 <= i < fp.slots.len() ==> is_device(ask, pg, #[trigger] fp.slots[i]),
        !(ask(0, Query::Short { reg: 0xF1, p0: 0x01 }) is Silent),
        ask(0, Query::Short { reg: 0xF1, p0: 0x01 }) is Data ==> !(ask(
            0,
            Query::Short { reg: 0xF1, p0: 0x02 },
        ) is Silent),
{
    let active = active_page(ask, 0)->Ok_0;
    lemma_active(ask);
    lemma_devices_read(ask, 1, active);
    let ds = devices_from(ask, 1, active)->Ok_0;
    assert(fp.slots =~= ds);
}

proof fn lemma_active(ask: Answers)
    ensures
        active_page(ask, 0) matches Ok(pg) ==> is_active(ask, pg),
{
    reveal_with_fuel(active_page, 5);
}

proof fn lemma_record_read(ask: Answers, n: int, base: u16, i: int)
    requires
        0 <= i <= 16,
        base < 0xFF00,
    ensures
        record_from(ask, n, base, i) matches Ok(r) ==> r.len() == 16 - i && forall|j: int|
            0 <= j < 16 - i ==> flash_byte(ask, n, base + 4 + i + j) == Some(#[trigger] r[j]),
    decreases 16 - i,
{
    if i < 16 {
        lemma_record_read(ask, n, base, i + 1);
        if let Ok(r) = record_from(ask, n, base, i) {
            let rest = record_from(ask, n, base, i + 1)->Ok_0;
            assert forall|j: int| 0 <= j < 16 - i implies flash_byte(ask, n, base + 4 + i + j)
                == Some(#[trigger] r[j]) by {
                if j > 0 {
                    assert(r[j] == rest[j - 1]);
                    assert(base + 4 + (i + 1) + (j - 1) == base + 4 + i + j);
                }
            }
        }
    }
}

proof fn lemma_scan(ask: Answers, n: int, pg: u16, step: int)
    requires
        1 <= n <= 6,
        0 < pg <= 0xF000,
        0 <= step <= 33,
        forall|j: int| 0 <= j < step ==> !#[trigger] marked_at(ask, n, pg, j),
        forall|j: int| 0 <= j < step ==> !#[trigger] silent_at(ask, n, pg, j),
    ensures
        scan(ask, n, pg, step) matches Ok(r) ==> is_record(ask, n, pg, r) && places_answered(
            ask,
            n,
            pg,
        ),
    decreases 33 - step,
{
    if step < 33 {
        assert(record_base(pg, step) == (pg + 4 + 20 * step) as u16);
        if marked_at(ask, n, pg, step) {
            let base = record_base(pg, step);
            lemma_record_read(ask, n, base, 0);
            if let Ok(r) = record_from(ask, n, base, 0) {
                assert(record_at(ask, n, pg, step, r)) by {
                    assert forall|j: int| 0 <= j < 16 implies flash_byte(
                        ask,
                        n,
                        pg + 8 + 20 * step + j,
                    ) == Some(#[trigger] r[j]) by {
                        assert(base + 4 + 0 + j == pg + 8 + 20 * step + j);
                    }
                }
            }
        } else if !silent_at(ask, n, pg, step) {
            lemma_scan(ask, n, pg, step + 1);
        }
    }
}

proof fn lemma_device_read(ask: Answers, n: int, pg: u16)
    requires
        1 <= n <= 6,
        pg <= 0xF000,
    ensures
        device_in(ask, n, pg) matches Ok(Some(d)) ==> d.slot == n && is_device(ask, pg, d),
        device_in(ask, n, pg) matches Ok(d) ==> (d is Some <==> pairing(ask, n) is Data),
        pairing(ask, n) is Silent ==> device_in(ask, n, pg) is Err,
{
    if pg != 0 {
        lemma_scan(ask, n, pg, 0);
    }
    if let Ok(Some(d)) = device_in(ask, n, pg) {
        assert(d.slot == n);
    }
}

proof fn lemma_devices_read(ask: Answers, slot: int, pg: u16)
    requires
        1 <= slot <= 7,
        pg <= 0xF000,
    ensures
        devices_from(ask, slot, pg) matches Ok(ds) ==> {
            &&& forall|i: int|
                0 <= i < ds.len() ==> slot <= (#[trigger] ds[i]).slot <= 6 && is_device(
                    ask,
                    pg,
                    ds[i],
                )
            &&& forall|i: int, j: int|
                0 <= i < j < ds.len() ==> (#[trigger] ds[i]).slot < (#[trigger] ds[j]).slot
            &&& forall|n: int|
                slot <= n <= 6 ==> !((#[trigger] pairing(ask, n)) is Silent) && (
                fingerprint::has_device(ds, n as u8) <==> pairing(ask, n) is Data)
        },
    decreases 7 - slot,
{
    if slot <= 6 {
        lemma_device_read(ask, slot, pg);
        lemma_devices_read(ask, slot + 1, pg);
        if let Ok(ds) = devices_from(ask, slot, pg) {
            let d = device_in(ask, slot, pg)->Ok_0;
            let rest = devices_from(ask, slot + 1, pg)->Ok_0;
            if d is Some {
                assert(ds[0] == d->0);
                assert forall|i: int| 1 <= i < ds.len() implies #[trigger] ds[i] == rest[i - 1] by {
                }
                assert forall|i: int| 0 <= i < rest.len() implies #[trigger] rest[i] == ds[i
                    + 1] by {
                }
            }
            assert forall|m: int| slot <= m <= 6 implies !((#[trigger] pairing(ask, m)) is Silent)
                && (fingerprint::has_device(ds, m as u8) <==> pairing(ask, m) is Data) by {
                let n = m as u8;
                if m == slot {
                    if d is Some {
                        assert(ds[0].slot == n);
                    }
                } else {
                    assert(fingerprint::has_device(rest, n) <==> fingerprint::has_device(ds, n)) by {
                        if fingerprint::has_device(rest, n) {
                            let i = choose|i: int|
                                0 <= i < rest.len() && (#[trigger] rest[i]).slot == n;
                            if d is Some {
                                assert(ds[i + 1].slot == n);
                            }
                        }
                        if fingerprint::has_device(ds, n) && d is Some {
                            let i = choose|i: int|
                                0 <= i < ds.len() && (#[trigger] ds[i]).slot == n;
                            assert(rest[i - 1].slot == n);
                        }
                    }
                }
            }
        }
    }
}

/// Without the TI receiver the Nano receiver alone is told, and without either there is nothing to
/// read.
pub proof fn law_read_without_ti(nano: bool, ask: Answers)
    ensures
        reading(false, false, ask) == Err::<FingerprintView, FpErrorView>(FpErrorView::NoReceiver),
        match ask(7, Query::Long { reg: 0xB5, sub: 0x03 }) {
            Reply::Data(s) => reading(false, true, ask) matches Ok(fp) && !fp.ti_present
                && fp.nano_present && fp.slots.len() == 0 && fp.nano_serial == s.take(4),
            Reply::Refused => reading(false, true, ask) == Err::<FingerprintView, FpErrorView>(
                FpErrorView::Unresponsive("Nano B5/03 refused"@),
            ),
            Reply::Silent => reading(false, true, ask) == Err::<FingerprintView, FpErrorView>(
                FpErrorView::Unresponsive("Nano B5/03"@),
            ),
        },
{
}

/// A read succeeds where nothing stays silent, the serial numbers are given, and the flash, if it
/// can be read, is read throughout.
pub proof fn law_read_succeeds(ti: bool, nano: bool, ask: Answers)
    requires
        ti || nano,
        forall|n: int, q: Query| !((#[trigger] ask(n, q)) is Silent),
        ti ==> ask(0, Query::Long { reg: 0xB5, sub: 0x03 }) is Data,
        nano ==> ask(7, Query::Long { reg: 0xB5, sub: 0x03 }) is Data,
        is_active(ask, 0) || forall|n: int, addr: u16|
            1 <= n <= 6 ==> (#[trigger] ask(n, Query::D4 { addr })) is Data,
    ensures
        reading(ti, nano, ask) is Ok,
{
    if ti {
        reveal_with_fuel(active_page, 5);
        lemma_active(ask);
        lemma_devices_come(ask, 1, active_page(ask, 0)->Ok_0);
    }
}

proof fn lemma_record_comes(ask: Answers, n: int, base: u16, i: int)
    requires
        1 <= n <= 6,
        0 <= i,
        forall|n: int, addr: u16| 1 <= n <= 6 ==> (#[trigger] ask(n, Query::D4 { addr })) is Data,
    ensures
        record_from(ask, n, base, i) is Ok,
    decreases 16 - i,
{
    if i < 16 {
        lemma_record_comes(ask, n, base, i + 1);
    }
}

proof fn lemma_scan_comes(ask: Answers, n: int, pg: u16, step: int)
    requires
        1 <= n <= 6,
        0 <= step,
        forall|n: int, addr: u16| 1 <= n <= 6 ==> (#[trigger] ask(n, Query::D4 { addr })) is Data,
    ensures
        scan(ask, n, pg, step) is Ok,
    decreases 33 - step,
{
    if step < 33 {
        lemma_record_comes(ask, n, record_base(pg, step), 0);
        lemma_scan_comes(ask, n, pg, step + 1);
    }
}

proof fn lemma_devices_come(ask: Answers, slot: int, pg: u16)
    requires
        1 <= slot <= 7,
        forall|n: int, q: Query| !((#[trigger] ask(n, q)) is Silent),
        pg == 0 || forall|n: int, addr: u16|
            1 <= n <= 6 ==> (#[trigger] ask(n, Query::D4 { addr })) is Data,
    ensures
        devices_from(ask, slot, pg) is Ok,
    decreases 7 - slot,
{
    if slot <= 6 {
        if pg != 0 {
            lemma_scan_comes(ask, slot, pg, 0);
        }
        lemma_devices_come(ask, slot + 1, pg);
    }
}

/// The firmware version is told by the registers F1/01 and F1/02, in decimal and hexadecimal
/// digits, with question marks for what is refused.
pub proof fn law_firmware_told(nano: bool, ask: Answers, fp: FingerprintView)
    requires
        reading(true, nano, ask) == Ok::<FingerprintView, FpErrorView>(fp),
    ensures
        match (
            ask(0, Query::Short { reg: 0xF1, p0: 0x01 }),
            ask(0, Query::Short { reg: 0xF1, p0: 0x02 }),
        ) {
            (Reply::Data(v), Reply::Data(b)) => fp.firmware == "RQR"@ + (text::decimal_text(
                (v[1] / 16) as nat,
            ) + text::decimal_text((v[1] % 16) as nat)) + "."@ + (text::decimal_text(
                (v[2] / 16) as nat,
            ) + text::decimal_text((v[2] % 16) as nat)) + "_B"@ + text::hex_text(b.subrange(1, 3)),
            (Reply::Refused, _) => fp.firmware == "RQR"@ + "??"@ + "."@ + "??"@ + "_B"@ + "????"@,
            (Reply::Data(v), _) => fp.firmware == "RQR"@ + (text::decimal_text((v[1] / 16) as nat)
                + text::decimal_text((v[1] % 16) as nat)) + "."@ + (text::decimal_text(
                (v[2] / 16) as nat,
            ) + text::decimal_text((v[2] % 16) as nat)) + "_B"@ + "????"@,
            (Reply::Silent, _) => false,
        },
{
}

/// What is read is in order for comparing it with another read.
pub proof fn law_read_in_order(ti: bool, nano: bool, ask: Answers, fp: FingerprintView)
    requires
        reading(ti, nano, ask) == Ok::<FingerprintView, FpErrorView>(fp),
        forall|n: int, q: Query|
            (#[trigger] ask(n, q)) matches Reply::Data(d) ==> d.len() == q.width(),
    ensures
        collect::in_order(fp),
{
    if ti {
        law_read_tells_the_registers(nano, ask, fp);
        let pg = choose|pg: u16| #[trigger]
            is_active(ask, pg) && (fp.d4_open <==> pg != 0) && forall|i: int|
                0 <= i < fp.slots.len() ==> is_device(ask, pg, #[trigger] fp.slots[i]);
        assert forall|i: int| 0 <= i < fp.slots.len() implies {
            let s = #[trigger] fp.slots[i];
            &&& s.wpid.len() == 2
            &&& s.serial.len() <= 4
            &&& s.record is Some ==> s.record->0.len() == 16
        } by {
            assert(is_device(ask, pg, fp.slots[i]));
        }
    }
}

/// The first thing that stays silent is what a failed read names: of the TI receiver its serial
/// number, its firmware version, the flash pages; a serial number that is refused is named too. An
/// attached Nano receiver is read last.
pub proof fn law_failures_named(nano: bool, ask: Answers)
    ensures
        ({
            let serial = ask(0, Query::Long { reg: 0xB5, sub: 0x03 });
            let version = ask(0, Query::Short { reg: 0xF1, p0: 0x01 });
            let build = ask(0, Query::Short { reg: 0xF1, p0: 0x02 });
            let r = reading(true, nano, ask);
            &&& serial is Silent ==> fails(r, "TI B5/03"@)
            &&& serial is Refused ==> fails(r, "TI B5/03 refused"@)
            &&& serial is Data && version is Silent ==> fails(r, "TI F1/01"@)
            &&& serial is Data && version is Data && build is Silent ==> fails(r, "TI F1/02"@)
            &&& serial is Data && (version is Refused || version is Data && !(build is Silent))
                && ask(0, Query::D4 { addr: 0xE400 }) is Silent ==> fails(r, "TI D4 page"@)
        }),
        reading(true, false, ask) matches Ok(fp) ==> match ask(
            7,
            Query::Long { reg: 0xB5, sub: 0x03 },
        ) {
            Reply::Silent => fails(reading(true, true, ask), "Nano B5/03"@),
            Reply::Refused => fails(reading(true, true, ask), "Nano B5/03 refused"@),
            Reply::Data(s) => reading(true, true, ask) == Ok::<FingerprintView, FpErrorView>(
                FingerprintView { nano_present: true, nano_serial: s.take(4), ..fp },
            ),
        },
{
    reveal_with_fuel(active_page, 2);
}

/// Whether a read failed because `what` did not answer.
pub open spec fn fails(r: Result<FingerprintView, FpErrorView>, what: Seq<char>) -> bool {
    r == Err::<FingerprintView, FpErrorView>(FpErrorView::Unresponsive(what))
}

/// Whether place `k` of the page at `pg` is passed by in the search for the record of slot `n`: it
/// answers, and holds another marker.
pub open spec fn passed_by(ask: Answers, n: int, pg: u16, k: int) -> bool {
    !marked_at(ask, n, pg, k) && !silent_at(ask, n, pg, k)
}

/// Whether reading a device failed because `what` did not answer.
pub open spec fn device_fails(d: Result<Option<SlotInfoView>, FpErrorView>, what: Seq<char>) -> bool {
    d == Err::<Option<SlotInfoView>, FpErrorView>(FpErrorView::Unresponsive(what))
}

/// What fails about a device: its pairing register, its name, its serial number, the search for its
/// record, or a byte of the record.
pub proof fn law_device_failures_named(ask: Answers, n: int, pg: u16, k: int)
    requires
        1 <= n <= 6,
        0 < pg <= 0xF000,
        0 <= k < 33,
        forall|j: int| 0 <= j < k ==> #[trigger] passed_by(ask, n, pg, j),
    ensures
        ({
            let d = device_in(ask, n, pg);
            let name = ask(n, Query::Long { reg: 0xB5, sub: (0x3F + n) as u8 });
            let serial = ask(n, Query::Long { reg: 0xB5, sub: (0x2F + n) as u8 });
            let known = pairing(ask, n) is Data && !(name is Silent) && !(serial is Silent);
            &&& pairing(ask, n) is Silent ==> device_fails(d, "TI B5/2x"@)
            &&& pairing(ask, n) is Refused ==> d == Ok::<Option<SlotInfoView>, FpErrorView>(None)
            &&& pairing(ask, n) is Data && name is Silent ==> device_fails(d, "TI B5/4x"@)
            &&& pairing(ask, n) is Data && !(name is Silent) && serial is Silent ==> device_fails(
                d,
                "TI B5/3x"@,
            )
            &&& known && silent_at(ask, n, pg, k) ==> device_fails(d, "TI D4 scan"@)
            &&& known && marked_at(ask, n, pg, k) ==> match ask(
                n,
                Query::D4 { addr: (pg + 8 + 20 * k) as u16 },
            ) {
                Reply::Silent => device_fails(d, "TI D4 record"@),
                Reply::Refused => device_fails(d, "TI D4 record refused"@),
                Reply::Data(_) => true,
            }
        }),
{
    lemma_skip(ask, n, pg, 0, k);
    assert(record_base(pg, k) == (pg + 4 + 20 * k) as u16);
    assert((record_base(pg, k) + 4 + 0) as u16 == (pg + 8 + 20 * k) as u16);
    reveal_with_fuel(record_from, 2);
}

proof fn lemma_skip(ask: Answers, n: int, pg: u16, from: int, k: int)
    requires
        1 <= n <= 6,
        0 < pg <= 0xF000,
        0 <= from <= k <= 33,
        forall|j: int| from <= j < k ==> #[trigger] passed_by(ask, n, pg, j),
    ensures
        scan(ask, n, pg, from) == scan(ask, n, pg, k),
    decreases k - from,
{
    if from < k {
        assert(passed_by(ask, n, pg, from));
        assert(record_base(pg, from) == (pg + 4 + 20 * from) as u16);
        lemma_skip(ask, n, pg, from + 1, k);
    }
}

/// Whether `ev` is what came of the thing that a read asked for: whether the receiver with this
/// product id could be opened, or what it answers to this question.
pub open spec fn came_of(next: Next, ev: Heard, ti: bool, nano: bool, ask: Answers) -> bool {
    match (next, ev) {
        (Next::Open(_, pid), Heard::Opened(ok)) => {
            &&& pid == 0xC52B ==> ok == ti
            &&& pid == 0xC52F ==> ok == nano
        },
        (Next::Ask(r, q), Heard::Answer(reply)) => match reply {
            Reply::Data(d) => ask(r.place(), q) == Reply::Data(d@),
            Reply::Refused => ask(r.place(), q) == Reply::<Seq<u8>>::Refused,
            Reply::Silent => ask(r.place(), q) == Reply::<Seq<u8>>::Silent,
        },
        _ => false,
    }
}

/// Whether `after` is a step of the read that stands at `next` and hears `ev`.
pub open spec fn follows(next: Next, ev: Heard, after: Next) -> bool {
    match next {
        Next::Open(r, _) => carries_on(r, ev, after),
        Next::Ask(r, _) => carries_on(r, ev, after),
        _ => false,
    }
}

/// A read that asks step by step, and hears what the receivers let hear, ends with what reading them
/// comes to, and with nothing else.
pub proof fn law_steps_come_to_the_reading(
    steps: Seq<Next>,
    evs: Seq<Heard>,
    ti: bool,
    nano: bool,
    ask: Answers,
)
    requires
        steps.len() == evs.len() + 1,
        steps[0].wf(),
        steps[0].outcome(ti, nano, ask) == reading(ti, nano, ask),
        forall|i: int|
            0 <= i < evs.len() ==> follows(#[trigger] steps[i], evs[i], steps[i + 1]) && came_of(
                steps[i],
                evs[i],
                ti,
                nano,
                ask,
            ),
    ensures
        steps.last() matches Next::Done(fp) ==> reading(ti, nano, ask) == Ok::<
            FingerprintView,
            FpErrorView,
        >(fp@),
        steps.last() matches Next::Fail(e) ==> reading(ti, nano, ask) == Err::<
            FingerprintView,
            FpErrorView,
        >(e@),
        steps.last().wf(),
        steps.last().outcome(ti, nano, ask) == reading(ti, nano, ask),
    decreases evs.len(),
{
    if evs.len() > 0 {
        let (s, v) = (steps.drop_last(), evs.drop_last());
        let i = evs.len() - 1;
        assert forall|j: int| 0 <= j < v.len() implies follows(#[trigger] s[j], v[j], s[j + 1])
            && came_of(s[j], v[j], ti, nano, ask) by {
            assert(s[j] == steps[j]);
            assert(follows(steps[j], evs[j], steps[j + 1]));
        }
        law_steps_come_to_the_reading(s, v, ti, nano, ask);
        assert(s.last() == steps[i]);
        assert(follows(steps[i], evs[i], steps[i + 1]));
        assert(came_of(steps[i], evs[i], ti, nano, ask));
        match steps[i] {
            Next::Open(r, pid) => {
                assert(r.hears(evs[i], ti, nano, ask));
                assert(r.outcome(ti, nano, ask) == steps[i + 1].outcome(ti, nano, ask));
            },
            Next::Ask(r, q) => {
                assert(r.hears(evs[i], ti, nano, ask));
                assert(r.outcome(ti, nano, ask) == steps[i + 1].outcome(ti, nano, ask));
            },
            _ => {},
        }
    }
}

} // verus!
