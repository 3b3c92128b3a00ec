//! Receiver fingerprint: everything a dongle keyslot can bind to.
//!
//! TI Unifying (CU-0008) primary, Nano (CU-0010) as second possession factor. Material
//! (`uniseal-fp-v1`) for a given `(dongles, bind)` selection, every variable field length-prefixed:
//! ```text
//! "uniseal-fp-v1" dongles(1) bind(1)
//! [TI]   pid(2) serial(4) { slot(1) wpid(2) len(1) serial len(1) record }  for each slot in bind
//! [Nano] pid(2) serial(4)
//! ```
//! `record` is the 16-byte pairing record read through the D4 register on firmwares that still
//! expose it: receiver serial, device WPID, receiver WPID (8808) and the two 4-byte pairing nonces.
//! That is the input of the AES link key derivation, not the key itself: 64 fresh bits per device.
//! `bind` selects which receiver slots take part (0 = receiver alone), so a vault can survive
//! pairing new devices. Firmware version deliberately EXCLUDED, and so is the Nano "rfs" scratch
//! byte (register 0x03): it was measured to reset to 0x00 on every power cycle, so binding to it
//! would brick vaults at the next unplug.
//!
//! Robustness rules: a timeout on any register aborts the read (never substitute zeros or skip a
//! receiver), and a fingerprint is handed out only after two consecutive identical reads.

pub mod bind;
pub mod collect;
pub mod read;

pub use bind::parse_bind;

use crate::bytes;
use crate::hid::{NANO_PID, TI_PID};
use crate::text;
use crate::vault::crypto;
use crate::vault::{Dongle, DongleSource, Secret};
use crate::vault::label;
use crate::vault::slot;
use vstd::prelude::*;
use vstd::string::*;

verus! {

#[derive(Debug, Clone, PartialEq, Eq)]
pub enum FpError {
    NoReceiver,
    Unresponsive(String),
    Unstable,
}

/// A fingerprint error, with its text as a character sequence.
pub enum FpErrorView {
    NoReceiver,
    Unresponsive(Seq<char>),
    Unstable,
}

impl View for FpError {
    type V = FpErrorView;

    open spec fn view(&self) -> FpErrorView {
        match self {
            FpError::NoReceiver => FpErrorView::NoReceiver,
            FpError::Unresponsive(w) => FpErrorView::Unresponsive(w@),
            FpError::Unstable => FpErrorView::Unstable,
        }
    }
}

impl FpErrorView {
    /// The message shown to the user.
    pub open spec fn text(self) -> Seq<char> {
        match self {
            FpErrorView::NoReceiver => "no supported receiver (CU-0008 / CU-0010)"@,
            FpErrorView::Unresponsive(w) => "receiver did not answer ("@ + w
                + "); close Solaar / Logi Options and retry"@,
            FpErrorView::Unstable =>
                "fingerprint differed between consecutive reads; refusing to use it"@,
        }
    }
}

impl FpError {
    /// The message shown to the user.
    pub fn message(&self) -> (s: String)
        ensures
            s@ == self@.text(),
    {
        match self {
            FpError::NoReceiver => text::owned("no supported receiver (CU-0008 / CU-0010)"),
            FpError::Unresponsive(w) => {
                let mut s: String = text::glue("receiver did not answer (", w.as_str());
                s.append("); close Solaar / Logi Options and retry");
                s
            },
            FpError::Unstable => text::owned(
                "fingerprint differed between consecutive reads; refusing to use it",
            ),
        }
    }
}

/// A 16-byte pairing record.
#[derive(Debug)]
pub struct Record {
    bytes: Secret,
}

impl View for Record {
    type V = Seq<u8>;

    closed spec fn view(&self) -> Seq<u8> {
        self.bytes@
    }
}

impl Record {
    #[verifier::type_invariant]
    spec fn sized(&self) -> bool {
        self.bytes@.len() == 16
    }

    /// The record made of these 16 bytes.
    pub fn new(b: &[u8; 16]) -> (r: Record)
        ensures
            r@ == b@,
    {
        Record { bytes: Secret::new(bytes::to_vec(b.as_slice())) }
    }

    /// The record made of the bytes of `s`, if there are 16.
    pub fn from_secret(s: Secret) -> (r: Option<Record>)
        ensures
            s@.len() == 16 ==> (r matches Some(r) && r@ == s@),
            s@.len() != 16 ==> r is None,
    {
        if s.len() == 16 {
            Some(Record { bytes: s })
        } else {
            None
        }
    }

    /// The 16 bytes.
    pub fn as_slice(&self) -> (b: &[u8])
        ensures
            b@ == self@,
            b@.len() == 16,
    {
        proof {
            use_type_invariant(self);
        }
        self.bytes.as_slice()
    }
}

impl Clone for Record {
    fn clone(&self) -> (r: Self)
        ensures
            r@ == self@,
    {
        proof {
            use_type_invariant(self);
        }
        Record { bytes: self.bytes.clone() }
    }
}

/// The bytes of an optional record.
pub open spec fn record_view(r: Option<Record>) -> Option<Seq<u8>> {
    match r {
        Some(r) => Some(r@),
        None => None,
    }
}

/// A device paired to the TI receiver.
#[derive(Debug)]
pub struct SlotInfo {
    pub slot: u8,
    pub wpid: [u8; 2],
    pub kind: String,
    pub name: String,
    pub serial: Vec<u8>,
    pub record: Option<Record>,
}

/// A paired device, with bytes and texts as sequences.
pub struct SlotInfoView {
    pub slot: u8,
    pub wpid: Seq<u8>,
    pub kind: Seq<char>,
    pub name: Seq<char>,
    pub serial: Seq<u8>,
    pub record: Option<Seq<u8>>,
}

impl View for SlotInfo {
    type V = SlotInfoView;

    open spec fn view(&self) -> SlotInfoView {
        SlotInfoView {
            slot: self.slot,
            wpid: self.wpid@,
            kind: self.kind@,
            name: self.name@,
            serial: self.serial@,
            record: record_view(self.record),
        }
    }
}

impl SlotInfo {
    pub fn wpid_hex(&self) -> (s: String)
        ensures
            s@ == text::hex_text(self@.wpid),
    {
        text::hex(self.wpid.as_slice())
    }
}

impl Clone for SlotInfo {
    fn clone(&self) -> (s: Self)
        ensures
            s@ == self@,
    {
        SlotInfo {
            slot: self.slot,
            wpid: self.wpid,
            kind: self.kind.clone(),
            name: self.name.clone(),
            serial: bytes::to_vec(self.serial.as_slice()),
            record: match &self.record {
                Some(r) => Some(r.clone()),
                None => None,
            },
        }
    }
}

/// What was read of the receivers.
#[derive(Debug)]
pub struct Fingerprint {
    pub ti_present: bool,
    pub receiver_serial: Vec<u8>,
    pub firmware: String,
    pub d4_open: bool,
    pub slots: Vec<SlotInfo>,
    pub nano_present: bool,
    pub nano_serial: Vec<u8>,
}

/// A fingerprint, with bytes and texts as sequences.
pub struct FingerprintView {
    pub ti_present: bool,
    pub receiver_serial: Seq<u8>,
    pub firmware: Seq<char>,
    pub d4_open: bool,
    pub slots: Seq<SlotInfoView>,
    pub nano_present: bool,
    pub nano_serial: Seq<u8>,
}

impl View for Fingerprint {
    type V = FingerprintView;

    open spec fn view(&self) -> FingerprintView {
        FingerprintView {
            ti_present: self.ti_present,
            receiver_serial: self.receiver_serial@,
            firmware: self.firmware@,
            d4_open: self.d4_open,
            slots: Seq::new(self.slots@.len(), |i: int| self.slots@[i]@),
            nano_present: self.nano_present,
            nano_serial: self.nano_serial@,
        }
    }
}

impl Default for Fingerprint {
    fn default() -> (f: Self)
        ensures
            f@ == FingerprintView::blank(),
    {
        let f: Fingerprint = Fingerprint {
            ti_present: false,
            receiver_serial: Vec::new(),
            firmware: String::new(),
            d4_open: false,
            slots: Vec::new(),
            nano_present: false,
            nano_serial: Vec::new(),
        };
        assert(f@.slots =~= Seq::empty());
        f
    }
}

impl Clone for Fingerprint {
    fn clone(&self) -> (f: Self)
        ensures
            f@ == self@,
    {
        let mut slots: Vec<SlotInfo> = Vec::new();
        let mut i: usize = 0;
        while i < self.slots.len()
            invariant
                i <= self.slots@.len(),
                slots@.len() == i,
                forall|j: int| 0 <= j < i ==> (#[trigger] slots@[j])@ == self.slots@[j]@,
            decreases self.slots@.len() - i,
        {
            slots.push(self.slots[i].clone());
            i = i + 1;
        }
        let f: Fingerprint = Fingerprint {
            ti_present: self.ti_present,
            receiver_serial: bytes::to_vec(self.receiver_serial.as_slice()),
            firmware: self.firmware.clone(),
            d4_open: self.d4_open,
            slots,
            nano_present: self.nano_present,
            nano_serial: bytes::to_vec(self.nano_serial.as_slice()),
        };
        assert(f@.slots =~= self@.slots);
        f
    }
}

/// The mask bit of receiver slot `slot`.
pub open spec fn slot_bit(slot: u8) -> u8 {
    1u8 << ((slot - 1) as u8)
}

/// The slots of all devices, as a mask.
pub open spec fn mask_of(slots: Seq<SlotInfoView>) -> u8
    decreases slots.len(),
{
    if slots.len() == 0 {
        0
    } else {
        mask_of(slots.drop_last()) | slot_bit(slots.last().slot)
    }
}

/// How many devices in the slots of `bind` have a pairing record.
pub open spec fn records_in(slots: Seq<SlotInfoView>, bind: u8) -> nat
    decreases slots.len(),
{
    if slots.len() == 0 {
        0
    } else {
        let s = slots.last();
        records_in(slots.drop_last(), bind) + if label::binds(bind, s.slot as int)
            && s.record is Some {
            1nat
        } else {
            0
        }
    }
}

/// How many devices have a pairing record.
pub open spec fn records(slots: Seq<SlotInfoView>) -> nat
    decreases slots.len(),
{
    if slots.len() == 0 {
        0
    } else {
        records(slots.drop_last()) + if slots.last().record is Some {
            1nat
        } else {
            0
        }
    }
}

/// The first device in receiver slot `slot`, from the `from`-th on.
pub open spec fn find_slot(slots: Seq<SlotInfoView>, slot: u8, from: int) -> Option<SlotInfoView>
    decreases slots.len() - from,
{
    if from < 0 || from >= slots.len() {
        None
    } else if slots[from].slot == slot {
        Some(slots[from])
    } else {
        find_slot(slots, slot, from + 1)
    }
}

/// A field with its length before it (modulo 256).
pub open spec fn field(b: Seq<u8>) -> Seq<u8> {
    seq![(b.len() % 256) as u8] + b
}

/// What a device adds to the material.
pub open spec fn device_bytes(slot: u8, s: SlotInfoView) -> Seq<u8> {
    seq![slot] + s.wpid + field(s.serial) + field(slot::or_empty(s.record))
}

/// What the devices in the receiver slots from `slot` on add to the material, as far as they are
/// in `bind`; none, if one is missing.
pub open spec fn devices_bytes(slots: Seq<SlotInfoView>, bind: u8, slot: int) -> Result<
    Seq<u8>,
    Seq<char>,
>
    decreases 7 - slot,
{
    if slot > 6 {
        Ok(Seq::empty())
    } else if !label::binds(bind, slot) {
        devices_bytes(slots, bind, slot + 1)
    } else {
        match find_slot(slots, slot as u8, 0) {
            None => Err(missing_text(slot)),
            Some(s) => match devices_bytes(slots, bind, slot + 1) {
                Err(why) => Err(why),
                Ok(rest) => Ok(device_bytes(slot as u8, s) + rest),
            },
        }
    }
}

/// Why there is no material for a slot without a device.
pub open spec fn missing_text(slot: int) -> Seq<char> {
    "device in receiver slot "@ + text::decimal_text(slot as nat)
        + " missing (unpaired or re-paired?)"@
}

impl FingerprintView {
    /// Nothing read yet.
    pub open spec fn blank() -> FingerprintView {
        FingerprintView {
            ti_present: false,
            receiver_serial: Seq::empty(),
            firmware: Seq::empty(),
            d4_open: false,
            slots: Seq::empty(),
            nano_present: false,
            nano_serial: Seq::empty(),
        }
    }

    /// Every device has a receiver slot that a mask can hold.
    pub open spec fn wf(self) -> bool {
        forall|i: int| 0 <= i < self.slots.len() ==> 1 <= (#[trigger] self.slots[i]).slot <= 8
    }

    /// The receivers that were readable, as a mask.
    pub open spec fn plugged(self) -> u8 {
        match (self.ti_present, self.nano_present) {
            (true, true) => 3,
            (true, false) => 1,
            (false, true) => 2,
            (false, false) => 0,
        }
    }

    /// The public tag of everything plugged and every occupied slot.
    pub open spec fn kid(self) -> Seq<u8> {
        match self.material(self.plugged(), mask_of(self.slots)) {
            Ok(m) => slot::kid_of(m),
            Err(_) => bytes::zeros(8),
        }
    }

    /// What the fingerprint rests on.
    pub open spec fn grade(self) -> Seq<char> {
        let keys = records(self.slots) % 256;
        if keys > 0 {
            "pairing records ("@ + text::decimal_text(keys) + ")"@
        } else {
            "serials only"@
        }
    }

    /// The receivers that were read.
    pub open spec fn receivers(self) -> Seq<char> {
        let ti = "TI C52B "@ + self.firmware;
        let nano = "Nano C52F"@;
        match (self.ti_present, self.nano_present) {
            (true, true) => ti + " + "@ + nano,
            (true, false) => ti,
            (false, true) => nano,
            (false, false) => Seq::empty(),
        }
    }

    /// One line about the fingerprint.
    pub open spec fn summary(self) -> Seq<char> {
        self.receivers() + " | slots "@ + text::decimal_text(self.slots.len()) + " | grade: "@
            + self.grade()
    }

    /// The material for a selection of receivers and slots, or why there is none.
    pub open spec fn material(self, dongles: u8, bind: u8) -> Result<Seq<u8>, Seq<char>> {
        if dongles == 0 {
            Err("no receiver selected"@)
        } else if dongles & !self.plugged() != 0 {
            Err(
                "needs dongle "@ + label::dongles_text(dongles) + ", plugged "@
                    + label::dongles_text(self.plugged()),
            )
        } else {
            let head = "uniseal-fp-v1".spec_bytes() + seq![dongles, bind];
            let nano = if label::has_nano(dongles) {
                bytes::be16(NANO_PID) + self.nano_serial
            } else {
                Seq::empty()
            };
            if label::has_ti(dongles) {
                match devices_bytes(self.slots, bind, 1) {
                    Err(why) => Err(why),
                    Ok(devices) => Ok(
                        head + bytes::be16(TI_PID) + self.receiver_serial + devices + nano,
                    ),
                }
            } else {
                Ok(head + nano)
            }
        }
    }
}

fn push_field(m: &mut Secret, b: &[u8])
    ensures
        final(m)@ == old(m)@ + field(b@),
{
    m.push((b.len() % 256) as u8);
    m.extend(b);
    assert(m@ =~= old(m)@ + field(b@));
}

impl DongleSource for Fingerprint {
    fn plugged(&self) -> (m: u8)
        ensures
            m == self@.plugged(),
    {
        if self.ti_present {
            if self.nano_present {
                label::DONGLE_TI + label::DONGLE_NANO
            } else {
                label::DONGLE_TI
            }
        } else if self.nano_present {
            label::DONGLE_NANO
        } else {
            0
        }
    }

    fn material(&self, dongles: u8, bind: u8) -> (r: Result<Secret, String>)
        ensures
            slot::answered(r) == self@.material(dongles, bind),
    {
        if dongles == 0 {
            return Err(text::owned("no receiver selected"));
        }
        let plugged: u8 = self.plugged();
        if dongles & !plugged != 0 {
            let mut why: String = text::glue(
                "needs dongle ",
                label::dongles_label(dongles).as_str(),
            );
            why.append(", plugged ");
            why.append(label::dongles_label(plugged).as_str());
            return Err(why);
        }
        let mut m: Secret = Secret::new(bytes::to_vec("uniseal-fp-v1".as_bytes()));
        m.push(dongles);
        m.push(bind);
        let ghost head = "uniseal-fp-v1".spec_bytes() + seq![dongles, bind];
        assert(m@ =~= head);
        let ghost mut devices: Seq<u8> = Seq::empty();
        if dongles & label::DONGLE_TI != 0 {
            let pid: [u8; 2] = [0xC5, 0x2B];
            m.extend(pid.as_slice());
            m.extend(self.receiver_serial.as_slice());
            assert(pid@ =~= bytes::be16(TI_PID));
            let ghost start = m@;
            let mut slot: u8 = 1;
            assert(start =~= start + devices);
            while slot <= 6
                invariant
                    1 <= slot <= 7,
                    m@ == start + devices,
                    devices_bytes(self@.slots, bind, 1) == joined(
                        devices,
                        devices_bytes(self@.slots, bind, slot as int),
                    ),
                    label::has_ti(dongles),
                    dongles != 0,
                    dongles & !self@.plugged() == 0,
                decreases 7 - slot,
            {
                let ghost rest = devices_bytes(self@.slots, bind, slot as int + 1);
                if bind & (1u8 << (slot - 1)) != 0 {
                    match self.device(slot) {
                        None => {
                            let mut why: String = text::glue(
                                "device in receiver slot ",
                                text::decimal(slot as u64).as_str(),
                            );
                            why.append(" missing (unpaired or re-paired?)");
                            return Err(why);
                        },
                        Some(s) => {
                            m.push(slot);
                            m.extend(s.wpid.as_slice());
                            push_field(&mut m, s.serial.as_slice());
                            match &s.record {
                                Some(r) => push_field(&mut m, r.as_slice()),
                                None => push_field(&mut m, Vec::new().as_slice()),
                            }
                            let ghost mine = device_bytes(slot, s@);
                            proof {
                                assert(m@ =~= start + (devices + mine));
                                assert(rest matches Ok(r) ==> devices + (mine + r) =~= devices
                                    + mine + r);
                                devices = devices + mine;
                            }
                        },
                    }
                }
                slot = slot + 1;
            }
            assert(devices + Seq::<u8>::empty() =~= devices);
        }
        let ghost so_far = m@;
        let ghost nano = if label::has_nano(dongles) {
            bytes::be16(NANO_PID) + self@.nano_serial
        } else {
            Seq::empty()
        };
        if dongles & label::DONGLE_NANO != 0 {
            let pid: [u8; 2] = [0xC5, 0x2F];
            m.extend(pid.as_slice());
            m.extend(self.nano_serial.as_slice());
            assert(pid@ =~= bytes::be16(NANO_PID));
        }
        assert(m@ =~= so_far + nano);
        Ok(m)
    }
}

/// `before` in front of what comes out, if anything does.
spec fn joined(before: Seq<u8>, rest: Result<Seq<u8>, Seq<char>>) -> Result<Seq<u8>, Seq<char>> {
    match rest {
        Ok(r) => Ok(before + r),
        Err(why) => Err(why),
    }
}

impl Fingerprint {
    /// The first device in a receiver slot.
    fn device(&self, slot: u8) -> (r: Option<&SlotInfo>)
        ensures
            match r {
                Some(s) => {
                    &&& find_slot(self@.slots, slot, 0) == Some(s@)
                    &&& s.slot == slot
                    &&& self.slots@.contains(*s)
                },
                None => {
                    &&& find_slot(self@.slots, slot, 0) is None
                    &&& forall|i: int|
                        0 <= i < self.slots@.len() ==> (#[trigger] self.slots@[i]).slot != slot
                },
            },
    {
        let mut i: usize = 0;
        while i < self.slots.len()
            invariant
                i <= self.slots@.len(),
                find_slot(self@.slots, slot, 0) == find_slot(self@.slots, slot, i as int),
                forall|j: int| 0 <= j < i ==> (#[trigger] self.slots@[j]).slot != slot,
            decreases self.slots@.len() - i,
        {
            if self.slots[i].slot == slot {
                return Some(&self.slots[i]);
            }
            i = i + 1;
        }
        None
    }

    /// Receiver slots occupied right now, as a bind mask.
    pub fn occupied(&self) -> (m: u8)
        requires
            self@.wf(),
        ensures
            m == mask_of(self@.slots),
    {
        let mut m: u8 = 0;
        let mut i: usize = 0;
        assert(self@.slots.take(0) =~= Seq::empty());
        while i < self.slots.len()
            invariant
                i <= self.slots@.len(),
                self@.wf(),
                m == mask_of(self@.slots.take(i as int)),
            decreases self.slots@.len() - i,
        {
            assert(self@.slots[i as int].slot == self.slots@[i as int].slot);
            assert(self@.slots.take(i + 1).drop_last() =~= self@.slots.take(i as int));
            m = m | (1u8 << (self.slots[i].slot - 1));
            i = i + 1;
        }
        assert(self@.slots.take(i as int) =~= self@.slots);
        m
    }

    /// How many devices have a pairing record (modulo 256).
    pub fn nkeys(&self) -> (n: u8)
        ensures
            n == records(self@.slots) % 256,
    {
        let mut n: u8 = 0;
        let mut i: usize = 0;
        assert(self@.slots.take(0) =~= Seq::empty());
        while i < self.slots.len()
            invariant
                i <= self.slots@.len(),
                n == records(self@.slots.take(i as int)) % 256,
            decreases self.slots@.len() - i,
        {
            assert(self@.slots.take(i + 1).drop_last() =~= self@.slots.take(i as int));
            assert(self@.slots[i as int].record is Some == self.slots@[i as int].record is Some);
            if self.slots[i].record.is_some() {
                n = n.wrapping_add(1);
            }
            i = i + 1;
        }
        assert(self@.slots.take(i as int) =~= self@.slots);
        n
    }

    fn nkeys_in(&self, bind: u8) -> (n: u8)
        requires
            self@.wf(),
        ensures
            n == records_in(self@.slots, bind) % 256,
    {
        let mut n: u8 = 0;
        let mut i: usize = 0;
        assert(self@.slots.take(0) =~= Seq::empty());
        while i < self.slots.len()
            invariant
                i <= self.slots@.len(),
                self@.wf(),
                n == records_in(self@.slots.take(i as int), bind) % 256,
            decreases self.slots@.len() - i,
        {
            assert(self@.slots.take(i + 1).drop_last() =~= self@.slots.take(i as int));
            assert(self@.slots[i as int] == self.slots@[i as int]@);
            if bind & (1u8 << (self.slots[i].slot - 1)) != 0 && self.slots[i].record.is_some() {
                n = n.wrapping_add(1);
            }
            i = i + 1;
        }
        assert(self@.slots.take(i as int) =~= self@.slots);
        n
    }

    /// Material + description for the plugged receivers, bound to `bind` (`None` = every occupied
    /// slot).
    pub fn dongle(&self, bind: Option<u8>) -> (r: Result<Dongle, String>)
        requires
            self@.wf(),
        ensures
            ({
                let b = match bind {
                    Some(b) => b,
                    None => mask_of(self@.slots),
                };
                match r {
                    Ok(d) => {
                        &&& self@.material(self@.plugged(), b) == Ok::<Seq<u8>, Seq<char>>(
                            d@.material,
                        )
                        &&& d@.dongles == self@.plugged()
                        &&& d@.nkeys == records_in(self@.slots, b) % 256
                        &&& d@.bind == b
                    },
                    Err(why) => self@.material(self@.plugged(), b) == Err::<Seq<u8>, Seq<char>>(
                        why@,
                    ),
                }
            }),
    {
        let bind: u8 = match bind {
            Some(b) => b,
            None => self.occupied(),
        };
        let dongles: u8 = self.plugged();
        match self.material(dongles, bind) {
            Ok(material) => Ok(Dongle { material, dongles, nkeys: self.nkeys_in(bind), bind }),
            Err(why) => Err(why),
        }
    }

    /// Public tag of the full fingerprint (everything plugged, every slot).
    pub fn kid(&self) -> (k: [u8; 8])
        requires
            self@.wf(),
        ensures
            k@ == self@.kid(),
    {
        match self.material(self.plugged(), self.occupied()) {
            Ok(m) => slot::kid(m.as_slice()),
            Err(_) => {
                let k: [u8; 8] = [0u8; 8];
                assert(k@ =~= bytes::zeros(8));
                k
            },
        }
    }

    pub fn grade(&self) -> (s: String)
        ensures
            s@ == self@.grade(),
    {
        let keys: u8 = self.nkeys();
        if keys > 0 {
            let mut s: String = text::glue("pairing records (", text::decimal(keys as u64).as_str());
            s.append(")");
            s
        } else {
            text::owned("serials only")
        }
    }

    pub fn summary(&self) -> (s: String)
        ensures
            s@ == self@.summary(),
    {
        let mut s: String = String::new();
        if self.ti_present {
            s.append("TI C52B ");
            s.append(self.firmware.as_str());
        }
        if self.nano_present {
            if self.ti_present {
                s.append(" + ");
            }
            s.append("Nano C52F");
        }
        assert(s@ =~= self@.receivers());
        s.append(" | slots ");
        s.append(text::decimal(self.slots.len() as u64).as_str());
        s.append(" | grade: ");
        s.append(self.grade().as_str());
        s
    }
}

/// Whether two fingerprints agree on the device in a receiver slot, as far as it counts.
pub open spec fn same_device(a: FingerprintView, b: FingerprintView, slot: u8) -> bool {
    match (find_slot(a.slots, slot, 0), find_slot(b.slots, slot, 0)) {
        (None, None) => true,
        (Some(x), Some(y)) => x.wpid == y.wpid && x.serial == y.serial && slot::or_empty(x.record)
            == slot::or_empty(y.record),
        _ => false,
    }
}

/// The material depends on the receivers, their serials and the devices in the bound slots alone:
/// pairing a device in a slot that is not bound, renaming one, or another firmware leaves it as it
/// is.
pub proof fn law_material_ignores_the_rest(
    a: FingerprintView,
    b: FingerprintView,
    dongles: u8,
    bind: u8,
)
    requires
        a.ti_present == b.ti_present,
        a.nano_present == b.nano_present,
        label::has_ti(dongles) ==> a.receiver_serial == b.receiver_serial,
        label::has_nano(dongles) ==> a.nano_serial == b.nano_serial,
        label::has_ti(dongles) ==> forall|n: u8|
            1 <= n <= 6 && label::binds(bind, n as int) ==> #[trigger] same_device(a, b, n),
    ensures
        a.material(dongles, bind) == b.material(dongles, bind),
{
    if label::has_ti(dongles) {
        lemma_devices_agree(a, b, bind, 1);
    }
}

proof fn lemma_devices_agree(a: FingerprintView, b: FingerprintView, bind: u8, slot: int)
    requires
        1 <= slot <= 7,
        forall|n: u8|
            1 <= n <= 6 && label::binds(bind, n as int) ==> #[trigger] same_device(a, b, n),
    ensures
        devices_bytes(a.slots, bind, slot) == devices_bytes(b.slots, bind, slot),
    decreases 7 - slot,
{
    if slot <= 6 {
        lemma_devices_agree(a, b, bind, slot + 1);
        if label::binds(bind, slot) {
            assert(same_device(a, b, slot as u8));
        }
    }
}

impl FingerprintView {
    /// Serials, product ids and records have the sizes that the receivers give them, or at least
    /// sizes that fit into a length byte.
    pub open spec fn regular(self) -> bool {
        &&& self.ti_present ==> self.receiver_serial.len() == 4
        &&& forall|i: int|
            0 <= i < self.slots.len() ==> {
                let s = #[trigger] self.slots[i];
                &&& s.wpid.len() == 2
                &&& s.serial.len() < 256
                &&& slot::or_empty(s.record).len() < 256
            }
    }
}

/// The same material comes from nothing else: two fingerprints that give the same material agree
/// on the receivers and the binding it was asked for, on the serials of these receivers, and on the
/// devices in the bound slots.
pub proof fn law_material_tells_all(
    a: FingerprintView,
    b: FingerprintView,
    dongles: u8,
    bind: u8,
    dongles2: u8,
    bind2: u8,
)
    requires
        a.regular(),
        b.regular(),
        a.material(dongles, bind) is Ok,
        a.material(dongles, bind) == b.material(dongles2, bind2),
    ensures
        dongles == dongles2,
        bind == bind2,
        label::has_ti(dongles) ==> a.receiver_serial == b.receiver_serial,
        label::has_nano(dongles) ==> a.nano_serial == b.nano_serial,
        label::has_ti(dongles) ==> forall|n: u8|
            1 <= n <= 6 && label::binds(bind, n as int) ==> #[trigger] same_device(a, b, n),
{
    let tag = "uniseal-fp-v1".spec_bytes();
    let m = a.material(dongles, bind)->Ok_0;
    let nano_a = if label::has_nano(dongles) {
        bytes::be16(NANO_PID) + a.nano_serial
    } else {
        Seq::empty()
    };
    let nano_b = if label::has_nano(dongles2) {
        bytes::be16(NANO_PID) + b.nano_serial
    } else {
        Seq::empty()
    };
    let head_a = tag + seq![dongles, bind];
    let head_b = tag + seq![dongles2, bind2];
    let pid = bytes::be16(TI_PID);
    let tail_a = if label::has_ti(dongles) {
        let devices = devices_bytes(a.slots, bind, 1)->Ok_0;
        assert(m == head_a + pid + a.receiver_serial + devices + nano_a);
        assert(m =~= head_a + (pid + (a.receiver_serial + (devices + nano_a))));
        pid + (a.receiver_serial + (devices + nano_a))
    } else {
        nano_a
    };
    let tail_b = if label::has_ti(dongles2) {
        let devices = devices_bytes(b.slots, bind2, 1)->Ok_0;
        assert(m == head_b + pid + b.receiver_serial + devices + nano_b);
        assert(m =~= head_b + (pid + (b.receiver_serial + (devices + nano_b))));
        pid + (b.receiver_serial + (devices + nano_b))
    } else {
        nano_b
    };
    lemma_halves(head_a, tail_a, head_b, tail_b);
    assert(head_a[tag.len() as int] == dongles && head_a[tag.len() as int + 1] == bind);
    assert(head_b[tag.len() as int] == dongles2 && head_b[tag.len() as int + 1] == bind2);
    if label::has_ti(dongles) {
        lemma_plugged(a, dongles);
        lemma_plugged(b, dongles);
        let da = devices_bytes(a.slots, bind, 1)->Ok_0;
        let db = devices_bytes(b.slots, bind, 1)->Ok_0;
        lemma_halves(
            pid,
            a.receiver_serial + (da + nano_a),
            pid,
            b.receiver_serial + (db + nano_b),
        );
        lemma_halves(a.receiver_serial, da + nano_a, b.receiver_serial, db + nano_b);
        lemma_devices_tell(a, b, bind, 1, nano_a, nano_b);
    }
    if label::has_nano(dongles) {
        lemma_halves(
            bytes::be16(NANO_PID),
            a.nano_serial,
            bytes::be16(NANO_PID),
            b.nano_serial,
        );
    }
}

/// Material that involves the TI receiver comes only from a fingerprint that has it.
proof fn lemma_plugged(f: FingerprintView, dongles: u8)
    requires
        label::has_ti(dongles),
        dongles & !f.plugged() == 0,
    ensures
        f.ti_present,
{
    let p = f.plugged();
    assert(dongles & 1 != 0 && dongles & !p == 0 ==> p & 1 != 0) by (bit_vector);
    assert(2u8 & 1 == 0 && 0u8 & 1 == 0) by (bit_vector);
}

/// Two byte strings with equal parts of one length are equal part by part.
proof fn lemma_halves(a: Seq<u8>, x: Seq<u8>, b: Seq<u8>, y: Seq<u8>)
    requires
        a.len() == b.len(),
        a + x == b + y,
    ensures
        a == b,
        x == y,
{
    let all = a + x;
    assert(a =~= all.take(a.len() as int));
    assert(b =~= (b + y).take(a.len() as int));
    assert(x =~= all.skip(a.len() as int));
    assert(y =~= (b + y).skip(a.len() as int));
}

/// A field with its length before it can be told from what follows.
proof fn lemma_field(a: Seq<u8>, x: Seq<u8>, b: Seq<u8>, y: Seq<u8>)
    requires
        a.len() < 256,
        b.len() < 256,
        field(a) + x == field(b) + y,
    ensures
        a == b,
        x == y,
{
    assert((field(a) + x)[0] == a.len() as u8);
    assert((field(b) + y)[0] == b.len() as u8);
    lemma_halves(field(a), x, field(b), y);
    assert(a =~= field(a).skip(1));
    assert(b =~= field(b).skip(1));
}

/// A device that is found is one of the devices.
proof fn lemma_found(f: FingerprintView, slot: u8, from: int)
    requires
        0 <= from,
        f.regular(),
    ensures
        find_slot(f.slots, slot, from) matches Some(s) ==> s.wpid.len() == 2 && s.serial.len()
            < 256 && slot::or_empty(s.record).len() < 256,
    decreases f.slots.len() - from,
{
    if from < f.slots.len() {
        assert(f.slots[from].wpid.len() == 2);
        lemma_found(f, slot, from + 1);
    }
}

/// A device in front of others can be told from them.
proof fn lemma_device_tells(
    n: u8,
    s: SlotInfoView,
    t: SlotInfoView,
    ra: Seq<u8>,
    x: Seq<u8>,
    rb: Seq<u8>,
    y: Seq<u8>,
)
    requires
        s.wpid.len() == 2,
        t.wpid.len() == 2,
        s.serial.len() < 256,
        t.serial.len() < 256,
        slot::or_empty(s.record).len() < 256,
        slot::or_empty(t.record).len() < 256,
        device_bytes(n, s) + ra + x == device_bytes(n, t) + rb + y,
    ensures
        s.wpid == t.wpid,
        s.serial == t.serial,
        slot::or_empty(s.record) == slot::or_empty(t.record),
        ra + x == rb + y,
{
    let rec_a = slot::or_empty(s.record);
    let rec_b = slot::or_empty(t.record);
    lemma_device_parts(seq![n] + s.wpid, field(s.serial), field(rec_a), ra, x);
    lemma_device_parts(seq![n] + t.wpid, field(t.serial), field(rec_b), rb, y);
    lemma_halves(
        seq![n] + s.wpid,
        field(s.serial) + (field(rec_a) + (ra + x)),
        seq![n] + t.wpid,
        field(t.serial) + (field(rec_b) + (rb + y)),
    );
    lemma_halves(seq![n], s.wpid, seq![n], t.wpid);
    lemma_field(s.serial, field(rec_a) + (ra + x), t.serial, field(rec_b) + (rb + y));
    lemma_field(rec_a, ra + x, rec_b, rb + y);
}

proof fn lemma_device_parts(a: Seq<u8>, b: Seq<u8>, c: Seq<u8>, d: Seq<u8>, e: Seq<u8>)
    ensures
        a + b + c + d + e == a + (b + (c + (d + e))),
{
    assert(a + b + c + d + e =~= a + (b + (c + (d + e))));
}

proof fn lemma_devices_tell(
    a: FingerprintView,
    b: FingerprintView,
    bind: u8,
    slot: int,
    x: Seq<u8>,
    y: Seq<u8>,
)
    requires
        1 <= slot <= 7,
        a.regular(),
        b.regular(),
        devices_bytes(a.slots, bind, slot) is Ok,
        devices_bytes(b.slots, bind, slot) is Ok,
        devices_bytes(a.slots, bind, slot)->Ok_0 + x == devices_bytes(b.slots, bind, slot)->Ok_0
            + y,
    ensures
        x == y,
        forall|n: u8|
            slot <= n <= 6 && label::binds(bind, n as int) ==> #[trigger] same_device(a, b, n),
    decreases 7 - slot,
{
    if slot > 6 {
        assert(Seq::<u8>::empty() + x =~= x);
        assert(Seq::<u8>::empty() + y =~= y);
    } else if !label::binds(bind, slot) {
        lemma_devices_tell(a, b, bind, slot + 1, x, y);
    } else {
        let n = slot as u8;
        let s = find_slot(a.slots, n, 0)->0;
        let t = find_slot(b.slots, n, 0)->0;
        lemma_found(a, n, 0);
        lemma_found(b, n, 0);
        let ra = devices_bytes(a.slots, bind, slot + 1)->Ok_0;
        let rb = devices_bytes(b.slots, bind, slot + 1)->Ok_0;
        assert(device_bytes(n, s) + ra + x == device_bytes(n, t) + rb + y);
        lemma_device_tells(n, s, t, ra, x, rb, y);
        lemma_devices_tell(a, b, bind, slot + 1, x, y);
        assert(same_device(a, b, n));
    }
}

/// Whether device `i` is the first in receiver slot `n`.
pub open spec fn first_in(slots: Seq<SlotInfoView>, n: u8, i: int) -> bool {
    &&& 0 <= i < slots.len()
    &&& slots[i].slot == n
    &&& forall|j: int| 0 <= j < i ==> (#[trigger] slots[j]).slot != n
}

/// Whether a device is in receiver slot `n`.
pub open spec fn has_device(slots: Seq<SlotInfoView>, n: u8) -> bool {
    exists|i: int| 0 <= i < slots.len() && (#[trigger] slots[i]).slot == n
}

/// A device that is found for a receiver slot is the first one whose slot number it is, and none is
/// found only where no device has that number.
pub proof fn law_found_device(slots: Seq<SlotInfoView>, n: u8)
    ensures
        find_slot(slots, n, 0) matches Some(s) ==> exists|i: int| #[trigger]
            first_in(slots, n, i) && slots[i] == s,
        find_slot(slots, n, 0) is Some <==> has_device(slots, n),
        forall|i: int| #[trigger] first_in(slots, n, i) ==> find_slot(slots, n, 0) == Some(
            slots[i],
        ),
{
    lemma_find_from(slots, n, 0);
}

proof fn lemma_find_from(slots: Seq<SlotInfoView>, n: u8, from: int)
    requires
        0 <= from <= slots.len(),
        forall|j: int| 0 <= j < from ==> (#[trigger] slots[j]).slot != n,
    ensures
        find_slot(slots, n, from) matches Some(s) ==> exists|i: int| #[trigger]
            first_in(slots, n, i) && slots[i] == s,
        find_slot(slots, n, from) is Some <==> has_device(slots, n),
        forall|i: int| #[trigger] first_in(slots, n, i) ==> find_slot(slots, n, from) == Some(
            slots[i],
        ),
    decreases slots.len() - from,
{
    if from < slots.len() {
        if slots[from].slot == n {
            assert(first_in(slots, n, from));
        } else {
            lemma_find_from(slots, n, from + 1);
        }
    }
}

/// The bytes of an optional field in the material.
pub open spec fn bytes_or_none(r: Option<Seq<u8>>) -> Seq<u8> {
    if r is Some {
        r->0
    } else {
        seq![]
    }
}

/// Whether `b` is what receiver slot `n` adds to the material: nothing, where it is not bound; else
/// its number, and of the first device in it the product id, the serial number and the record, the
/// last two with their length before them.
pub open spec fn adds(slots: Seq<SlotInfoView>, bind: u8, n: int, b: Seq<u8>) -> bool {
    if bind & (1u8 << ((n - 1) as u8)) == 0 {
        b.len() == 0
    } else {
        exists|i: int| #[trigger]
            first_in(slots, n as u8, i) && {
                let serial = slots[i].serial;
                let record = bytes_or_none(slots[i].record);
                b == seq![n as u8] + slots[i].wpid + seq![(serial.len() % 256) as u8] + serial
                    + seq![(record.len() % 256) as u8] + record
            }
    }
}

/// The layout of the material: the tag, the receivers and the binding that were asked for, then the
/// product id and the serial number of the TI receiver and what its slots add, in order, then the
/// product id and the serial number of the Nano receiver.
pub proof fn law_material_layout(f: FingerprintView, dongles: u8, bind: u8, parts: Seq<Seq<u8>>)
    requires
        1 <= dongles <= 3,
        dongles & 1 != 0 ==> f.ti_present,
        dongles & 2 != 0 ==> f.nano_present,
        parts.len() == 6,
        forall|n: int| 1 <= n <= 6 ==> adds(f.slots, bind, n, #[trigger] parts[n - 1]),
    ensures
        f.material(dongles, bind) matches Ok(m) && m == "uniseal-fp-v1".spec_bytes() + seq![
            dongles,
            bind,
        ] + (if dongles & 1 != 0 {
            seq![0xC5u8, 0x2Bu8] + f.receiver_serial + parts[0] + parts[1] + parts[2] + parts[3]
                + parts[4] + parts[5]
        } else {
            seq![]
        }) + (if dongles & 2 != 0 {
            seq![0xC5u8, 0x2Fu8] + f.nano_serial
        } else {
            seq![]
        }),
{
    lemma_subset(f, dongles);
    assert(bytes::be16(TI_PID) =~= seq![0xC5u8, 0x2Bu8]);
    assert(bytes::be16(NANO_PID) =~= seq![0xC5u8, 0x2Fu8]);
    let m = f.material(dongles, bind)->Ok_0;
    let head = "uniseal-fp-v1".spec_bytes() + seq![dongles, bind];
    let nano = if dongles & 2 != 0 {
        seq![0xC5u8, 0x2Fu8] + f.nano_serial
    } else {
        seq![]
    };
    if dongles & 1 != 0 {
        lemma_parts(f.slots, bind, parts);
        let all = parts[0] + parts[1] + parts[2] + parts[3] + parts[4] + parts[5];
        let ti = seq![0xC5u8, 0x2Bu8] + f.receiver_serial;
        assert(m == head + seq![0xC5u8, 0x2Bu8] + f.receiver_serial + all + nano);
        assert(head + seq![0xC5u8, 0x2Bu8] + f.receiver_serial + all =~= head + (ti + all));
        lemma_six(ti, parts[0], parts[1], parts[2], parts[3], parts[4], parts[5]);
    } else {
        assert(m =~= head + seq![] + nano);
    }
}

/// Six pieces behind another, put together one by one or all at once.
proof fn lemma_six(
    h: Seq<u8>,
    a: Seq<u8>,
    b: Seq<u8>,
    c: Seq<u8>,
    d: Seq<u8>,
    e: Seq<u8>,
    f: Seq<u8>,
)
    ensures
        h + (a + b + c + d + e + f) == h + a + b + c + d + e + f,
        a + (b + (c + (d + (e + f)))) == a + b + c + d + e + f,
{
    assert(h + (a + b + c + d + e + f) =~= h + (a + b + c + d + e) + f);
    assert(h + (a + b + c + d + e) =~= h + (a + b + c + d) + e);
    assert(h + (a + b + c + d) =~= h + (a + b + c) + d);
    assert(h + (a + b + c) =~= h + (a + b) + c);
    assert(h + (a + b) =~= h + a + b);
    assert(d + (e + f) =~= d + e + f);
    assert(c + (d + e + f) =~= c + d + e + f);
    assert(b + (c + d + e + f) =~= b + c + d + e + f);
    assert(a + (b + c + d + e + f) =~= a + b + c + d + e + f);
}

proof fn lemma_parts(slots: Seq<SlotInfoView>, bind: u8, parts: Seq<Seq<u8>>)
    requires
        parts.len() == 6,
        forall|n: int| 1 <= n <= 6 ==> adds(slots, bind, n, #[trigger] parts[n - 1]),
    ensures
        devices_bytes(slots, bind, 1) == Ok::<Seq<u8>, Seq<char>>(
            parts[0] + parts[1] + parts[2] + parts[3] + parts[4] + parts[5],
        ),
{
    assert(devices_bytes(slots, bind, 7) == Ok::<Seq<u8>, Seq<char>>(seq![]));
    assert(parts[5] + Seq::<u8>::empty() =~= parts[5]);
    lemma_adds(slots, bind, 6, parts[6 - 1]);
    lemma_adds(slots, bind, 5, parts[5 - 1]);
    lemma_adds(slots, bind, 4, parts[4 - 1]);
    lemma_adds(slots, bind, 3, parts[3 - 1]);
    lemma_adds(slots, bind, 2, parts[2 - 1]);
    lemma_adds(slots, bind, 1, parts[1 - 1]);
    lemma_six(seq![], parts[0], parts[1], parts[2], parts[3], parts[4], parts[5]);
}

proof fn lemma_adds(slots: Seq<SlotInfoView>, bind: u8, n: int, part: Seq<u8>)
    requires
        1 <= n <= 6,
        adds(slots, bind, n, part),
        devices_bytes(slots, bind, n + 1) is Ok,
    ensures
        devices_bytes(slots, bind, n) == Ok::<Seq<u8>, Seq<char>>(
            part + devices_bytes(slots, bind, n + 1)->Ok_0,
        ),
{
    let rest = devices_bytes(slots, bind, n + 1)->Ok_0;
    if bind & (1u8 << ((n - 1) as u8)) == 0 {
        assert(part + rest =~= rest);
    } else {
        law_found_device(slots, n as u8);
        let s = find_slot(slots, n as u8, 0)->0;
        assert(part =~= device_bytes(n as u8, s));
    }
}

/// The receivers of a selection that are there.
proof fn lemma_subset(f: FingerprintView, dongles: u8)
    ensures
        dongles & !f.plugged() == 0 <==> dongles <= 3 && (dongles & 1 != 0 ==> f.ti_present) && (
        dongles & 2 != 0 ==> f.nano_present),
{
    let p = f.plugged();
    assert(p == 3 ==> (dongles & !p == 0 <==> dongles <= 3)) by (bit_vector);
    assert(p == 1 ==> (dongles & !p == 0 <==> dongles <= 3 && dongles & 2 == 0)) by (bit_vector);
    assert(p == 2 ==> (dongles & !p == 0 <==> dongles <= 3 && dongles & 1 == 0)) by (bit_vector);
    assert(p == 0 ==> (dongles & !p == 0 <==> dongles <= 3 && dongles & 1 == 0 && dongles & 2
        == 0)) by (bit_vector);
}

/// When there is no material: where no receiver is asked for, or one that is not there, or where the
/// TI receiver is asked for and a bound slot is empty; then the first such slot is named.
pub proof fn law_material_refused(f: FingerprintView, dongles: u8, bind: u8)
    ensures
        f.material(dongles, bind) is Err <==> {
            ||| dongles == 0
            ||| dongles > 3
            ||| dongles & 1 != 0 && !f.ti_present
            ||| dongles & 2 != 0 && !f.nano_present
            ||| dongles & 1 != 0 && exists|n: u8|
                1 <= n <= 6 && bind & (1u8 << ((n - 1) as u8)) != 0 && !#[trigger] has_device(
                    f.slots,
                    n,
                )
        },
        dongles == 0 ==> f.material(dongles, bind) == Err::<Seq<u8>, Seq<char>>(
            "no receiver selected"@,
        ),
        forall|n: u8|
            {
                &&& 1 <= n <= 6
                &&& 1 <= dongles <= 3
                &&& dongles & 1 != 0
                &&& f.ti_present
                &&& dongles & 2 != 0 ==> f.nano_present
                &&& bind & (1u8 << ((n - 1) as u8)) != 0
                &&& !#[trigger] has_device(f.slots, n)
                &&& forall|k: u8|
                    1 <= k < n && bind & (1u8 << ((k - 1) as u8)) != 0 ==> #[trigger] has_device(
                        f.slots,
                        k,
                    )
            } ==> f.material(dongles, bind) == Err::<Seq<u8>, Seq<char>>(
                "device in receiver slot "@ + text::decimal_text(n as nat)
                    + " missing (unpaired or re-paired?)"@,
            ),
{
    lemma_subset(f, dongles);
    lemma_devices_refused(f.slots, bind, 1);
}

proof fn lemma_devices_refused(slots: Seq<SlotInfoView>, bind: u8, from: int)
    requires
        1 <= from <= 7,
    ensures
        devices_bytes(slots, bind, from) is Err <==> exists|n: u8|
            from <= n <= 6 && bind & (1u8 << ((n - 1) as u8)) != 0 && !#[trigger] has_device(
                slots,
                n,
            ),
        forall|n: u8|
            {
                &&& from <= n <= 6
                &&& bind & (1u8 << ((n - 1) as u8)) != 0
                &&& !#[trigger] has_device(slots, n)
                &&& forall|k: u8|
                    from <= k < n && bind & (1u8 << ((k - 1) as u8)) != 0
                        ==> #[trigger] has_device(slots, k)
            } ==> devices_bytes(slots, bind, from) == Err::<Seq<u8>, Seq<char>>(
                "device in receiver slot "@ + text::decimal_text(n as nat)
                    + " missing (unpaired or re-paired?)"@,
            ),
    decreases 7 - from,
{
    if from <= 6 {
        lemma_devices_refused(slots, bind, from + 1);
        law_found_device(slots, from as u8);
        assert(has_device(slots, from as u8) == find_slot(slots, from as u8, 0) is Some);
    }
}

/// Material binds to the devices in the bound slots: two fingerprints that give the same material
/// have there devices with the same product id, serial number and record.
pub proof fn law_material_tells_devices(
    a: FingerprintView,
    b: FingerprintView,
    dongles: u8,
    bind: u8,
    n: u8,
    i: int,
    j: int,
)
    requires
        a.regular(),
        b.regular(),
        a.material(dongles, bind) is Ok,
        a.material(dongles, bind) == b.material(dongles, bind),
        dongles & 1 != 0,
        1 <= n <= 6,
        bind & (1u8 << ((n - 1) as u8)) != 0,
        first_in(a.slots, n, i),
        first_in(b.slots, n, j),
    ensures
        a.slots[i].wpid == b.slots[j].wpid,
        a.slots[i].serial == b.slots[j].serial,
        bytes_or_none(a.slots[i].record) == bytes_or_none(b.slots[j].record),
{
    law_material_tells_all(a, b, dongles, bind, dongles, bind);
    law_found_device(a.slots, n);
    law_found_device(b.slots, n);
    assert(same_device(a, b, n));
}

/// The mask of occupied slots holds the slots of the devices, and no other.
pub proof fn law_occupied_slots(slots: Seq<SlotInfoView>, n: u8)
    requires
        forall|i: int| 0 <= i < slots.len() ==> 1 <= (#[trigger] slots[i]).slot <= 8,
        1 <= n <= 8,
    ensures
        mask_of(slots) & (1u8 << ((n - 1) as u8)) != 0 <==> has_device(slots, n),
    decreases slots.len(),
{
    if slots.len() == 0 {
        let m = 1u8 << ((n - 1) as u8);
        assert(0u8 & m == 0) by (bit_vector);
    } else {
        let init = slots.drop_last();
        assert forall|i: int| 0 <= i < init.len() implies 1 <= (#[trigger] init[i]).slot <= 8 by {
            assert(init[i] == slots[i]);
        }
        law_occupied_slots(init, n);
        let (x, y, m) = ((slots.last().slot - 1) as u8, (n - 1) as u8, mask_of(init));
        assert(x < 8 && y < 8 ==> ((m | (1u8 << x)) & (1u8 << y) != 0 <==> m & (1u8 << y) != 0 || x
            == y)) by (bit_vector);
        assert(slots.last() == slots[slots.len() - 1]);
        if has_device(init, n) {
            let i = choose|i: int| 0 <= i < init.len() && (#[trigger] init[i]).slot == n;
            assert(slots[i].slot == n);
        }
        if has_device(slots, n) && slots.last().slot != n {
            let i = choose|i: int| 0 <= i < slots.len() && (#[trigger] slots[i]).slot == n;
            assert(init[i].slot == n);
        }
    }
}

/// The receivers that are plugged, as a mask: 1 for the TI receiver, 2 for the Nano receiver.
pub proof fn law_plugged(f: FingerprintView)
    ensures
        f.plugged() == (if f.ti_present {
            1int
        } else {
            0
        }) + (if f.nano_present {
            2int
        } else {
            0
        }),
{
}

/// Records are counted one for each device that has one; in a binding, of the devices in its slots.
pub proof fn law_records_counted(slots: Seq<SlotInfoView>, bind: u8)
    ensures
        records(slots) == slots.filter(|s: SlotInfoView| s.record is Some).len(),
        records_in(slots, bind) == slots.filter(
            |s: SlotInfoView|
                s.record is Some && bind & (1u8 << ((s.slot as int - 1) as u8)) != 0,
        ).len(),
    decreases slots.len(),
{
    reveal(Seq::filter);
    if slots.len() > 0 {
        law_records_counted(slots.drop_last(), bind);
    }
}

/// The tag of a fingerprint is that of the material for every receiver that is plugged and every
/// slot that is occupied.
pub proof fn law_kid_of_everything(f: FingerprintView, dongles: u8, bind: u8, m: Seq<u8>)
    requires
        f.wf(),
        dongles == (if f.ti_present {
            1int
        } else {
            0
        }) + (if f.nano_present {
            2int
        } else {
            0
        }),
        forall|n: u8|
            1 <= n <= 8 ==> (bind & (1u8 << ((n - 1) as u8)) != 0 <==> #[trigger] has_device(
                f.slots,
                n,
            )),
        f.material(dongles, bind) == Ok::<Seq<u8>, Seq<char>>(m),
    ensures
        f.kid() == crypto::hkdf_output(
            "uniseal-kid-v1".spec_bytes(),
            m,
            "uniseal-kid".spec_bytes(),
            8,
        ),
{
    let o = mask_of(f.slots);
    assert forall|k: u8| k < 8 implies (#[trigger] (bind & (1u8 << k)) != 0 <==> o & (1u8 << k)
        != 0) by {
        law_occupied_slots(f.slots, (k + 1) as u8);
        assert(has_device(f.slots, (k + 1) as u8) <==> bind & (1u8 << k) != 0);
    }
    lemma_same_bits(bind, o);
}

/// Masks with the same bits are the same.
pub proof fn lemma_same_bits(m: u8, o: u8)
    requires
        forall|k: u8| k < 8 ==> (#[trigger] (m & (1u8 << k)) != 0 <==> o & (1u8 << k) != 0),
    ensures
        m == o,
{
    assert((m & (1u8 << 0) != 0 <==> o & (1u8 << 0) != 0) && (m & (1u8 << 1) != 0 <==> o & (1u8
        << 1) != 0) && (m & (1u8 << 2) != 0 <==> o & (1u8 << 2) != 0) && (m & (1u8 << 3) != 0
        <==> o & (1u8 << 3) != 0) && (m & (1u8 << 4) != 0 <==> o & (1u8 << 4) != 0) && (m & (1u8
        << 5) != 0 <==> o & (1u8 << 5) != 0) && (m & (1u8 << 6) != 0 <==> o & (1u8 << 6) != 0)
        && (m & (1u8 << 7) != 0 <==> o & (1u8 << 7) != 0) ==> m == o) by (bit_vector);
}

/// A fingerprint rests on pairing records where a device has one; the grade says how many.
pub proof fn law_grade(f: FingerprintView)
    requires
        f.slots.len() < 256,
    ensures
        ({
            let n = f.slots.filter(|s: SlotInfoView| s.record is Some).len();
            f.grade() == if n == 0 {
                "serials only"@
            } else {
                "pairing records ("@ + text::decimal_text(n) + ")"@
            }
        }),
{
    law_records_counted(f.slots, 0);
    lemma_few_records(f.slots);
}

pub proof fn lemma_few_records(slots: Seq<SlotInfoView>)
    ensures
        records(slots) <= slots.len(),
    decreases slots.len(),
{
    if slots.len() > 0 {
        lemma_few_records(slots.drop_last());
    }
}

/// The summary names the receivers that are there, the number of devices and the grade.
pub proof fn law_summary(f: FingerprintView)
    ensures
        f.summary() == (if f.ti_present && f.nano_present {
            "TI C52B "@ + f.firmware + " + "@ + "Nano C52F"@
        } else if f.ti_present {
            "TI C52B "@ + f.firmware
        } else if f.nano_present {
            "Nano C52F"@
        } else {
            seq![]
        }) + " | slots "@ + text::decimal_text(f.slots.len()) + " | grade: "@ + f.grade(),
{
}

/// The messages of a read that failed; one for want of an answer says what did not answer.
pub proof fn law_read_messages(w: Seq<char>)
    ensures
        FpErrorView::NoReceiver.text() == "no supported receiver (CU-0008 / CU-0010)"@,
        FpErrorView::Unresponsive(w).text() == "receiver did not answer ("@ + w
            + "); close Solaar / Logi Options and retry"@,
        FpErrorView::Unstable.text()
            == "fingerprint differed between consecutive reads; refusing to use it"@,
{
}

} // verus!
