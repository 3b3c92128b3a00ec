//! What the window shows of the receivers and of the keyslots of a vault.

use crate::fingerprint::{self, Fingerprint, FingerprintView, FpError, SlotInfo, SlotInfoView};
use crate::gui::Level;
use crate::text;
use crate::vault::label;
use crate::vault::slot::{self, DongleSource, Slot, SlotView};
use crate::vault::{Header, Kind, Secret};
use vstd::prelude::*;

verus! {

/// A paired device, as it is shown.
pub struct Device {
    pub label: String,
    /// Whether it has a pairing record.
    pub record: bool,
    /// Its receiver slot.
    pub slot: u8,
}

/// What is shown of the receivers.
pub struct Status {
    pub ok: bool,
    pub detail: String,
    pub name: String,
    pub line: String,
    pub serial: String,
    pub nano: Option<String>,
    pub devices: Vec<Device>,
    pub fp: Option<Fingerprint>,
    pub strong: bool,
    pub nkeys: u8,
}

/// The receivers that were read.
pub open spec fn name_text(fp: FingerprintView) -> Seq<char> {
    match (fp.ti_present, fp.nano_present) {
        (true, true) => "TI C52B + Nano C52F"@,
        (true, false) => "TI C52B"@,
        _ => "Nano C52F"@,
    }
}

/// One line about the main receiver.
pub open spec fn line_text(fp: FingerprintView) -> Seq<char> {
    let n = fingerprint::records(fp.slots) % 256;
    if fp.ti_present {
        fp.firmware + " · D4 "@ + (if fp.d4_open {
            "open"@
        } else {
            "closed"@
        }) + " · "@ + text::decimal_text(n) + " record"@ + (if n == 1 {
            Seq::empty()
        } else {
            "s"@
        })
    } else {
        "Nano only: serial, no pairing record"@
    }
}

/// The serial number of the main receiver.
pub open spec fn serial_text(fp: FingerprintView) -> Seq<char> {
    "serial "@ + text::hex_text(
        if fp.ti_present {
            fp.receiver_serial
        } else {
            fp.nano_serial
        },
    )
}

/// The name of a device, or else its product id.
pub open spec fn device_name(s: SlotInfoView) -> Seq<char> {
    if s.name.len() == 0 {
        "wpid "@ + text::hex_text(s.wpid)
    } else {
        s.name
    }
}

/// A device: its name, or else its product id, and its kind.
pub open spec fn device_text(s: SlotInfoView) -> Seq<char> {
    device_name(s) + " · "@ + s.kind
}

/// The characters of an optional text.
pub open spec fn opt_text(s: Option<String>) -> Option<Seq<char>> {
    match s {
        Some(s) => Some(s@),
        None => None,
    }
}

/// Whether a device is shown as it is.
pub open spec fn shows(d: Device, s: SlotInfoView) -> bool {
    &&& d.label@ == device_text(s)
    &&& d.record == (s.record is Some)
    &&& d.slot == s.slot
}

impl Status {
    /// What is shown before the receivers were read.
    pub open spec fn is_blank(self) -> bool {
        &&& !self.ok
        &&& self.name@ == Seq::<char>::empty()
        &&& self.line@ == Seq::<char>::empty()
        &&& self.serial@ == Seq::<char>::empty()
        &&& self.nano is None
        &&& self.devices@.len() == 0
        &&& self.fp is None
        &&& !self.strong
        &&& self.nkeys == 0
    }

    /// What is shown of a fingerprint.
    pub open spec fn shows(self, fp: FingerprintView) -> bool {
        &&& self.ok
        &&& self.detail@ == "receiver ready"@
        &&& self.name@ == name_text(fp)
        &&& self.line@ == line_text(fp)
        &&& self.serial@ == serial_text(fp)
        &&& match self.nano {
            Some(n) => fp.nano_present && n@ == "Nano C52F "@ + text::hex_text(fp.nano_serial),
            None => !fp.nano_present,
        }
        &&& self.devices@.len() == fp.slots.len()
        &&& forall|i: int|
            0 <= i < self.devices@.len() ==> shows(#[trigger] self.devices@[i], fp.slots[i])
        &&& self.fp matches Some(f) && f@ == fp
        &&& self.nkeys == fingerprint::records(fp.slots) % 256
        &&& self.strong == (self.nkeys > 0)
    }

    /// The fingerprint that was read has slots that a mask can hold.
    pub open spec fn wf(self) -> bool {
        self.fp matches Some(f) ==> f@.wf()
    }

    pub fn blank() -> (s: Status)
        ensures
            s.is_blank(),
            s.detail@ == Seq::<char>::empty(),
            s.wf(),
    {
        Status {
            ok: false,
            detail: String::new(),
            name: String::new(),
            line: String::new(),
            serial: String::new(),
            nano: None,
            devices: Vec::new(),
            fp: None,
            strong: false,
            nkeys: 0,
        }
    }
}

fn describe_device(s: &SlotInfo) -> (d: Device)
    ensures
        shows(d, s@),
{
    let mut label: String = if s.name.as_str().is_empty() {
        text::glue("wpid ", s.wpid_hex().as_str())
    } else {
        s.name.clone()
    };
    label.append(" · ");
    label.append(s.kind.as_str());
    Device { label, record: s.record.is_some(), slot: s.slot }
}

fn describe_receiver(fp: &Fingerprint, nkeys: u8) -> (line: String)
    requires
        nkeys == fingerprint::records(fp@.slots) % 256,
    ensures
        line@ == line_text(fp@),
{
    if !fp.ti_present {
        return text::owned("Nano only: serial, no pairing record");
    }
    let mut line: String = text::glue(fp.firmware.as_str(), " · D4 ");
    line.append(if fp.d4_open { "open" } else { "closed" });
    line.append(" · ");
    line.append(text::decimal(nkeys as u64).as_str());
    line.append(" record");
    if nkeys != 1 {
        line.append("s");
    }
    assert(line@ =~= line_text(fp@));
    line
}

/// What is shown after the receivers were read.
pub fn refresh(read: Result<Fingerprint, FpError>) -> (st: Status)
    requires
        read matches Ok(fp) ==> fp@.wf(),
    ensures
        st.wf(),
        match read {
            Ok(fp) => st.shows(fp@),
            Err(e) => st.is_blank() && st.detail@ == e@.text(),
        },
{
    let mut st: Status = Status::blank();
    match read {
        Ok(fp) => {
            st.ok = true;
            st.nkeys = fp.nkeys();
            st.strong = st.nkeys > 0;
            st.name = match (fp.ti_present, fp.nano_present) {
                (true, true) => text::owned("TI C52B + Nano C52F"),
                (true, false) => text::owned("TI C52B"),
                _ => text::owned("Nano C52F"),
            };
            st.line = describe_receiver(&fp, st.nkeys);
            st.serial = text::glue(
                "serial ",
                text::hex(
                    if fp.ti_present {
                        fp.receiver_serial.as_slice()
                    } else {
                        fp.nano_serial.as_slice()
                    },
                ).as_str(),
            );
            st.nano = if fp.nano_present {
                Some(text::glue("Nano C52F ", text::hex(fp.nano_serial.as_slice()).as_str()))
            } else {
                None
            };
            let mut devices: Vec<Device> = Vec::new();
            let mut i: usize = 0;
            while i < fp.slots.len()
                invariant
                    i <= fp.slots@.len(),
                    devices@.len() == i,
                    forall|j: int| 0 <= j < i ==> shows(#[trigger] devices@[j], fp@.slots[j]),
                decreases fp.slots@.len() - i,
            {
                devices.push(describe_device(&fp.slots[i]));
                assert(fp@.slots[i as int] == fp.slots@[i as int]@);
                i = i + 1;
            }
            st.devices = devices;
            st.detail = text::owned("receiver ready");
            st.fp = Some(fp);
        },
        Err(e) => {
            st.detail = e.message();
        },
    }
    st
}

/// What is shown of a keyslot.
pub struct SlotState {
    pub desc: String,
    pub state: String,
    pub level: Level,
}

/// Whether a keyslot can be opened now, in words.
pub open spec fn state_of(s: SlotView, check: Result<Option<Seq<u8>>, Seq<char>>) -> (
    Seq<char>,
    Level,
) {
    match check {
        Ok(_) => if s.kind.wants_pass() {
            ("needs passphrase"@, Level::Warn)
        } else {
            ("opens now"@, Level::Good)
        },
        Err(why) => if text::occurs(why, "none readable"@) {
            ("no dongles"@, Level::Bad)
        } else if text::occurs(why, "missing"@) {
            ("device missing"@, Level::Bad)
        } else if text::occurs(why, "needs dongle"@) {
            ("other dongles"@, Level::Bad)
        } else {
            ("kid mismatch"@, Level::Bad)
        },
    }
}

impl SlotState {
    /// Whether this is what is shown of a keyslot for which the receivers gave `check`.
    pub open spec fn tells(
        self,
        s: SlotView,
        check: Result<Option<Seq<u8>>, Seq<char>>,
    ) -> bool {
        &&& self.desc@ == s.description()
        &&& self.state@ == state_of(s, check).0
        &&& self.level == state_of(s, check).1
    }
}

/// Judges a keyslot by what the receivers gave for it.
pub fn judge_slot(s: &Slot, check: Result<Option<Secret>, String>) -> (v: SlotState)
    ensures
        v.tells(s@, slot::checked(check)),
{
    let (state, level): (&str, Level) = match &check {
        Ok(_) => {
            if s.needs_pass() {
                ("needs passphrase", Level::Warn)
            } else {
                ("opens now", Level::Good)
            }
        },
        Err(why) => {
            if text::contains(why.as_str(), "none readable") {
                ("no dongles", Level::Bad)
            } else if text::contains(why.as_str(), "missing") {
                ("device missing", Level::Bad)
            } else if text::contains(why.as_str(), "needs dongle") {
                ("other dongles", Level::Bad)
            } else {
                ("kid mismatch", Level::Bad)
            }
        },
    };
    SlotState { desc: s.describe(), state: text::owned(state), level }
}

/// Whether a keyslot can be shown like this after a check against the receivers.
pub open spec fn judged<D: DongleSource + ?Sized>(
    v: SlotState,
    s: SlotView,
    src: Option<&D>,
) -> bool {
    exists|c: Result<Option<Seq<u8>>, Seq<char>>|
        v.tells(s, c) && #[trigger] slot::checks_to::<D>(s, src, c)
}

/// The keyslots of a vault and whether each can open now.
pub fn inspect<D: DongleSource + ?Sized>(h: &Header, src: Option<&D>) -> (v: Vec<SlotState>)
    ensures
        v@.len() == h@.len(),
        forall|i: int| 0 <= i < v@.len() ==> judged::<D>(#[trigger] v@[i], h@[i], src),
{
    let mut v: Vec<SlotState> = Vec::new();
    let mut i: usize = 0;
    while i < h.slots.len()
        invariant
            i <= h.slots@.len(),
            v@.len() == i,
            forall|j: int| 0 <= j < i ==> judged::<D>(#[trigger] v@[j], h@[j], src),
        decreases h.slots@.len() - i,
    {
        let check: Result<Option<Secret>, String> = h.slots[i].check_dongle(src);
        let ghost c = slot::checked(check);
        let shown: SlotState = judge_slot(&h.slots[i], check);
        assert(h@[i as int] == h.slots@[i as int]@);
        assert(slot::checks_to::<D>(h@[i as int], src, c));
        assert(judged::<D>(shown, h@[i as int], src));
        v.push(shown);
        i = i + 1;
    }
    v
}

proof fn lemma_lacks(s: Seq<char>, part: Seq<char>, k: int)
    requires
        0 <= k < part.len(),
        !s.contains(part[k]),
    ensures
        !text::occurs(s, part),
{
    if text::occurs(s, part) {
        let i = choose|i: int|
            0 <= i <= s.len() - part.len() && #[trigger] s.subrange(i, i + part.len()) == part;
        assert(s.subrange(i, i + part.len())[k] == s[i + k]);
        assert(s.contains(part[k]));
    }
}

/// What is shown of a keyslot: that it opens, that it opens with a passphrase, or for which reason
/// the receivers rule it out: none of them could be read, a bound device is missing, or the keyslot
/// is bound to others.
pub proof fn law_states(s: SlotView, m: Option<Seq<u8>>, dongles: u8, plugged: u8, n: nat)
    ensures
        s.kind == Kind::Dongle ==> state_of(s, Ok(m)) == ("opens now"@, Level::Good),
        s.kind != Kind::Dongle ==> state_of(s, Ok(m)) == ("needs passphrase"@, Level::Warn),
        state_of(
            s,
            Err("needs dongle "@ + label::dongles_text(dongles) + ", none readable"@),
        ) == ("no dongles"@, Level::Bad),
        state_of(
            s,
            Err(
                "device in receiver slot "@ + text::decimal_text(n)
                    + " missing (unpaired or re-paired?)"@,
            ),
        ) == ("device missing"@, Level::Bad),
        state_of(
            s,
            Err(
                "needs dongle "@ + label::dongles_text(dongles) + ", plugged "@
                    + label::dongles_text(plugged),
            ),
        ) == ("other dongles"@, Level::Bad),
{
    reveal_strlit("none readable");
    reveal_strlit("missing");
    reveal_strlit("needs dongle");
    reveal_strlit("needs dongle ");
    reveal_strlit(", none readable");
    reveal_strlit(", plugged ");
    reveal_strlit("device in receiver slot ");
    reveal_strlit(" missing (unpaired or re-paired?)");
    reveal_strlit("TI+Nano");
    reveal_strlit("TI");
    reveal_strlit("Nano");
    reveal_strlit("none");
    let named = label::dongles_text(dongles);
    let none = "needs dongle "@ + named + ", none readable"@;
    let at = ("needs dongle "@ + named).len() + 2;
    assert(none.subrange(at as int, at as int + 13) =~= "none readable"@);
    assert(text::occurs(none, "none readable"@));
    let digits = text::decimal_text(n);
    let gone = "device in receiver slot "@ + digits + " missing (unpaired or re-paired?)"@;
    let from = ("device in receiver slot "@ + digits).len() + 1;
    text::law_decimal(n);
    assert(gone.subrange(from as int, from as int + 7) =~= "missing"@);
    assert(text::occurs(gone, "missing"@));
    assert(!gone.contains('b')) by {
        assert forall|i: int| 0 <= i < gone.len() implies gone[i] != 'b' by {
            let a = "device in receiver slot "@.len();
            if a <= i < a + digits.len() {
                assert(gone[i] == digits[i - a]);
            }
        }
    }
    lemma_lacks(gone, "none readable"@, 10);
    let other = "needs dongle "@ + named + ", plugged "@ + label::dongles_text(plugged);
    assert(other.subrange(0, 0 + "needs dongle"@.len() as int) =~= "needs dongle"@);
    assert(text::occurs(other, "needs dongle"@));
    assert(!other.contains('b'));
    assert(!other.contains('m'));
    lemma_lacks(other, "none readable"@, 10);
    lemma_lacks(other, "missing"@, 0);
}

/// What is shown of the receivers: which of them are there, whether the flash is open and how many
/// records there are, the serial number of the TI receiver where it is there, and of each device its
/// name, or its product id where it has none, and its kind.
pub proof fn law_receivers_shown(fp: FingerprintView, s: SlotInfoView)
    requires
        fp.slots.len() < 256,
    ensures
        fp.ti_present && fp.nano_present ==> name_text(fp) == "TI C52B + Nano C52F"@,
        fp.ti_present && !fp.nano_present ==> name_text(fp) == "TI C52B"@,
        !fp.ti_present ==> name_text(fp) == "Nano C52F"@,
        !fp.ti_present ==> line_text(fp) == "Nano only: serial, no pairing record"@,
        fp.ti_present ==> {
            let n = fp.slots.filter(|s: SlotInfoView| s.record is Some).len();
            line_text(fp) == fp.firmware + " · D4 "@ + (if fp.d4_open {
                "open"@
            } else {
                "closed"@
            }) + " · "@ + text::decimal_text(n) + " record"@ + (if n == 1 {
                seq![]
            } else {
                "s"@
            })
        },
        fp.ti_present ==> serial_text(fp) == "serial "@ + text::hex_text(fp.receiver_serial),
        !fp.ti_present ==> serial_text(fp) == "serial "@ + text::hex_text(fp.nano_serial),
        s.name.len() > 0 ==> device_text(s) == s.name + " · "@ + s.kind,
        s.name.len() == 0 ==> device_text(s) == "wpid "@ + text::hex_text(s.wpid) + " · "@ + s.kind,
{
    fingerprint::law_records_counted(fp.slots, 0);
    fingerprint::lemma_few_records(fp.slots);
}

/// The window shows the fingerprint that was read, and nothing of another one: that it is ready, its
/// texts, a device for every paired one, how many records there are, and that it is strong where
/// there is one at all.
pub proof fn law_fingerprint_shown(st: Status, fp: FingerprintView, i: int)
    requires
        st.shows(fp),
        fp.slots.len() < 256,
    ensures
        ({
            let n = fp.slots.filter(|s: SlotInfoView| s.record is Some).len();
            &&& st.ok
            &&& st.detail@ == "receiver ready"@
            &&& st.name@ == name_text(fp)
            &&& st.line@ == line_text(fp)
            &&& st.serial@ == serial_text(fp)
            &&& st.fp is Some && st.fp->0@ == fp
            &&& st.nkeys == n
            &&& st.strong <==> n > 0
            &&& st.nano is Some <==> fp.nano_present
            &&& st.nano matches Some(s) ==> s@ == "Nano C52F "@ + text::hex_text(fp.nano_serial)
            &&& st.devices@.len() == fp.slots.len()
            &&& 0 <= i < fp.slots.len() ==> {
                let (d, s) = (st.devices@[i], fp.slots[i]);
                &&& d.label@ == device_text(s)
                &&& d.slot == s.slot
                &&& d.record <==> s.record is Some
            }
        }),
{
    fingerprint::law_records_counted(fp.slots, 0);
    fingerprint::lemma_few_records(fp.slots);
    if 0 <= i < fp.slots.len() {
        assert(shows(st.devices@[i], fp.slots[i]));
    }
}

/// Where nothing was read nothing is shown, and there is nothing to lock with.
pub proof fn law_nothing_shown(st: Status)
    requires
        st.is_blank(),
    ensures
        !st.ok && st.fp is None && !st.strong && st.nkeys == 0 && st.nano is None,
        st.devices@.len() == 0,
        st.name@.len() == 0 && st.line@.len() == 0 && st.serial@.len() == 0,
{
}

/// What is shown of a keyslot is its description and the state that the receivers give it.
pub proof fn law_keyslot_shown<D: DongleSource + ?Sized>(
    v: SlotState,
    s: SlotView,
    src: Option<&D>,
)
    requires
        judged::<D>(v, s, src),
    ensures
        v.desc@ == s.description(),
        exists|c: Result<Option<Seq<u8>>, Seq<char>>| #[trigger]
            slot::checks_to::<D>(s, src, c) && v.state@ == state_of(s, c).0 && v.level == state_of(
                s,
                c,
            ).1,
        s.kind == Kind::Pass ==> v.state@ == "needs passphrase"@ && v.level == Level::Warn,
        s.kind != Kind::Pass && src is None ==> v.state@ == "no dongles"@ && v.level == Level::Bad,
{
    let c = choose|c: Result<Option<Seq<u8>>, Seq<char>>|
        v.tells(s, c) && #[trigger] slot::checks_to::<D>(s, src, c);
    assert(slot::checks_to::<D>(s, src, c));
    slot::law_own_binding_is_asked_for::<D>(s, src, c);
    law_states(s, None, s.dongles, 0, 0);
}

} // verus!
