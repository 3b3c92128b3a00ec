//! What the command line decides and says; asking, reading and writing happen around it.

use crate::fingerprint::bind;
use crate::fingerprint::{self, Fingerprint, FingerprintView};
use crate::text;
use crate::vault::error::{self, ErrorView};
use crate::vault::kind::{self, Dongle, DongleView, Kind, SlotSpec, SpecView};
use crate::vault::label;
use crate::vault::slot::{self, DongleSource, Slot, SlotView};
use crate::vault::unlock;
use crate::vault::{Header, Secret};
use vstd::prelude::*;

verus! {

/// A new passphrase must not be empty.
pub fn refuse_empty(first: &Secret) -> (r: Result<(), String>)
    ensures
        r is Ok <==> first@.len() > 0,
        r matches Err(why) ==> why@ == "empty passphrase refused"@,
{
    if first.is_empty() {
        Err(text::owned("empty passphrase refused"))
    } else {
        Ok(())
    }
}

/// A new passphrase must be typed twice alike.
pub fn confirmed(first: Secret, again: &Secret) -> (r: Result<Secret, String>)
    ensures
        match r {
            Ok(pass) => first@ == again@ && pass@ == first@,
            Err(why) => first@ != again@ && why@ == "passphrases differ"@,
        },
{
    if first.same(again) {
        Ok(first)
    } else {
        Err(text::owned("passphrases differ"))
    }
}

/// A passphrase that is asked for at most once, however many keyslots want one.
pub struct AskOnce {
    pub asked: bool,
    pub typed: Option<Secret>,
}

impl AskOnce {
    /// What is not empty was typed, and only after having been asked for.
    pub open spec fn wf(self) -> bool {
        self.typed matches Some(p) ==> self.asked && p@.len() > 0
    }

    pub fn new() -> (a: AskOnce)
        ensures
            a.wf(),
            !a.asked,
    {
        AskOnce { asked: false, typed: None }
    }

    /// Takes in what was typed, if it was read at all. An empty answer is none.
    pub fn heard(&mut self, typed: Option<Secret>)
        requires
            old(self).wf(),
            !old(self).asked,
        ensures
            final(self).wf(),
            final(self).asked,
            unlock::secret_view(final(self).typed) == match typed {
                Some(p) => if p@.len() > 0 {
                    Some(p@)
                } else {
                    None
                },
                None => None,
            },
    {
        self.asked = true;
        self.typed = match typed {
            Some(p) => {
                if p.is_empty() {
                    None
                } else {
                    Some(p)
                }
            },
            None => None,
        };
    }

    /// The answer for a keyslot.
    pub fn answer(&self) -> (p: Option<Secret>)
        ensures
            unlock::secret_view(p) == unlock::secret_view(self.typed),
    {
        match &self.typed {
            Some(p) => Some(p.clone()),
            None => None,
        }
    }
}

/// What the user is asked for at keyslot `i`.
pub fn ask_label(i: usize, s: &Slot) -> (r: String)
    ensures
        r@ == "slot "@ + text::decimal_text(i as nat) + " "@ + if s.kind == Kind::DonglePass {
            "PIN"@
        } else {
            "passphrase"@
        },
{
    let mut r: String = text::glue("slot ", text::decimal(i as u64).as_str());
    r.append(" ");
    match s.kind {
        Kind::DonglePass => r.append("PIN"),
        _ => r.append("passphrase"),
    }
    r
}

/// One line about what a new keyslot is bound to.
pub open spec fn binding_text(d: DongleView) -> Seq<char> {
    "binding: "@ + label::dongles_text(d.dongles) + " · "@ + label::bind_text(d.bind) + " · "@
        + text::decimal_text(d.nkeys as nat) + " rec."@
}

/// One line about what a new keyslot is bound to.
pub fn binding_line(d: &Dongle) -> (s: String)
    ensures
        s@ == binding_text(d@),
{
    let mut s: String = text::glue("binding: ", label::dongles_label(d.dongles).as_str());
    s.append(" · ");
    s.append(label::bind_label(d.bind).as_str());
    s.append(" · ");
    s.append(text::decimal(d.nkeys as u64).as_str());
    s.append(" rec.");
    s
}

/// The dongle of a fingerprint for a `--bind` argument, or why there is none.
pub open spec fn dongle_choice(fp: FingerprintView, bind: Seq<char>) -> Result<
    DongleView,
    Seq<char>,
> {
    match bind::bind_of(bind) {
        Err(why) => Err(why),
        Ok(b) => {
            let mask = match b {
                Some(m) => m,
                None => fingerprint::mask_of(fp.slots),
            };
            match fp.material(fp.plugged(), mask) {
                Err(why) => Err(why),
                Ok(material) => Ok(
                    DongleView {
                        material,
                        dongles: fp.plugged(),
                        nkeys: (fingerprint::records_in(fp.slots, mask) % 256) as u8,
                        bind: mask,
                    },
                ),
            }
        },
    }
}

/// Dongle material for a lock/addkey, and whether to warn that the keyslot rests on serials alone.
pub fn dongle_for(fp: &Fingerprint, bind: &str, pin: bool) -> (r: Result<(Dongle, bool), String>)
    requires
        fp@.wf(),
    ensures
        match r {
            Ok((d, warn)) => {
                &&& dongle_choice(fp@, bind@) == Ok::<DongleView, Seq<char>>(d@)
                &&& warn == (d.nkeys == 0 && !pin)
            },
            Err(why) => dongle_choice(fp@, bind@) == Err::<DongleView, Seq<char>>(why@),
        },
{
    let b: Option<u8> = match bind::parse_bind(bind) {
        Ok(b) => b,
        Err(why) => return Err(why),
    };
    match fp.dongle(b) {
        Ok(d) => {
            let warn: bool = d.nkeys == 0 && !pin;
            Ok((d, warn))
        },
        Err(why) => Err(why),
    }
}

/// The keyslots of a new vault.
pub struct LockPlan<'a> {
    pub specs: Vec<SlotSpec<'a>>,
    /// Whether it goes without the dongles because none were readable.
    pub without_dongles: bool,
}

/// The recipes of a new vault: the dongles, with the PIN where there is one, and the recovery
/// passphrase.
pub open spec fn lock_recipes(
    dongle: Option<DongleView>,
    pin: Option<Seq<u8>>,
    recovery: Option<Seq<u8>>,
) -> Seq<SpecView> {
    let first = match (dongle, pin) {
        (Some(d), Some(p)) => seq![SpecView::of_dongle_pass(d, p)],
        (Some(d), None) => seq![SpecView::of_dongle(d)],
        (None, _) => Seq::empty(),
    };
    match recovery {
        Some(p) => first.push(SpecView::of_pass(p)),
        None => first,
    }
}

/// Plans the keyslots of a new vault; without dongles and without a recovery passphrase there are
/// none.
pub fn lock_plan<'a>(
    dongle: Option<&'a Dongle>,
    pin: Option<&'a [u8]>,
    recovery: Option<&'a [u8]>,
) -> (r: Option<LockPlan<'a>>)
    ensures
        r is None <==> dongle is None && recovery is None,
        r matches Some(plan) ==> {
            &&& kind::spec_views(plan.specs@) == lock_recipes(
                kind::dongle_view(dongle),
                slot::opt_bytes(pin),
                slot::opt_bytes(recovery),
            )
            &&& plan.without_dongles == (dongle is None)
        },
{
    let mut specs: Vec<SlotSpec<'a>> = Vec::new();
    match (dongle, pin) {
        (Some(d), Some(p)) => {
            specs.push(SlotSpec::dongle_pass(d, p));
        },
        (Some(d), None) => {
            specs.push(SlotSpec::dongle(d));
        },
        (None, _) => {
            if recovery.is_none() {
                return None;
            }
        },
    }
    if let Some(p) = recovery {
        specs.push(SlotSpec::pass(p));
    }
    assert(kind::spec_views(specs@) =~= lock_recipes(
        kind::dongle_view(dongle),
        slot::opt_bytes(pin),
        slot::opt_bytes(recovery),
    ));
    Some(LockPlan { specs, without_dongles: dongle.is_none() })
}

/// One line about a keyslot.
pub open spec fn slot_text(i: int, s: SlotView) -> Seq<char> {
    "slot "@ + text::decimal_text(i as nat) + ": "@ + s.description()
}

/// One line about a keyslot.
pub fn slot_line(i: usize, s: &Slot) -> (r: String)
    ensures
        r@ == slot_text(i as int, s@),
{
    let mut r: String = text::glue("slot ", text::decimal(i as u64).as_str());
    r.append(": ");
    r.append(s.describe().as_str());
    r
}

/// Whether a keyslot can be opened now.
pub open spec fn state_text(s: SlotView, check: Result<Option<Seq<u8>>, Seq<char>>) -> Seq<char> {
    match check {
        Err(why) => why,
        Ok(_) => if s.kind.wants_pass() {
            "openable with the passphrase"@
        } else {
            "openable with the plugged dongles"@
        },
    }
}

/// One line about a keyslot, its tag, and whether it can be opened now.
pub open spec fn info_text(
    i: int,
    s: SlotView,
    check: Result<Option<Seq<u8>>, Seq<char>>,
) -> Seq<char> {
    slot_text(i, s) + (if s.kind.wants_dongle() {
        " kid "@ + text::hex_text(s.kid)
    } else {
        Seq::empty()
    }) + " -> "@ + state_text(s, check)
}

/// One line about a keyslot, where `check` is what the receivers gave for it.
pub fn info_line(i: usize, s: &Slot, check: Result<Option<Secret>, String>) -> (r: String)
    ensures
        r@ == info_text(i as int, s@, slot::checked(check)),
{
    let mut r: String = slot_line(i, s);
    if s.needs_dongle() {
        r.append(" kid ");
        r.append(text::hex(s.kid.as_slice()).as_str());
    }
    r.append(" -> ");
    assert(r@ =~= slot_text(i as int, s@) + (if s@.kind.wants_dongle() {
        " kid "@ + text::hex_text(s@.kid)
    } else {
        Seq::empty()
    }) + " -> "@);
    match check {
        Err(why) => r.append(why.as_str()),
        Ok(_) => {
            if s.needs_pass() {
                r.append("openable with the passphrase")
            } else {
                r.append("openable with the plugged dongles")
            }
        },
    }
    r
}

/// Whether `line` is what a keyslot is listed as after a check against the receivers.
pub open spec fn listed<D: DongleSource + ?Sized>(
    line: Seq<char>,
    i: int,
    s: SlotView,
    src: Option<&D>,
) -> bool {
    exists|c: Result<Option<Seq<u8>>, Seq<char>>|
        line == info_text(i, s, c) && #[trigger] slot::checks_to::<D>(s, src, c)
}

/// A line for every keyslot, checked against the plugged receivers.
pub fn info_lines<D: DongleSource + ?Sized>(h: &Header, src: Option<&D>) -> (lines: Vec<String>)
    ensures
        lines@.len() == h@.len(),
        forall|i: int|
            0 <= i < lines@.len() ==> listed::<D>((#[trigger] lines@[i])@, i, h@[i], src),
{
    let mut lines: Vec<String> = Vec::new();
    let mut i: usize = 0;
    while i < h.slots.len()
        invariant
            i <= h.slots@.len(),
            lines@.len() == i,
            forall|j: int|
                0 <= j < i ==> listed::<D>((#[trigger] lines@[j])@, j, h@[j], src),
        decreases h.slots@.len() - i,
    {
        let check: Result<Option<Secret>, String> = h.slots[i].check_dongle(src);
        let ghost c = slot::checked(check);
        let line: String = info_line(i, &h.slots[i], check);
        assert(h@[i as int] == h.slots@[i as int]@);
        assert(slot::checks_to::<D>(h@[i as int], src, c));
        assert(listed::<D>(line@, i as int, h@[i as int], src));
        lines.push(line);
        i = i + 1;
    }
    lines
}

/// The keyslot that `addkey` is to add.
#[derive(Clone, Copy, PartialEq, Eq, Structural, Debug)]
pub enum KeyChoice {
    Pin,
    Recovery,
    Dongle,
}

/// What the flags of `addkey` choose: exactly one of them must be given.
pub fn choose_key(pin: bool, recovery: bool, dongle: bool) -> (r: Result<KeyChoice, String>)
    ensures
        match r {
            Ok(KeyChoice::Pin) => pin && !recovery && !dongle,
            Ok(KeyChoice::Recovery) => recovery && !pin && !dongle,
            Ok(KeyChoice::Dongle) => dongle && !pin && !recovery,
            Err(why) => {
                &&& !(pin && !recovery && !dongle)
                &&& !(recovery && !pin && !dongle)
                &&& !(dongle && !pin && !recovery)
                &&& why@ == "choose exactly one of --pin, --recovery, --dongle"@
            },
        },
{
    match (pin, recovery, dongle) {
        (true, false, false) => Ok(KeyChoice::Pin),
        (false, true, false) => Ok(KeyChoice::Recovery),
        (false, false, true) => Ok(KeyChoice::Dongle),
        _ => Err(text::owned("choose exactly one of --pin, --recovery, --dongle")),
    }
}

/// The recipe for a chosen keyslot, as far as what it takes is there.
pub fn key_recipe<'a>(
    choice: KeyChoice,
    dongle: Option<&'a Dongle>,
    pass: Option<&'a [u8]>,
) -> (r: Option<SlotSpec<'a>>)
    ensures
        match choice {
            KeyChoice::Recovery => match pass {
                Some(p) => r matches Some(s) && s@ == SpecView::of_pass(p@),
                None => r is None,
            },
            KeyChoice::Pin => match (dongle, pass) {
                (Some(d), Some(p)) => r matches Some(s) && s@ == SpecView::of_dongle_pass(d@, p@),
                _ => r is None,
            },
            KeyChoice::Dongle => match dongle {
                Some(d) => r matches Some(s) && s@ == SpecView::of_dongle(d@),
                None => r is None,
            },
        },
{
    match (choice, dongle, pass) {
        (KeyChoice::Recovery, _, Some(p)) => Some(SlotSpec::pass(p)),
        (KeyChoice::Pin, Some(d), Some(p)) => Some(SlotSpec::dongle_pass(d, p)),
        (KeyChoice::Dongle, Some(d), _) => Some(SlotSpec::dongle(d)),
        _ => None,
    }
}

/// Removes a keyslot, and says what was removed.
pub fn delete_key(h: &mut Header, i: usize) -> (r: Result<String, String>)
    ensures
        match r {
            Ok(said) => {
                &&& i < old(h)@.len() && old(h)@.len() != 1
                &&& final(h)@ == old(h)@.remove(i as int)
                &&& said@ == "removed slot "@ + text::decimal_text(i as nat) + " ("@
                    + old(h)@[i as int].description() + "); "@ + text::decimal_text(
                    final(h)@.len(),
                ) + " left"@
            },
            Err(why) => {
                &&& *final(h) == *old(h)
                &&& i >= old(h)@.len() ==> why@ == "no such keyslot"@
                &&& i < old(h)@.len() ==> old(h)@.len() == 1 && why@ == ErrorView::LastSlot.text()
            },
        },
{
    if i >= h.slots.len() {
        return Err(text::owned("no such keyslot"));
    }
    let gone: String = h.slots[i].describe();
    assert(h@[i as int] == h.slots@[i as int]@);
    match h.remove_slot(i) {
        Ok(_) => {
            let mut said: String = text::glue("removed slot ", text::decimal(i as u64).as_str());
            said.append(" (");
            said.append(gone.as_str());
            said.append("); ");
            said.append(text::decimal(h.slots.len() as u64).as_str());
            said.append(" left");
            Ok(said)
        },
        Err(e) => Err(e.message()),
    }
}

/// One line about a paired device.
pub open spec fn device_text(s: fingerprint::SlotInfoView) -> Seq<char> {
    "slot "@ + text::decimal_text(s.slot as nat) + " "@ + text::hex_text(s.wpid) + " "@ + s.kind
        + " '"@ + s.name + "'"@ + (if s.record is Some {
        " +record"@
    } else {
        Seq::empty()
    })
}

/// The lines about a fingerprint: its summary, its devices, its serials and its tag.
pub open spec fn id_texts(fp: FingerprintView) -> Seq<Seq<char>> {
    let ti = "TI serial "@ + text::hex_text(fp.receiver_serial) + "  D4 "@ + if fp.d4_open {
        "open"@
    } else {
        "closed"@
    };
    let nano = "Nano serial "@ + text::hex_text(fp.nano_serial);
    let tag = "kid "@ + text::hex_text(fp.kid()) + " (all plugged receivers, "@ + label::bind_text(
        fingerprint::mask_of(fp.slots),
    ) + ")"@;
    seq![fp.summary()] + fp.slots.map_values(|s: fingerprint::SlotInfoView| device_text(s)) + (
    if fp.ti_present {
        seq![ti]
    } else {
        Seq::empty()
    }) + (if fp.nano_present {
        seq![nano]
    } else {
        Seq::empty()
    }) + seq![tag]
}

fn device_line(s: &fingerprint::SlotInfo) -> (r: String)
    ensures
        r@ == device_text(s@),
{
    let mut r: String = text::glue("slot ", text::decimal(s.slot as u64).as_str());
    r.append(" ");
    r.append(s.wpid_hex().as_str());
    r.append(" ");
    r.append(s.kind.as_str());
    r.append(" '");
    r.append(s.name.as_str());
    r.append("'");
    if s.record.is_some() {
        r.append(" +record");
    }
    assert(r@ =~= device_text(s@));
    r
}

/// The lines about a fingerprint.
pub fn id_lines(fp: &Fingerprint) -> (lines: Vec<String>)
    requires
        fp@.wf(),
    ensures
        error::texts(lines@) == id_texts(fp@),
{
    let mut lines: Vec<String> = Vec::new();
    lines.push(fp.summary());
    let ghost devices = fp@.slots.map_values(|s: fingerprint::SlotInfoView| device_text(s));
    let mut i: usize = 0;
    while i < fp.slots.len()
        invariant
            i <= fp.slots@.len(),
            lines@.len() == i + 1,
            devices == fp@.slots.map_values(|s: fingerprint::SlotInfoView| device_text(s)),
            lines@[0]@ == fp@.summary(),
            forall|j: int| 1 <= j <= i ==> (#[trigger] lines@[j])@ == devices[j - 1],
        decreases fp.slots@.len() - i,
    {
        assert(fp@.slots[i as int] == fp.slots@[i as int]@);
        lines.push(device_line(&fp.slots[i]));
        i = i + 1;
    }
    assert(error::texts(lines@) =~= seq![fp@.summary()] + devices);
    if fp.ti_present {
        let mut r: String = text::glue(
            "TI serial ",
            text::hex(fp.receiver_serial.as_slice()).as_str(),
        );
        r.append("  D4 ");
        r.append(if fp.d4_open { "open" } else { "closed" });
        lines.push(r);
    }
    if fp.nano_present {
        lines.push(
            text::glue("Nano serial ", text::hex(fp.nano_serial.as_slice()).as_str()),
        );
    }
    let kid: [u8; 8] = fp.kid();
    let mut tag: String = text::glue("kid ", text::hex(kid.as_slice()).as_str());
    tag.append(" (all plugged receivers, ");
    tag.append(label::bind_label(fp.occupied()).as_str());
    tag.append(")");
    lines.push(tag);
    assert(error::texts(lines@) =~= id_texts(fp@));
    lines
}

/// The dongle for a `--bind` argument: every receiver that is plugged, bound to the slots of the
/// list, or to every occupied slot where the argument says so; with the material for these and the
/// number of records among them. An argument that is refused is refused for its own reason.
pub proof fn law_dongle_choice(fp: FingerprintView, arg: Seq<char>)
    requires
        fp.wf(),
    ensures
        bind::bind_of(arg) matches Err(why) ==> dongle_choice(fp, arg) == Err::<
            DongleView,
            Seq<char>,
        >(why),
        dongle_choice(fp, arg) matches Ok(d) ==> {
            &&& d.dongles == (if fp.ti_present {
                1int
            } else {
                0
            }) + (if fp.nano_present {
                2int
            } else {
                0
            })
            &&& fp.material(d.dongles, d.bind) == Ok::<Seq<u8>, Seq<char>>(d.material)
            &&& bind::bind_of(arg) matches Ok(Some(m)) ==> d.bind == m
            &&& bind::bind_of(arg) == Ok::<Option<u8>, Seq<char>>(None) ==> forall|n: u8|
                1 <= n <= 8 ==> (d.bind & (1u8 << ((n - 1) as u8)) != 0
                    <==> #[trigger] fingerprint::has_device(fp.slots, n))
            &&& d.nkeys == fp.slots.filter(
                |s: fingerprint::SlotInfoView|
                    s.record is Some && d.bind & (1u8 << ((s.slot as int - 1) as u8)) != 0,
            ).len() % 256
        },
        bind::bind_of(arg) matches Ok(Some(m)) ==> (dongle_choice(fp, arg) is Ok <==> fp.material(
            fp.plugged(),
            m,
        ) is Ok),
{
    if let Ok(d) = dongle_choice(fp, arg) {
        fingerprint::law_records_counted(fp.slots, d.bind);
        if bind::bind_of(arg) == Ok::<Option<u8>, Seq<char>>(None) {
            assert forall|n: u8| 1 <= n <= 8 implies (d.bind & (1u8 << ((n - 1) as u8)) != 0
                <==> #[trigger] fingerprint::has_device(fp.slots, n)) by {
                fingerprint::law_occupied_slots(fp.slots, n);
            }
        }
    }
}

/// What a new vault is locked with: the dongles, together with the PIN where one was given, so that
/// they do not open it alone; and a recovery passphrase in a keyslot of its own.
pub proof fn law_lock_recipes(
    dongle: Option<DongleView>,
    pin: Option<Seq<u8>>,
    recovery: Option<Seq<u8>>,
)
    ensures
        ({
            let r = lock_recipes(dongle, pin, recovery);
            &&& r.len() == (if dongle is Some {
                1int
            } else {
                0
            }) + (if recovery is Some {
                1int
            } else {
                0
            })
            &&& dongle is Some ==> {
                &&& r[0].dongle == dongle
                &&& r[0].pass == pin
                &&& r[0].kind == if pin is Some {
                    Kind::DonglePass
                } else {
                    Kind::Dongle
                }
            }
            &&& recovery is Some ==> {
                &&& r.last().kind == Kind::Pass
                &&& r.last().pass == recovery
                &&& r.last().dongle is None
            }
        }),
{
}

/// The line about a keyslot: its number and description, its tag where it needs receivers, and
/// whether it opens now, or the reason why not.
pub proof fn law_info(i: int, s: SlotView, check: Result<Option<Seq<u8>>, Seq<char>>)
    ensures
        ({
            let start = "slot "@ + text::decimal_text(i as nat) + ": "@ + s.description();
            let end = match check {
                Err(why) => why,
                Ok(_) => if s.kind == Kind::Dongle {
                    "openable with the plugged dongles"@
                } else {
                    "openable with the passphrase"@
                },
            };
            &&& s.kind == Kind::Pass ==> info_text(i, s, check) == start + seq![] + " -> "@ + end
            &&& s.kind != Kind::Pass ==> info_text(i, s, check) == start + (" kid "@
                + text::hex_text(s.kid)) + " -> "@ + end
        }),
{
}

/// The lines about a fingerprint: first the summary, then a line for every device in order, and last
/// the tag; before it the serial numbers of the receivers that are there.
pub proof fn law_id_lines(fp: FingerprintView, i: int)
    requires
        0 <= i < fp.slots.len(),
    ensures
        ({
            let lines = id_texts(fp);
            let s = fp.slots[i];
            let n = fp.slots.len() as int;
            &&& lines.len() == n + 2 + (if fp.ti_present {
                1int
            } else {
                0
            }) + (if fp.nano_present {
                1int
            } else {
                0
            })
            &&& lines[0] == fp.summary()
            &&& lines[1 + i] == "slot "@ + text::decimal_text(s.slot as nat) + " "@
                + text::hex_text(s.wpid) + " "@ + s.kind + " '"@ + s.name + "'"@ + (
            if s.record is Some {
                " +record"@
            } else {
                seq![]
            })
            &&& fp.ti_present ==> lines[1 + n] == "TI serial "@ + text::hex_text(fp.receiver_serial)
                + "  D4 "@ + if fp.d4_open {
                "open"@
            } else {
                "closed"@
            }
            &&& fp.nano_present ==> lines[lines.len() - 2] == "Nano serial "@ + text::hex_text(
                fp.nano_serial,
            )
            &&& lines.last() == "kid "@ + text::hex_text(fp.kid()) + " (all plugged receivers, "@
                + label::bind_text(fingerprint::mask_of(fp.slots)) + ")"@
        }),
{
}

/// The line about a binding names the receivers, the slots and the number of records.
pub proof fn law_binding_line(d: DongleView)
    ensures
        binding_text(d) == "binding: "@ + label::dongles_text(d.dongles) + " · "@
            + label::bind_text(d.bind) + " · "@ + text::decimal_text(d.nkeys as nat) + " rec."@,
{
}

/// A keyslot is listed with what the receivers give for it: a recovery keyslot as one to be opened
/// with its passphrase, another one without receivers as one that needs them.
pub proof fn law_listed<D: DongleSource + ?Sized>(
    line: Seq<char>,
    i: int,
    s: SlotView,
    src: Option<&D>,
)
    requires
        listed::<D>(line, i, s, src),
    ensures
        exists|c: Result<Option<Seq<u8>>, Seq<char>>| #[trigger]
            slot::checks_to::<D>(s, src, c) && line == info_text(i, s, c),
        s.kind == Kind::Pass ==> line == "slot "@ + text::decimal_text(i as nat) + ": "@
            + s.description() + seq![] + " -> "@ + "openable with the passphrase"@,
        s.kind != Kind::Pass && src is None ==> line == "slot "@ + text::decimal_text(i as nat)
            + ": "@ + s.description() + (" kid "@ + text::hex_text(s.kid)) + " -> "@ + (
        "needs dongle "@ + label::dongles_text(s.dongles) + ", none readable"@),
{
    let c = choose|c: Result<Option<Seq<u8>>, Seq<char>>|
        line == info_text(i, s, c) && #[trigger] slot::checks_to::<D>(s, src, c);
    assert(slot::checks_to::<D>(s, src, c));
    slot::law_own_binding_is_asked_for::<D>(s, src, c);
    law_info(i, s, c);
}

} // verus!
