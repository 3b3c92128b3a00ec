use uniseal::fingerprint::bind::{parse_bind as parse_bind_again, trim, whitespace};
use uniseal::fingerprint::collect::{Collected, Collector};
use uniseal::fingerprint::read::{Heard, Next, Reader};
use uniseal::fingerprint::{parse_bind, Fingerprint, FpError, Record, SlotInfo};
use uniseal::hid::{Query, Reply, NANO_PID, TI_PID};
use uniseal::vault::{hex, kid, DongleSource, DONGLE_NANO, DONGLE_TI};

fn fp() -> Fingerprint {
    Fingerprint {
        ti_present: true,
        receiver_serial: vec![0x11, 0x22, 0x33, 0x44],
        firmware: "RQR00.00_B0000".into(),
        d4_open: true,
        slots: vec![
            SlotInfo {
                slot: 1,
                wpid: [0x40, 0x4D],
                kind: "keyboard".into(),
                name: "K1".into(),
                serial: vec![1, 2, 3, 4],
                record: Some(Record::new(&[7; 16])),
            },
            SlotInfo {
                slot: 3,
                wpid: [0x40, 0x8A],
                kind: "mouse".into(),
                name: "M3".into(),
                serial: vec![5, 6, 7, 8],
                record: None,
            },
        ],
        nano_present: false,
        nano_serial: vec![],
    }
}

#[test]
fn binding_and_material() {
    let f = fp();
    assert_eq!(f.occupied(), 0b101);
    assert_eq!(parse_bind("all").unwrap(), None);
    assert_eq!(parse_bind("receiver").unwrap(), Some(0));
    assert_eq!(parse_bind("1,3").unwrap(), Some(0b101));
    assert!(parse_bind("7").is_err());
    let all = f.dongle(None).unwrap();
    assert_eq!((all.bind, all.nkeys, all.dongles), (0b101, 1, DONGLE_TI));
    let recv = f.dongle(Some(0)).unwrap();
    assert_eq!((recv.bind, recv.nkeys), (0, 0));
    assert_ne!(all.material.as_slice(), recv.material.as_slice());
    assert!(f.dongle(Some(0b010)).unwrap_err().contains("slot 2 missing"));
    assert!(f.material(DONGLE_NANO, 0).unwrap_err().contains("needs dongle Nano"));
    // Pairing a new device in slot 2 leaves a slots-1,3 material untouched.
    let mut more = f.clone();
    more.slots.push(SlotInfo {
        slot: 2,
        wpid: [0, 1],
        kind: "mouse".into(),
        name: "new".into(),
        serial: vec![9],
        record: None,
    });
    assert_eq!(
        more.material(DONGLE_TI, 0b101).unwrap().as_slice(),
        f.material(DONGLE_TI, 0b101).unwrap().as_slice()
    );
    assert_ne!(more.dongle(None).unwrap().material.as_slice(), all.material.as_slice());
}

#[test]
fn material_layout() {
    let mut f = fp();
    f.nano_present = true;
    f.nano_serial = vec![0xA1, 0xA2, 0xA3, 0xA4];
    let mut want = b"uniseal-fp-v1".to_vec();
    want.extend_from_slice(&[3, 0b101, 0xC5, 0x2B, 0x11, 0x22, 0x33, 0x44]);
    want.extend_from_slice(&[1, 0x40, 0x4D, 4, 1, 2, 3, 4, 16]);
    want.extend_from_slice(&[7; 16]);
    want.extend_from_slice(&[3, 0x40, 0x8A, 4, 5, 6, 7, 8, 0]);
    want.extend_from_slice(&[0xC5, 0x2F, 0xA1, 0xA2, 0xA3, 0xA4]);
    assert_eq!(f.material(3, 0b101).unwrap().as_slice(), &want[..]);
    let mut nano = b"uniseal-fp-v1".to_vec();
    nano.extend_from_slice(&[2, 0xFF, 0xC5, 0x2F, 0xA1, 0xA2, 0xA3, 0xA4]);
    assert_eq!(f.material(2, 0xFF).unwrap().as_slice(), &nano[..]);
    assert_eq!(f.plugged(), 3);
    assert_eq!(f.kid(), kid(&want));
    assert_eq!(hex(&f.kid()).len(), 16);
}

#[test]
fn material_errors() {
    let f = fp();
    assert_eq!(f.material(0, 0).unwrap_err(), "no receiver selected");
    assert_eq!(f.material(3, 0).unwrap_err(), "needs dongle TI+Nano, plugged TI");
    assert_eq!(f.material(4, 0).unwrap_err(), "needs dongle none, plugged TI");
    assert_eq!(
        f.material(1, 0b100000).unwrap_err(),
        "device in receiver slot 6 missing (unpaired or re-paired?)"
    );
    // Bits beyond the sixth slot name no device.
    assert!(f.material(1, 0b1100_0101).is_ok());
    assert_eq!(Fingerprint::default().kid(), [0; 8]);
    assert_eq!(Fingerprint::default().plugged(), 0);
}

#[test]
fn material_tells_fields_apart() {
    // Moving a byte from one field to the next gives other material.
    let mut a = fp();
    a.slots[0].serial = vec![1, 2, 3, 4, 5];
    a.slots[0].record = None;
    let mut b = fp();
    b.slots[0].serial = vec![1, 2, 3, 4];
    b.slots[0].record = None;
    assert_ne!(a.material(1, 1).unwrap().as_slice(), b.material(1, 1).unwrap().as_slice());
    // The firmware and the names do not count.
    let mut c = fp();
    c.firmware = "other".into();
    c.slots[0].name = "other".into();
    assert_eq!(c.material(1, 5).unwrap().as_slice(), fp().material(1, 5).unwrap().as_slice());
}

#[test]
fn grade_and_summary() {
    let mut f = fp();
    assert_eq!(f.nkeys(), 1);
    assert_eq!(f.grade(), "pairing records (1)");
    assert_eq!(f.summary(), "TI C52B RQR00.00_B0000 | slots 2 | grade: pairing records (1)");
    f.slots[0].record = None;
    f.nano_present = true;
    assert_eq!(f.grade(), "serials only");
    assert_eq!(
        f.summary(),
        "TI C52B RQR00.00_B0000 + Nano C52F | slots 2 | grade: serials only"
    );
    assert_eq!(f.slots[1].wpid_hex(), "408A");
}

#[test]
fn messages() {
    assert_eq!(FpError::NoReceiver.message(), "no supported receiver (CU-0008 / CU-0010)");
    assert_eq!(
        FpError::Unresponsive("TI B5/03".into()).message(),
        "receiver did not answer (TI B5/03); close Solaar / Logi Options and retry"
    );
    assert_eq!(
        FpError::Unstable.message(),
        "fingerprint differed between consecutive reads; refusing to use it"
    );
}

#[test]
fn bind_lists() {
    assert_eq!(parse_bind("").unwrap(), None);
    assert_eq!(parse_bind("  all\n").unwrap(), None);
    assert_eq!(parse_bind("none").unwrap(), Some(0));
    assert_eq!(parse_bind_again(" 6 , +1,\u{3000}02 ").unwrap(), Some(0b100011));
    assert_eq!(parse_bind("3,3").unwrap(), Some(0b100));
    assert_eq!(parse_bind("7").unwrap_err(), "slot 7 out of range 1-6");
    assert_eq!(parse_bind("0").unwrap_err(), "slot 0 out of range 1-6");
    assert_eq!(parse_bind("255").unwrap_err(), "slot 255 out of range 1-6");
    assert_eq!(parse_bind("1, 256").unwrap_err(), "bad slot ' 256' (expected 1-6)");
    assert_eq!(parse_bind("1,,2").unwrap_err(), "bad slot '' (expected 1-6)");
    assert_eq!(parse_bind("+").unwrap_err(), "bad slot '+' (expected 1-6)");
    assert_eq!(parse_bind("-1").unwrap_err(), "bad slot '-1' (expected 1-6)");
    assert_eq!(parse_bind("All").unwrap_err(), "bad slot 'All' (expected 1-6)");
    assert_eq!(
        parse_bind("99999999999999999999").unwrap_err(),
        "bad slot '99999999999999999999' (expected 1-6)"
    );
}

#[test]
fn whitespace_is_that_of_std() {
    for n in 0..=0x10FFFFu32 {
        if let Some(c) = char::from_u32(n) {
            assert_eq!(whitespace(c), c.is_whitespace(), "{n:x}");
        }
    }
    for s in ["", " ", " a ", "\u{85}x y\u{2028}", "\t\u{feff} "] {
        assert_eq!(trim(s), s.trim());
    }
}

fn key(q: Query) -> (u8, u8, u16) {
    match q {
        Query::Short { reg, p0 } => (reg, p0, 0),
        Query::Long { reg, sub } => (reg, sub, 1),
        Query::D4 { addr } => (0xD4, 0, addr),
    }
}

/// Receivers whose registers hold fixed answers; a register without one refuses.
struct Answers {
    ti: bool,
    nano: bool,
    known: Vec<(u16, (u8, u8, u16), Reply<Vec<u8>>)>,
}

impl Answers {
    fn set(&mut self, pid: u16, q: Query, r: Reply<Vec<u8>>) {
        self.known.retain(|(p, k, _)| !(*p == pid && *k == key(q)));
        self.known.push((pid, key(q), r));
    }
    fn get(&self, pid: u16, q: Query) -> Reply<Vec<u8>> {
        for (p, k, r) in &self.known {
            if *p == pid && *k == key(q) {
                return r.clone();
            }
        }
        Reply::Refused
    }
    fn read(&self) -> Result<Fingerprint, FpError> {
        let mut next = Reader::begin();
        let mut pid = 0;
        let mut steps = 0;
        loop {
            steps += 1;
            assert!(steps < 1000);
            next = match next {
                Next::Open(r, p) => {
                    pid = p;
                    r.step(Heard::Opened(if p == TI_PID { self.ti } else { self.nano }))
                }
                Next::Ask(r, q) => {
                    let a = self.get(pid, q);
                    r.step(Heard::Answer(a))
                }
                Next::Done(fp) => return Ok(fp),
                Next::Fail(e) => return Err(e),
            };
        }
    }
}

fn long(sub: u8) -> Query {
    Query::Long { reg: 0xB5, sub }
}

fn receiver() -> Answers {
    let mut a = Answers { ti: true, nano: false, known: Vec::new() };
    a.set(TI_PID, long(0x03), Reply::Data(vec![0x11, 0x22, 0x33, 0x44, 9, 9, 9, 9, 9, 9, 9, 9, 9, 9, 9]));
    a.set(TI_PID, Query::Short { reg: 0xF1, p0: 1 }, Reply::Data(vec![0, 0x24, 0x1A]));
    a.set(TI_PID, Query::Short { reg: 0xF1, p0: 2 }, Reply::Data(vec![0, 0x00, 0x3C]));
    a.set(TI_PID, Query::D4 { addr: 0xE800 }, Reply::Data(vec![0x3F]));
    a.set(TI_PID, long(0x20), Reply::Data(vec![1, 2, 0x40, 0x4D, 0, 0, 1, 0, 0, 0, 0, 0, 0, 0, 0]));
    let mut name = vec![3, b'K', 0xC3, 0xA9];
    name.resize(15, b'x');
    a.set(TI_PID, long(0x40), Reply::Data(name));
    a.set(TI_PID, long(0x30), Reply::Data(vec![1, 2, 3, 4, 5, 6, 7, 8, 9, 10, 11, 12, 13, 14, 15]));
    // The record of slot 1 is the third of the page.
    let base = 0xE800 + 4 + 0x14 * 2;
    a.set(TI_PID, Query::D4 { addr: base }, Reply::Data(vec![0x60]));
    for i in 0..16u16 {
        a.set(TI_PID, Query::D4 { addr: base + 4 + i }, Reply::Data(vec![i as u8 + 100]));
    }
    // A device of another kind, without name, serial or record, in slot 6.
    a.set(TI_PID, long(0x25), Reply::Data(vec![0, 0, 0x40, 0x8A, 0, 0, 0x0B, 0, 0, 0, 0, 0, 0, 0, 0]));
    a
}

#[test]
fn reads_a_receiver() {
    let f = receiver().read().unwrap();
    assert!(f.ti_present && !f.nano_present && f.d4_open);
    assert_eq!(f.receiver_serial, [0x11, 0x22, 0x33, 0x44]);
    assert_eq!(f.firmware, "RQR24.110_B003C");
    assert_eq!(f.slots.len(), 2);
    assert_eq!(f.slots[0].slot, 1);
    assert_eq!(f.slots[0].wpid, [0x40, 0x4D]);
    assert_eq!(f.slots[0].kind, "keyboard");
    assert_eq!(f.slots[0].name, "Ké");
    assert_eq!(f.slots[0].serial, [1, 2, 3, 4]);
    let want: Vec<u8> = (100..116).collect();
    assert_eq!(f.slots[0].record.as_ref().unwrap().as_slice(), &want[..]);
    assert_eq!(f.slots[1].slot, 6);
    assert_eq!(f.slots[1].kind, "kind0B");
    assert_eq!(f.slots[1].name, "");
    assert!(f.slots[1].serial.is_empty());
    assert!(f.slots[1].record.is_none());
    assert_eq!(f.occupied(), 0b100001);
}

#[test]
fn reads_names_with_replacements() {
    let mut a = receiver();
    let mut name = vec![200, 0xFF, b'a'];
    name.resize(15, b'b');
    a.set(TI_PID, long(0x40), Reply::Data(name));
    assert_eq!(a.read().unwrap().slots[0].name, "\u{FFFD}abbbbbbbbbbbb");
}

#[test]
fn reads_a_closed_receiver() {
    let mut a = receiver();
    a.set(TI_PID, Query::D4 { addr: 0xE800 }, Reply::Data(vec![0x00]));
    a.set(TI_PID, Query::Short { reg: 0xF1, p0: 1 }, Reply::Refused);
    let f = a.read().unwrap();
    assert!(!f.d4_open);
    assert_eq!(f.firmware, "RQR??.??_B????");
    assert!(f.slots.iter().all(|s| s.record.is_none()));
    a.set(TI_PID, Query::Short { reg: 0xF1, p0: 1 }, Reply::Data(vec![0, 0x12, 0x07]));
    a.set(TI_PID, Query::Short { reg: 0xF1, p0: 2 }, Reply::Refused);
    assert_eq!(a.read().unwrap().firmware, "RQR12.07_B????");
}

#[test]
fn reads_the_nano() {
    let mut a = Answers { ti: false, nano: true, known: Vec::new() };
    let mut serial = vec![0xA1, 0xA2, 0xA3, 0xA4];
    serial.resize(15, 0);
    a.set(NANO_PID, long(0x03), Reply::Data(serial.clone()));
    let f = a.read().unwrap();
    assert!(!f.ti_present && f.nano_present);
    assert_eq!(f.nano_serial, [0xA1, 0xA2, 0xA3, 0xA4]);
    let mut both = receiver();
    both.nano = true;
    both.set(NANO_PID, long(0x03), Reply::Data(serial));
    let f = both.read().unwrap();
    assert!(f.ti_present && f.nano_present);
    assert_eq!(f.slots.len(), 2);
}

fn fails(a: &Answers) -> String {
    match a.read() {
        Err(FpError::Unresponsive(w)) => w,
        other => panic!("{other:?}"),
    }
}

#[test]
fn silence_aborts() {
    let nobody = Answers { ti: false, nano: false, known: Vec::new() };
    assert_eq!(nobody.read().unwrap_err(), FpError::NoReceiver);
    let base = 0xE800 + 4 + 0x14 * 2;
    let registers = [
        (long(0x03), "TI B5/03"),
        (Query::Short { reg: 0xF1, p0: 1 }, "TI F1/01"),
        (Query::Short { reg: 0xF1, p0: 2 }, "TI F1/02"),
        (Query::D4 { addr: 0xE400 }, "TI D4 page"),
        (long(0x22), "TI B5/2x"),
        (long(0x40), "TI B5/4x"),
        (long(0x30), "TI B5/3x"),
        (Query::D4 { addr: 0xE804 }, "TI D4 scan"),
        (Query::D4 { addr: base + 4 + 7 }, "TI D4 record"),
    ];
    for (q, what) in registers {
        let mut a = receiver();
        a.set(TI_PID, q, Reply::Silent);
        assert_eq!(fails(&a), what);
    }
    let mut a = receiver();
    a.set(TI_PID, long(0x03), Reply::Refused);
    assert_eq!(fails(&a), "TI B5/03 refused");
    let mut a = receiver();
    a.set(TI_PID, Query::D4 { addr: base + 4 + 15 }, Reply::Refused);
    assert_eq!(fails(&a), "TI D4 record refused");
    let mut a = receiver();
    a.nano = true;
    assert_eq!(fails(&a), "Nano B5/03 refused");
    a.set(NANO_PID, long(0x03), Reply::Silent);
    assert_eq!(fails(&a), "Nano B5/03");
}

fn collect(reads: Vec<Result<Fingerprint, FpError>>) -> (Result<Fingerprint, FpError>, usize) {
    let mut c = Collector::begin();
    let mut n = 0;
    for r in reads {
        n += 1;
        match c.step(r) {
            Collected::Again(next) => c = next,
            Collected::Done(fp) => return (Ok(fp), n),
            Collected::Fail(e) => return (Err(e), n),
        }
    }
    panic!("more reads wanted");
}

#[test]
fn two_reads_must_agree() {
    let other = || {
        let mut f = fp();
        f.receiver_serial[0] ^= 1;
        f
    };
    let renamed = || {
        let mut f = fp();
        f.firmware = "new".into();
        f
    };
    let (r, n) = collect(vec![Ok(fp()), Ok(renamed())]);
    assert_eq!((r.unwrap().firmware.as_str(), n), ("new", 2));
    let (r, n) = collect(vec![Ok(other()), Ok(fp()), Ok(fp())]);
    assert!(r.is_ok());
    assert_eq!(n, 3);
    let (r, n) = collect(vec![Ok(fp()), Ok(other()), Ok(fp())]);
    assert_eq!((r.unwrap_err(), n), (FpError::Unstable, 3));
    let (r, n) = collect(vec![Ok(fp()), Err(FpError::NoReceiver)]);
    assert_eq!((r.unwrap_err(), n), (FpError::NoReceiver, 2));
}

#[test]
fn labels_parse_back() {
    for m in 1u8..64 {
        let label = uniseal::vault::bind_label(m);
        assert_eq!(parse_bind(label.strip_prefix("slots ").unwrap()), Ok(Some(m)));
    }
}
