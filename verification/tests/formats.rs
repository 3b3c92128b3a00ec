use chacha20poly1305::aead::{Aead, Payload};
use chacha20poly1305::{KeyInit, XChaCha20Poly1305, XNonce};
use uniseal::vault::body::{chunk_nonce, Action, Io, Opener, Sealer};
use uniseal::vault::header::{HeadStep, HeaderReader};
use uniseal::vault::rng::{draw, system_result};
use uniseal::vault::seal::{new_vault, vault_start};
use uniseal::vault::stream::{ReadEvent, SliceSource};
use uniseal::vault::{
    argon_default, argon_none, bind_label, dongles_label, hex, kid, open_body, open_bytes, os_rng,
    seal, seal_bytes, Argon, Dongle, DongleSource, Error, Header, Key, Kind, Secret, Slot, SlotSpec,
    CHUNK, MAGIC, MAX_SLOTS,
};

const TINY: Argon = Argon { m_kib: 8, t: 1, p: 1 };

fn counting() -> impl FnMut(&mut [u8]) -> Result<(), Error> {
    let mut c = 0u8;
    move |b: &mut [u8]| {
        for x in b.iter_mut() {
            *x = c;
            c = c.wrapping_add(1);
        }
        Ok(())
    }
}

fn dongle() -> Dongle {
    Dongle { material: Secret::new(b"material".to_vec()), dongles: 1, nkeys: 1, bind: 1 }
}

struct Holder;

impl DongleSource for Holder {
    fn plugged(&self) -> u8 {
        1
    }
    fn material(&self, _: u8, _: u8) -> Result<Secret, String> {
        Ok(Secret::new(b"material".to_vec()))
    }
}

fn key() -> Key {
    Key::new(&[9; 32])
}

fn cipher() -> XChaCha20Poly1305 {
    XChaCha20Poly1305::new_from_slice(&[9; 32]).unwrap()
}

/// A chunk sealed under `key()` with a prefix of sevens.
fn chunk(i: u32, last: bool, msg: &[u8]) -> Vec<u8> {
    let mut n = vec![7; 19];
    n.extend_from_slice(&i.to_be_bytes());
    n.push(last as u8);
    let n = XNonce::try_from(&n[..]).unwrap();
    cipher().encrypt(&n, Payload { msg, aad: b"UNISEAL1" }).unwrap()
}

fn body(chunks: &[Vec<u8>]) -> Vec<u8> {
    let mut b = vec![7; 19];
    for c in chunks {
        b.extend_from_slice(c);
    }
    b
}

fn open(b: &[u8]) -> (Result<u64, Error>, Vec<u8>) {
    let mut out = Vec::new();
    let r = open_body(&mut SliceSource::new(b), &mut out, &key());
    (r, out)
}

#[test]
fn bodies_open() {
    assert_eq!(open(&body(&[chunk(0, true, b"hello")])), (Ok(5), b"hello".to_vec()));
    assert_eq!(open(&body(&[chunk(0, true, b"")])), (Ok(0), vec![]));
    let full = vec![3; CHUNK];
    let two = body(&[chunk(0, false, &full), chunk(1, true, b"x")]);
    let (r, out) = open(&two);
    assert_eq!((r, out.len()), (Ok(CHUNK as u64 + 1), CHUNK + 1));
    // An empty last chunk behind a full one is accepted too.
    let (r, out) = open(&body(&[chunk(0, false, &full), chunk(1, true, b"")]));
    assert_eq!((r, out), (Ok(CHUNK as u64), full.clone()));
}

#[test]
fn bodies_that_do_not_open() {
    let rejected =
        |i: u32| Error::Corrupt(format!("chunk {i} rejected (damaged, reordered or truncated)"));
    assert_eq!(open(&[7; 18]).0, Err(Error::Truncated));
    assert_eq!(open(&[7; 19]).0, Err(Error::Truncated));
    assert_eq!(open(&[7; 19 + 15]).0, Err(Error::Truncated));
    assert_eq!(open(&[7; 19 + 16]).0, Err(rejected(0)));
    // A chunk that claims not to be the last.
    assert_eq!(open(&body(&[chunk(0, false, b"hello")])).0, Err(rejected(0)));
    let full = vec![3; CHUNK];
    // What was accepted before the fault is written out.
    let (r, out) = open(&body(&[chunk(0, false, &full), chunk(2, true, b"x")]));
    assert_eq!((r, out), (Err(rejected(1)), full.clone()));
    let (r, out) = open(&body(&[chunk(0, false, &full), vec![1, 2, 3]]));
    assert_eq!((r, out), (Err(Error::Truncated), full.clone()));
    // Two chunks in the wrong order.
    let (r, out) = open(&body(&[chunk(1, false, &full), chunk(0, true, b"x")]));
    assert_eq!((r, out), (Err(rejected(0)), vec![]));
}

#[test]
fn openers_take_any_pieces() {
    let data: Vec<u8> = (0..CHUNK + 700).map(|i| (i % 250) as u8).collect();
    let b = body(&[chunk(0, false, &data[..CHUNK]), chunk(1, true, &data[CHUNK..])]);
    for size in [1usize << 12, 1 << 16, CHUNK * 3] {
        let (mut o, want) = Opener::begin(key());
        let mut at = 0;
        let mut out = Vec::new();
        let mut nudge = true;
        let mut action = Action::Read(want);
        let n = loop {
            let ev = match action {
                Action::Read(want) => {
                    nudge = !nudge;
                    if nudge {
                        Io::Read(ReadEvent::Interrupted)
                    } else {
                        let k = want.min(size).min(b.len() - at);
                        at += k;
                        Io::Read(ReadEvent::Got(Secret::new(b[at - k..at].to_vec())))
                    }
                }
                Action::Write(s) => {
                    out.extend_from_slice(s.as_slice());
                    Io::Wrote
                }
                Action::Flush => Io::Wrote,
                Action::Done(n) => break n,
                Action::Fail(e) => panic!("{e:?}"),
            };
            action = o.step(ev);
        };
        assert_eq!(n as usize, data.len());
        assert_eq!(out, data);
    }
}

#[test]
fn sealers_pass_errors_on() {
    let (mut s, want) = Sealer::begin(key(), [7; 19]);
    assert_eq!(want, CHUNK + 1);
    match s.step(Io::Read(ReadEvent::Failed("gone".into()))) {
        Action::Fail(e) => assert_eq!(e, Error::Io("gone".into())),
        _ => panic!(),
    }
    let (mut s, _) = Sealer::begin(key(), [7; 19]);
    assert!(matches!(s.step(Io::Read(ReadEvent::Got(Secret::new(b"abc".to_vec())))), Action::Read(n) if n == CHUNK - 2));
    match s.step(Io::Read(ReadEvent::Got(Secret::new(vec![])))) {
        Action::Write(ct) => assert_eq!(ct.as_slice(), &chunk(0, true, b"abc")[..]),
        _ => panic!(),
    }
    match s.step(Io::WriteFailed("full".into())) {
        Action::Fail(e) => assert_eq!(e, Error::Io("full".into())),
        _ => panic!(),
    }
    let (mut o, want) = Opener::begin(key());
    assert_eq!(want, 19);
    match o.step(Io::Read(ReadEvent::Failed("gone".into()))) {
        Action::Fail(e) => assert_eq!(e.message(), "i/o: gone"),
        _ => panic!(),
    }
}

#[test]
fn headers_come_byte_by_byte() {
    let d = dongle();
    let blob = seal_bytes(b"x", &[SlotSpec::dongle(&d)], &mut os_rng).unwrap();
    let (mut r, mut want) = HeaderReader::begin();
    let mut at = 0;
    let h = loop {
        assert!(want > 0);
        let ev = ReadEvent::Got(Secret::new(blob[at..at + 1].to_vec()));
        at += 1;
        match r.step(ev) {
            HeadStep::Read(n) => want = n,
            HeadStep::Done(h) => break h,
            HeadStep::Fail(e) => panic!("{e:?}"),
        }
    };
    assert_eq!(at, 9 + 112);
    assert_eq!(h.to_bytes(), &blob[..at]);

    let (mut r, _) = HeaderReader::begin();
    assert!(matches!(r.step(ReadEvent::Interrupted), HeadStep::Read(9)));
    match r.step(ReadEvent::Failed("gone".into())) {
        HeadStep::Fail(e) => assert_eq!(e, Error::Io("gone".into())),
        _ => panic!(),
    }
}

#[test]
fn headers_that_do_not_parse() {
    let d = dongle();
    let blob = seal_bytes(b"x", &[SlotSpec::dongle(&d)], &mut os_rng).unwrap();
    let with = |at: usize, b: u8| {
        let mut v = blob.clone();
        v[at] = b;
        v
    };
    assert_eq!(Header::parse(b"UNISEAL1").unwrap_err(), Error::Truncated);
    assert_eq!(Header::parse(&with(8, 0)).unwrap_err(), Error::Corrupt("keyslot count".into()));
    assert_eq!(Header::parse(&with(8, 9)).unwrap_err(), Error::Corrupt("keyslot count".into()));
    assert_eq!(Header::parse(&with(8, 8)).unwrap_err(), Error::Truncated);
    assert_eq!(
        Header::parse(&with(9, 4)).unwrap_err(),
        Error::Corrupt("unknown keyslot kind".into())
    );
    // Reading stops where it is settled that there is no header.
    let mut src = SliceSource::new(b"not a vault at all");
    assert_eq!(Header::read(&mut src).unwrap_err(), Error::NotVault);
    assert_eq!(src.pos, 9);
    let bad = with(8, 9);
    let mut src = SliceSource::new(&bad);
    assert_eq!(Header::read(&mut src).unwrap_err(), Error::Corrupt("keyslot count".into()));
    assert_eq!(src.pos, 9);
    let bad = with(9, 0);
    let mut src = SliceSource::new(&bad);
    assert_eq!(Header::read(&mut src).unwrap_err(), Error::Corrupt("unknown keyslot kind".into()));
    assert_eq!(src.pos, 9 + 112);
    assert_eq!(Header::read(&mut SliceSource::new(b"UNISEAL1")).unwrap_err(), Error::Truncated);
}

#[test]
fn headers_round_trip() {
    let d = dongle();
    let specs: Vec<SlotSpec> = (0..MAX_SLOTS).map(|_| SlotSpec::dongle(&d)).collect();
    let blob = seal_bytes(b"data", &specs, &mut os_rng).unwrap();
    let (h, n) = Header::parse(&blob).unwrap();
    assert_eq!((h.slots.len(), n), (8, 9 + 8 * 112));
    assert_eq!(h.to_bytes(), &blob[..n]);
    let (again, m) = Header::parse(&h.to_bytes()).unwrap();
    assert_eq!((again.slots, m), (h.slots, n));
}

#[test]
fn keyslots_open_to_the_file_key() {
    let d = dongle();
    let specs = [
        SlotSpec::dongle(&d),
        SlotSpec::pass(b"p").with_argon(TINY),
        SlotSpec::dongle_pass(&d, b"q").with_argon(TINY),
    ];
    let (h, fk) = new_vault(&specs, &mut os_rng).unwrap();
    let m = Some(&b"material"[..]);
    let keys = [
        h.open_slot(0, m, None).unwrap(),
        h.open_slot(1, None, Some(b"p")).unwrap(),
        h.open_slot(2, m, Some(b"q")).unwrap(),
        // What a kind does not ask for is not looked at.
        h.open_slot(0, m, Some(b"any")).unwrap(),
        h.open_slot(1, Some(b"any"), Some(b"p")).unwrap(),
    ];
    for k in &keys {
        assert_eq!(k.as_slice(), fk.as_slice());
    }
    assert_eq!(h.open_slot(3, m, None).unwrap_err(), Error::NoSuchSlot);
    assert_eq!(h.open_slot(0, Some(b"other"), None).unwrap_err(), Error::WrongKey);
    assert_eq!(h.open_slot(1, None, Some(b"other")).unwrap_err(), Error::WrongKey);
    assert_eq!(h.open_slot(2, m, Some(b"other")).unwrap_err(), Error::WrongKey);
    assert_eq!(
        h.open_slot(0, None, None).unwrap_err(),
        Error::BadSpec("keyslot needs dongle material")
    );
    assert_eq!(
        h.open_slot(2, m, None).unwrap_err(),
        Error::BadSpec("keyslot needs a passphrase")
    );
    let mut bad = h.clone();
    bad.slots[1].argon.t = 0;
    assert_eq!(bad.open_slot(1, None, Some(b"p")).unwrap_err(), Error::Argon);
}

#[test]
fn recipes_that_lack_something() {
    let d = dongle();
    let none = Dongle { material: Secret::new(vec![]), dongles: 1, nkeys: 0, bind: 0 };
    let fail = |s: SlotSpec| seal_bytes(b"x", &[s], &mut os_rng).unwrap_err();
    assert_eq!(fail(SlotSpec::dongle(&none)), Error::BadSpec("empty dongle material"));
    assert_eq!(fail(SlotSpec::pass(b"")), Error::BadSpec("empty passphrase"));
    let bare = |kind: Kind| SlotSpec { kind, dongle: None, pass: None, argon: TINY };
    assert_eq!(
        fail(bare(Kind::Dongle)),
        Error::BadSpec("this keyslot kind needs dongle material")
    );
    assert_eq!(fail(bare(Kind::Pass)), Error::BadSpec("this keyslot kind needs a passphrase"));
    assert_eq!(
        fail(SlotSpec { dongle: Some(&d), ..bare(Kind::DonglePass) }),
        Error::BadSpec("this keyslot kind needs a passphrase")
    );
    assert_eq!(
        fail(SlotSpec::pass(b"p").with_argon(Argon { m_kib: 1, t: 1, p: 1 })),
        Error::Argon
    );
    assert_eq!(
        seal_bytes(b"x", &[], &mut os_rng).unwrap_err(),
        Error::BadSpec("at least one keyslot is required")
    );
    let many: Vec<SlotSpec> = (0..9).map(|_| SlotSpec::dongle(&d)).collect();
    assert_eq!(seal_bytes(b"x", &many, &mut os_rng).unwrap_err(), Error::TooManySlots);
}

#[test]
fn random_bytes_are_asked_for_in_order() {
    let d = dongle();
    let specs = [SlotSpec::dongle(&d), SlotSpec::dongle(&d)];
    let mut asked = Vec::new();
    let mut out = Vec::new();
    let mut rng = counting();
    let (h, n) = seal(
        &mut SliceSource::new(b"abc"),
        &mut out,
        &specs,
        &mut |b: &mut [u8]| {
            asked.push(b.len());
            rng(b)
        },
    )
    .unwrap();
    assert_eq!(n, 3);
    assert_eq!(asked, [32, 16, 24, 16, 24, 19]);
    assert_eq!(h.slots[0].salt[0], 32);
    assert_eq!(h.slots[0].nonce[0], 48);
    assert_eq!(h.slots[1].salt[0], 72);
    assert_eq!(h.slots[1].nonce[0], 88);
    assert_eq!(&out[9 + 224..9 + 224 + 2], &[112, 113]);
    // A source that fails at the n-th draw.
    for k in 0..6 {
        let mut left = k;
        let mut out = vec![1];
        let e = seal(&mut SliceSource::new(b"abc"), &mut out, &specs, &mut |_: &mut [u8]| {
            if left == 0 {
                Err(Error::Rng)
            } else {
                left -= 1;
                Ok(())
            }
        })
        .unwrap_err();
        assert_eq!(e, Error::Rng);
        assert_eq!(out.len(), if k == 5 { 1 + 9 + 224 } else { 1 });
    }
    let (mut a, mut b) = ([0u8; 32], [0u8; 32]);
    os_rng(&mut a).unwrap();
    os_rng(&mut b).unwrap();
    assert_ne!(a, b);
    assert_ne!(a, [0; 32]);
}

#[test]
fn refusals_draw_nothing() {
    let mut never = |_: &mut [u8]| -> Result<(), Error> { panic!("drawn") };
    let d = dongle();
    let lacking = SlotSpec { pass: None, ..SlotSpec::pass(b"p") };
    let full = |n: usize| -> Vec<SlotSpec> { (0..n).map(|_| SlotSpec::dongle(&d)).collect() };
    assert!(matches!(Slot::wrap(&key(), &lacking, &mut never), Err(Error::BadSpec(_))));
    let good = SlotSpec::dongle(&d);
    let (mut h, _) = new_vault(&full(MAX_SLOTS), &mut counting()).ok().unwrap();
    assert!(matches!(h.add_slot(&key(), &good, &mut never), Err(Error::TooManySlots)));
    h.remove_slot(0).unwrap();
    assert!(matches!(h.add_slot(&key(), &lacking, &mut never), Err(Error::BadSpec(_))));
    for specs in [vec![], full(MAX_SLOTS + 1)] {
        assert!(new_vault(&specs, &mut never).is_err());
        assert!(seal_bytes(b"x", &specs, &mut never).is_err());
        let mut out = vec![1];
        assert!(seal(&mut SliceSource::new(b"x"), &mut out, &specs, &mut never).is_err());
        assert_eq!(out, [1]);
    }
}

#[test]
fn passphrases_are_asked_for_where_they_can_help() {
    let d = dongle();
    let stranger = Dongle { material: Secret::new(b"other".to_vec()), ..dongle() };
    let (h, _) = new_vault(
        &[
            SlotSpec::dongle_pass(&stranger, b"p").with_argon(TINY),
            SlotSpec::dongle(&stranger),
            SlotSpec::pass(b"wrong").with_argon(TINY),
            SlotSpec::dongle_pass(&d, b"p").with_argon(TINY),
            SlotSpec::pass(b"p").with_argon(TINY),
        ],
        &mut counting(),
    )
    .ok()
    .unwrap();
    let mut asked = vec![];
    let opened = h.unlock_any(Some(&Holder), &mut |i: usize, _: &Slot| {
        asked.push(i);
        Some(Secret::new(b"p".to_vec()))
    });
    assert_eq!(opened.ok().unwrap().0, 3);
    assert_eq!(asked, [2, 3]);
}

#[test]
fn a_vault_starts_with_header_and_prefix() {
    let spec = SlotSpec::pass(b"p").with_argon(TINY);
    let (h, _) = new_vault(&[spec], &mut counting()).ok().unwrap();
    let prefix: [u8; 19] = std::array::from_fn(|i| i as u8);
    let start = vault_start(&h, &prefix);
    assert_eq!(start[..start.len() - 19], h.to_bytes()[..]);
    assert_eq!(start[start.len() - 19..], prefix);
    assert_eq!(start[..8], MAGIC);
    assert_eq!(Header::parse(&start).ok().unwrap().1, start.len() - 19);
}

#[test]
fn nonces_count_chunks() {
    let n = chunk_nonce(&[7; 19], 0x01020304, true);
    assert_eq!(n[..19], [7; 19]);
    assert_eq!(n[19..], [1, 2, 3, 4, 1]);
    assert_eq!(chunk_nonce(&[7; 19], 0, false)[19..], [0; 5]);
}

#[test]
fn rekeying_keeps_the_body() {
    let d = dongle();
    let blob = seal_bytes(b"data", &[SlotSpec::dongle(&d)], &mut os_rng).unwrap();
    let (mut h, n) = Header::parse(&blob).unwrap();
    let fk = h.open_slot(0, Some(b"material"), None).unwrap();
    let first = h.slots[0].clone();
    h.add_slot(&fk, &SlotSpec::dongle(&d), &mut os_rng).unwrap();
    assert_eq!(h.slots[0], first);
    let second = h.slots[1].clone();
    h.add_slot(&fk, &SlotSpec::dongle(&d), &mut os_rng).unwrap();
    let third = h.slots[2].clone();
    h.remove_slot(1).unwrap();
    assert_eq!(h.slots, [first, third]);
    assert_ne!(h.slots[1], second);
    let mut rekeyed = h.to_bytes();
    rekeyed.extend_from_slice(&blob[n..]);
    assert_eq!(open_bytes(&rekeyed, &fk).unwrap().as_slice(), b"data");
    let before = h.slots.clone();
    assert_eq!(
        h.add_slot(&fk, &SlotSpec::pass(b""), &mut os_rng).unwrap_err(),
        Error::BadSpec("empty passphrase")
    );
    assert_eq!(h.slots, before);
}

#[test]
fn reasons_are_listed() {
    let d = dongle();
    let specs = [
        SlotSpec::dongle(&d),
        SlotSpec::pass(b"p").with_argon(TINY),
        SlotSpec::dongle_pass(&d, b"q").with_argon(TINY),
    ];
    let blob = seal_bytes(b"x", &specs, &mut os_rng).unwrap();
    let (h, _) = Header::parse(&blob).unwrap();
    let nobody: Option<&Holder> = None;
    let mut asked = Vec::new();
    let e = h
        .unlock_any(nobody, &mut |i: usize, _: &Slot| {
            asked.push(i);
            None
        })
        .unwrap_err();
    assert_eq!(asked, [1]);
    assert_eq!(
        e.message(),
        "no keyslot opened:\n  \
         slot 0 (dongle TI · slots 1 · 1 rec.): needs dongle TI, none readable\n  \
         slot 1 (passphrase (Argon2id 0 MiB t=1)): no passphrase given\n  \
         slot 2 (dongle TI · slots 1 · 1 rec. + PIN (Argon2id 0 MiB t=1)): needs dongle TI, none readable"
    );
    let mut h2 = h.clone();
    h2.slots[0].wrapped[0] ^= 1;
    let e = h2
        .unlock_any(Some(&Holder), &mut |_: usize, _: &Slot| Some(Secret::new(b"z".to_vec())))
        .unwrap_err();
    match e {
        Error::NoUsableSlot(r) => {
            assert!(r[0].ends_with(": dongle material mismatch"), "{r:?}");
            assert!(r[1].ends_with(": wrong passphrase"), "{r:?}");
            assert!(r[2].ends_with(": wrong passphrase"), "{r:?}");
        }
        e => panic!("{e:?}"),
    }
    // Parameters that Argon2 rejects are a reason like any other: the next keyslot is tried.
    let mut h3 = h.clone();
    h3.slots[0].kid[0] ^= 1;
    h3.slots[1].argon.p = 0;
    let (i, k) = h3
        .unlock_any(Some(&Holder), &mut |_: usize, _: &Slot| Some(Secret::new(b"q".to_vec())))
        .unwrap();
    assert_eq!(i, 2);
    assert_eq!(open_bytes(&blob, &k).unwrap().as_slice(), b"x");
    let e = h3
        .unlock_any(Some(&Holder), &mut |_: usize, _: &Slot| Some(Secret::new(b"z".to_vec())))
        .unwrap_err();
    match e {
        Error::NoUsableSlot(r) => {
            assert_eq!(r.len(), 3);
            assert!(r[1].ends_with("): Argon2 parameters rejected"), "{r:?}");
            assert!(r[2].ends_with(": wrong passphrase"), "{r:?}");
        }
        e => panic!("{e:?}"),
    }
    let e = h3.unlock_any(Some(&Holder), &mut |_: usize, _: &Slot| None).unwrap_err();
    match e {
        Error::NoUsableSlot(r) => {
            let got = hex(&kid(b"material"));
            assert_eq!(
                r[0],
                format!(
                    "slot 0 (dongle TI · slots 1 · 1 rec.): dongle TI kid {} expected, got {got} (device re-paired?)",
                    hex(&h3.slots[0].kid)
                )
            );
        }
        e => panic!("{e:?}"),
    }
    // The first keyslot that opens is used.
    let (i, _) = h
        .unlock_any(Some(&Holder), &mut |_: usize, _: &Slot| Some(Secret::new(b"q".to_vec())))
        .unwrap();
    assert_eq!(i, 0);
}

#[test]
fn descriptions() {
    let d = Dongle { material: Secret::new(vec![1]), dongles: 2, nkeys: 0, bind: 0x3F };
    let specs = [
        SlotSpec::dongle(&d),
        SlotSpec::pass(b"p").with_argon(TINY),
        SlotSpec::dongle_pass(&d, b"q").with_argon(TINY),
    ];
    let (mut h, _) = new_vault(&specs, &mut os_rng).unwrap();
    h.slots[1].argon = argon_default();
    h.slots[2].dongles = 3;
    assert_eq!(h.slots[0].describe(), "dongle Nano · 0 rec.");
    assert_eq!(h.slots[1].describe(), "passphrase (Argon2id 64 MiB t=3)");
    assert_eq!(
        h.slots[2].describe(),
        "dongle TI+Nano · slots 1,2,3,4,5,6 · 0 rec. + PIN (Argon2id 0 MiB t=1)"
    );
    assert_eq!(h.slots[0].argon, argon_none());
    assert_eq!(argon_default(), Argon { m_kib: 65536, t: 3, p: 1 });
    assert_eq!(
        (h.slots[1].dongles, h.slots[1].nkeys, h.slots[1].bind, h.slots[1].kid),
        (0, 0, 0, [0; 8])
    );
    assert!(h.slots[0].needs_dongle() && !h.slots[0].needs_pass());
    assert!(!h.slots[1].needs_dongle() && h.slots[1].needs_pass());
    assert!(h.slots[2].needs_dongle() && h.slots[2].needs_pass());
    assert_eq!(dongles_label(0), "none");
    assert_eq!(dongles_label(0xFC), "none");
    assert_eq!(dongles_label(1), "TI");
    assert_eq!(bind_label(0), "receiver only");
    assert_eq!(bind_label(0xC0), "receiver only");
    assert_eq!(bind_label(0b101010), "slots 2,4,6");
}

#[test]
fn messages_of_errors() {
    let cases = [
        (Error::NotVault, "not a uniseal vault (magic missing)"),
        (Error::Truncated, "vault truncated"),
        (Error::Corrupt("x".into()), "vault corrupt: x"),
        (Error::Io("x".into()), "i/o: x"),
        (Error::Rng, "system RNG unavailable"),
        (Error::TooManySlots, "vault already has 8 keyslots"),
        (Error::LastSlot, "refusing to remove the last keyslot"),
        (Error::NoSuchSlot, "no such keyslot"),
        (Error::BadSpec("x"), "x"),
        (Error::Argon, "Argon2 parameters rejected"),
        (Error::WrongKey, "wrong key: refused"),
        (Error::NoUsableSlot(vec![]), "no keyslot opened:"),
        (Error::NoUsableSlot(vec!["a".into(), "b".into()]), "no keyslot opened:\n  a\n  b"),
    ];
    for (e, want) in cases {
        assert_eq!(e.message(), want);
    }
    assert_eq!(&MAGIC, b"UNISEAL1");
}

#[test]
fn secrets_hold_bytes() {
    let mut s = Secret::new(vec![1]);
    s.push(2);
    s.extend(&[3, 4]);
    assert_eq!((s.as_slice(), s.len(), s.is_empty()), (&[1, 2, 3, 4][..], 4, false));
    assert!(s.same(&s.clone()));
    assert!(!s.same(&Secret::new(vec![1, 2, 3])));
    assert_eq!(Key::new(&[5; 32]).clone().as_slice(), &[5; 32]);
}

#[test]
fn kind_byte_is_bound() {
    let spec = SlotSpec::pass(b"rescue").with_argon(TINY);
    let (h, fk) = new_vault(&[spec], &mut os_rng).ok().unwrap();
    let opened = h.open_slot(0, Some(b"anything"), Some(b"rescue")).ok().unwrap();
    assert_eq!(opened.as_slice(), fk.as_slice(), "a recovery slot ignores the dongles");
    let mut bytes = h.to_bytes();
    bytes[9] = 3;
    let (other, _) = Header::parse(&bytes).ok().unwrap();
    assert_eq!(other.slots[0].kind, Kind::DonglePass);
    assert_eq!(other.open_slot(0, Some(b""), Some(b"rescue")).err(), Some(Error::WrongKey));
    assert!(matches!(other.open_slot(0, None, Some(b"rescue")), Err(Error::BadSpec(_))));
    assert!(matches!(other.open_slot(0, Some(b""), None), Err(Error::BadSpec(_))));
}

#[test]
fn system_generator() {
    assert_eq!(system_result(true), Ok(()));
    assert_eq!(system_result(false), Err(Error::Rng));
    let mut none: [u8; 0] = [];
    assert_eq!(os_rng(&mut none), Ok(()));
}

#[test]
fn rejected_parameters_do_not_end_the_search() {
    let d = dongle();
    let (mut h, fk) =
        new_vault(&[SlotSpec::pass(b"p").with_argon(TINY), SlotSpec::dongle(&d)], &mut os_rng).ok().unwrap();
    h.slots[0].argon = argon_none();
    let (i, k) = h
        .unlock_any(Some(&Holder), &mut |_: usize, _: &Slot| Some(Secret::new(b"x".to_vec())))
        .ok()
        .unwrap();
    assert_eq!((i, k.as_slice()), (1, fk.as_slice()));
}

#[test]
fn hashed_passphrases() {
    let d = dongle();
    let spec = SlotSpec::dongle_pass(&d, b"pin").with_argon(TINY);
    let s = Slot::wrap_hashed(&key(), &spec, [1; 16], [2; 24], Some(&[5; 32])).ok().unwrap();
    assert_eq!(s.unwrap_hashed(Some(b"material"), Some(&[5; 32])).ok().unwrap().as_slice(), &[9; 32]);
    assert_eq!(s.unwrap_hashed(Some(b"material"), Some(&[6; 32])).err(), Some(Error::WrongKey));
    assert_eq!(s.unwrap_hashed(Some(b"other"), Some(&[5; 32])).err(), Some(Error::WrongKey));
    assert!(matches!(s.unwrap_hashed(None, Some(&[5; 32])), Err(Error::BadSpec(_))));
    assert!(matches!(s.unwrap_hashed(Some(b"material"), None), Err(Error::BadSpec(_))));
    assert!(matches!(
        Slot::wrap_hashed(&key(), &spec, [1; 16], [2; 24], None),
        Err(Error::BadSpec("this keyslot kind needs a passphrase"))
    ));
    let mut hash = [0u8; 32];
    argon2::Argon2::new(
        argon2::Algorithm::Argon2id,
        argon2::Version::V0x13,
        argon2::Params::new(8, 1, 1, Some(32)).unwrap(),
    )
    .hash_password_into(b"pin", &[1; 16], &mut hash)
    .unwrap();
    let by_pass = Slot::wrap_with(&key(), &spec, [1; 16], [2; 24]).ok().unwrap();
    let by_hash = Slot::wrap_hashed(&key(), &spec, [1; 16], [2; 24], Some(&hash)).ok().unwrap();
    assert_eq!(by_pass, by_hash);
    let key = by_pass.unwrap_hashed(Some(b"material"), Some(&hash)).ok().unwrap();
    assert_eq!(key.as_slice(), &[9; 32]);
}

#[test]
fn every_changed_byte_of_a_slot_is_refused() {
    let d = dongle();
    let (h, _) = new_vault(&[SlotSpec::dongle(&d)], &mut os_rng).ok().unwrap();
    let bytes = h.to_bytes();
    for at in 9..bytes.len() {
        let mut bad = bytes.clone();
        bad[at] ^= if at == 9 { 2 } else { 1 };
        let (other, _) = Header::parse(&bad).ok().unwrap();
        assert!(other.open_slot(0, Some(b"material"), Some(b"p")).is_err(), "byte {at}");
    }
}

#[test]
fn damaged_bodies_are_refused() {
    let whole = body(&[chunk(0, false, &vec![1; CHUNK]), chunk(1, true, b"end")]);
    let open = |b: &[u8]| {
        let mut out = Vec::new();
        let r = open_body(&mut SliceSource::new(b), &mut out, &key());
        (r, out.len())
    };
    assert_eq!(open(&whole), (Ok(CHUNK as u64 + 3), CHUNK + 3));
    let full = 19 + CHUNK + 16;
    for at in [0, 18, 19, full - 1, full, whole.len() - 1] {
        let mut bad = whole.clone();
        bad[at] ^= 1;
        let (r, n) = open(&bad);
        assert!(matches!(r, Err(Error::Corrupt(_))), "byte {at}");
        assert!(n == 0 || n == CHUNK);
    }
    assert!(matches!(open(&whole[..full]), (Err(Error::Corrupt(_)), 0)));
    assert!(matches!(open(&whole[..full + 5]), (Err(Error::Truncated), CHUNK)));
    assert!(matches!(open(&whole[..10]), (Err(Error::Truncated), 0)));
    let mut longer = whole.clone();
    longer.push(0);
    assert!(matches!(open(&longer), (Err(Error::Corrupt(_)), CHUNK)));
}

#[test]
fn prefixes_tell_nonces_apart() {
    let mut other = body(&[chunk(0, true, b"data")]);
    other[3] ^= 0x40;
    let mut out = Vec::new();
    assert!(matches!(
        open_body(&mut SliceSource::new(&other), &mut out, &key()),
        Err(Error::Corrupt(_))
    ));
}

#[test]
fn drawn_bytes_are_those_of_the_source() {
    let mut source = counting();
    assert_eq!(draw::<4, _>(&mut source).unwrap().as_slice(), &[0, 1, 2, 3]);
    assert_eq!(draw::<2, _>(&mut source).unwrap().as_slice(), &[4, 5]);
    let mut broken = |_: &mut [u8]| Err(Error::Rng);
    assert_eq!(draw::<2, _>(&mut broken).err(), Some(Error::Rng));
}
