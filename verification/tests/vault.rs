use uniseal::vault::stream::SliceSource;
use uniseal::vault::{
    dongles_label, hex, kid, open_body, open_bytes, os_rng, seal, seal_bytes, Argon, Dongle,
    DongleSource, Error, Header, Kind, Secret, Slot, SlotSpec, CHUNK, DONGLE_NANO, DONGLE_TI, MAGIC,
    MAX_SLOTS,
};

const TINY: Argon = Argon { m_kib: 8, t: 1, p: 1 };
const PREFIX: usize = 19;
const TAG: usize = 16;
// Synthetic material (fake serials): never paste a real dongle read here.
const MAT: &[u8] = b"uniseal-fp-v1\x01\x05\xc5\x2b\x11\x22\x33\x44\x02\x01\x40\x4d\x04\xaa\xbb\xcc\xdd\x00\x03\x40\x8a\x04\x01\x02\x03\x04\x00";

/// Test double: plugged TI with slots 1 and 3; material is MAT plus the requested
/// (dongles, bind) so different bindings differ.
struct Fake {
    plugged: u8,
}

impl DongleSource for Fake {
    fn plugged(&self) -> u8 {
        self.plugged
    }
    fn material(&self, dongles: u8, bind: u8) -> Result<Secret, String> {
        if dongles & !self.plugged != 0 {
            return Err(format!(
                "needs dongle {}, plugged {}",
                dongles_label(dongles),
                dongles_label(self.plugged)
            ));
        }
        if bind & !0b101 != 0 {
            return Err("device slot missing".into());
        }
        let mut m = Secret::new(MAT.to_vec());
        m.push(dongles);
        m.push(bind);
        Ok(m)
    }
}

fn fake() -> Fake {
    Fake { plugged: DONGLE_TI }
}

fn ti() -> Dongle {
    Dongle {
        material: fake().material(DONGLE_TI, 0b101).unwrap(),
        dongles: DONGLE_TI,
        nkeys: 2,
        bind: 0b101,
    }
}

fn det_rng() -> impl FnMut(&mut [u8]) -> Result<(), Error> {
    let mut c = 0u8;
    move |b| {
        for x in b.iter_mut() {
            *x = c;
            c = c.wrapping_add(1);
        }
        Ok(())
    }
}

fn no_pass(_: usize, _: &Slot) -> Option<Secret> {
    None
}

fn open_with(
    blob: &[u8],
    src: Option<&dyn DongleSource>,
    pass: Option<&[u8]>,
) -> Result<(usize, Secret), Error> {
    let (h, _) = Header::parse(blob)?;
    let (i, fk) = h.unlock_any(src, &mut |_: usize, _: &Slot| pass.map(|p| Secret::new(p.to_vec())))?;
    Ok((i, open_bytes(blob, &fk)?))
}

#[test]
fn dongle_roundtrip_and_rejections() {
    let data = b"payload bound to a TI receiver";
    let d = ti();
    let blob = seal_bytes(data, &[SlotSpec::dongle(&d)], &mut os_rng).unwrap();
    assert_eq!(&blob[..8], &MAGIC);
    let (i, pt) = open_with(&blob, Some(&fake()), None).unwrap();
    assert_eq!(i, 0);
    assert_eq!(pt.as_slice(), data);
    assert_ne!(
        seal_bytes(data, &[SlotSpec::dongle(&d)], &mut os_rng).unwrap(),
        blob,
        "random file key"
    );
    assert_eq!(
        Header::parse(&blob).unwrap().0.slots[0].describe(),
        "dongle TI · slots 1,3 · 2 rec."
    );

    // Wrong receiver, missing receiver, re-paired device (different material).
    let nano_only = Fake { plugged: DONGLE_NANO };
    match open_with(&blob, Some(&nano_only), None) {
        Err(Error::NoUsableSlot(r)) => assert!(r[0].contains("needs dongle TI"), "{r:?}"),
        e => panic!("{e:?}"),
    }
    assert!(matches!(open_with(&blob, None, None), Err(Error::NoUsableSlot(_))));
    struct Repaired;
    impl DongleSource for Repaired {
        fn plugged(&self) -> u8 {
            DONGLE_TI
        }
        fn material(&self, _: u8, _: u8) -> Result<Secret, String> {
            Ok(Secret::new(b"something else".to_vec()))
        }
    }
    match open_with(&blob, Some(&Repaired), None) {
        Err(Error::NoUsableSlot(r)) => assert!(r[0].contains("re-paired"), "{r:?}"),
        e => panic!("{e:?}"),
    }

    // Tampering: body, wrapped key, slot header (AAD).
    let (h, _) = Header::parse(&blob).unwrap();
    let (_, fk) = h.unlock_any(Some(&fake()), &mut no_pass).unwrap();
    let mut bad = blob.clone();
    let n = bad.len();
    bad[n - 1] ^= 1;
    assert!(matches!(open_bytes(&bad, &fk), Err(Error::Corrupt(_))), "body tamper");
    let mut bad = blob.clone();
    bad[9 + 100] ^= 1;
    assert!(
        matches!(open_with(&bad, Some(&fake()), None), Err(Error::NoUsableSlot(_))),
        "wrapped key tamper"
    );
    let mut bad = blob.clone();
    bad[9 + 3] ^= 1;
    assert!(
        matches!(open_with(&bad, Some(&fake()), None), Err(Error::NoUsableSlot(_))),
        "bind byte is AAD"
    );

    assert_eq!(Header::parse(&blob[..50]).unwrap_err(), Error::Truncated);
    assert_eq!(Header::parse(b"NVLT4\0\0\0old-format").unwrap_err(), Error::NotVault);
    assert_eq!(Header::parse(b"KEYFOB5\0old-format").unwrap_err(), Error::NotVault);
    assert_eq!(Header::parse(b"").unwrap_err(), Error::NotVault);
    let empty = seal_bytes(b"", &[SlotSpec::dongle(&d)], &mut os_rng).unwrap();
    assert!(open_with(&empty, Some(&fake()), None).unwrap().1.is_empty());
}

#[test]
fn streaming_chunks_and_truncation() {
    let d = ti();
    // 2.5 chunks, then exactly 2 chunks (last chunk full-size).
    for len in [CHUNK * 2 + CHUNK / 2, CHUNK * 2, 1, CHUNK - 1, CHUNK + 1] {
        let data: Vec<u8> = (0..len).map(|i| (i * 7 % 251) as u8).collect();
        let mut blob = Vec::new();
        let (h, n) = seal(
            &mut SliceSource::new(&data),
            &mut blob,
            &[SlotSpec::dongle(&d)],
            &mut os_rng,
        )
        .unwrap();
        assert_eq!(n as usize, len);
        let (_, fk) = h.unlock_any(Some(&fake()), &mut no_pass).unwrap();
        let (_, hlen) = Header::parse(&blob).unwrap();
        let mut out = Vec::new();
        assert_eq!(
            open_body(&mut SliceSource::new(&blob[hlen..]), &mut out, &fk).unwrap() as usize,
            len
        );
        assert_eq!(out, data);
        let chunks = len.div_ceil(CHUNK).max(1);
        assert_eq!(blob.len(), hlen + PREFIX + len + chunks * TAG);
        if chunks > 1 {
            // Cut at a chunk boundary: the "last" flag catches it.
            let cut = hlen + PREFIX + CHUNK + TAG;
            let mut out = Vec::new();
            let e = open_body(&mut SliceSource::new(&blob[hlen..cut]), &mut out, &fk).unwrap_err();
            assert!(matches!(e, Error::Corrupt(_)), "{e:?}");
            // Swap two chunks: the counter catches it.
            let mut swapped = blob.clone();
            if len < 2 * CHUNK {
                continue;
            }
            let a = hlen + PREFIX;
            let b = a + CHUNK + TAG;
            let (first, second) =
                (swapped[a..b].to_vec(), swapped[b..b + CHUNK + TAG].to_vec());
            swapped[a..b].copy_from_slice(&second);
            swapped[b..b + CHUNK + TAG].copy_from_slice(&first);
            assert!(matches!(open_bytes(&swapped, &fk), Err(Error::Corrupt(_))));
        }
        // Cut mid-chunk.
        let mut out = Vec::new();
        let e = open_body(&mut SliceSource::new(&blob[hlen..blob.len() - 5]), &mut out, &fk)
            .unwrap_err();
        assert!(matches!(e, Error::Corrupt(_) | Error::Truncated), "{e:?}");
    }
}

#[test]
fn header_read_from_stream() {
    let d = ti();
    let blob = seal_bytes(
        b"stream me",
        &[SlotSpec::dongle(&d), SlotSpec::pass(b"x").with_argon(TINY)],
        &mut os_rng,
    )
    .unwrap();
    let mut cur = SliceSource::new(&blob);
    let h = Header::read(&mut cur).unwrap();
    assert_eq!(h.slots.len(), 2);
    let (_, fk) = h.unlock_any(Some(&fake()), &mut no_pass).unwrap();
    let mut out = Vec::new();
    open_body(&mut cur, &mut out, &fk).unwrap();
    assert_eq!(out, b"stream me");
    assert_eq!(
        Header::read(&mut SliceSource::new(b"UNISEAL1\x01")).unwrap_err(),
        Error::Truncated
    );
    assert_eq!(Header::read(&mut SliceSource::new(b"nope")).unwrap_err(), Error::NotVault);
}

#[test]
fn passphrase_and_second_factor() {
    let d = ti();
    let specs = [
        SlotSpec::dongle_pass(&d, b"1234").with_argon(TINY),
        SlotSpec::pass(b"correct horse").with_argon(TINY),
    ];
    let blob = seal_bytes(b"two factors", &specs, &mut os_rng).unwrap();
    let (h, _) = Header::parse(&blob).unwrap();
    assert_eq!(h.slots[0].kind, Kind::DonglePass);
    assert_eq!(h.slots[1].kind, Kind::Pass);
    assert_eq!(h.slots[1].argon, TINY);

    let (i, pt) = open_with(&blob, Some(&fake()), Some(b"1234")).unwrap();
    assert_eq!((i, pt.as_slice()), (0, &b"two factors"[..]));
    assert!(
        matches!(open_with(&blob, Some(&fake()), None), Err(Error::NoUsableSlot(_))),
        "dongle alone refused"
    );
    let (i, _) = open_with(&blob, None, Some(b"correct horse")).unwrap();
    assert_eq!(i, 1, "recovery passphrase opens without dongles");
    match open_with(&blob, Some(&fake()), Some(b"nope")) {
        Err(Error::NoUsableSlot(r)) => {
            assert_eq!(r.len(), 2);
            assert!(r.iter().all(|s| s.contains("wrong passphrase")), "{r:?}");
        }
        e => panic!("{e:?}"),
    }
    assert!(seal_bytes(b"x", &[SlotSpec::pass(b"")], &mut os_rng).is_err());
}

#[test]
fn slot_management() {
    let d = ti();
    let blob = seal_bytes(b"data", &[SlotSpec::dongle(&d)], &mut os_rng).unwrap();
    let (mut h, hlen) = Header::parse(&blob).unwrap();
    let (_, fk) = h.unlock_any(Some(&fake()), &mut no_pass).unwrap();
    assert_eq!(
        h.add_slot(&fk, &SlotSpec::pass(b"rescue").with_argon(TINY), &mut os_rng).unwrap(),
        1
    );
    let mut rebuilt = h.to_bytes();
    rebuilt.extend_from_slice(&blob[hlen..]);
    let (i, pt) = open_with(&rebuilt, None, Some(b"rescue")).unwrap();
    assert_eq!(
        (i, pt.as_slice()),
        (1, &b"data"[..]),
        "added slot wraps the same file key"
    );
    h.remove_slot(0).unwrap();
    assert_eq!(h.remove_slot(0), Err(Error::LastSlot));
    assert_eq!(h.remove_slot(5), Err(Error::NoSuchSlot));
    assert!(
        matches!(h.unlock_any(Some(&fake()), &mut no_pass), Err(Error::NoUsableSlot(_))),
        "dongle slot gone"
    );
    for _ in 0..MAX_SLOTS - 1 {
        h.add_slot(&fk, &SlotSpec::dongle(&d), &mut os_rng).unwrap();
    }
    assert_eq!(
        h.add_slot(&fk, &SlotSpec::dongle(&d), &mut os_rng).unwrap_err(),
        Error::TooManySlots
    );
}

#[test]
fn binding_subset() {
    // Bound to the receiver only: a fake that lost slot 3 still opens it.
    let recv = Dongle {
        material: fake().material(DONGLE_TI, 0).unwrap(),
        dongles: DONGLE_TI,
        nkeys: 0,
        bind: 0,
    };
    let blob = seal_bytes(b"receiver only", &[SlotSpec::dongle(&recv)], &mut os_rng).unwrap();
    assert_eq!(
        Header::parse(&blob).unwrap().0.slots[0].describe(),
        "dongle TI · receiver only · 0 rec."
    );
    assert_eq!(
        open_with(&blob, Some(&fake()), None).unwrap().1.as_slice(),
        b"receiver only"
    );
    // Bound to slots 1 and 3 while only slot 1 exists later: refused with a reason.
    struct Lost;
    impl DongleSource for Lost {
        fn plugged(&self) -> u8 {
            DONGLE_TI
        }
        fn material(&self, d: u8, bind: u8) -> Result<Secret, String> {
            if bind & 0b100 != 0 {
                Err("device in slot 3 missing".into())
            } else {
                fake().material(d, bind)
            }
        }
    }
    let d = ti();
    let full = seal_bytes(b"x", &[SlotSpec::dongle(&d)], &mut os_rng).unwrap();
    match open_with(&full, Some(&Lost), None) {
        Err(Error::NoUsableSlot(r)) => assert!(r[0].contains("slot 3 missing"), "{r:?}"),
        e => panic!("{e:?}"),
    }
    assert_eq!(
        open_with(&blob, Some(&Lost), None).unwrap().1.as_slice(),
        b"receiver only"
    );
}

/// Known-answer test: any change to the KDFs, the AAD, the layout, the chunking or the nonce order
/// silently bricks every existing vault. Regenerate the expected bytes only for a deliberate
/// format bump.
#[test]
fn known_answer() {
    let d = ti();
    let specs = [SlotSpec::dongle(&d), SlotSpec::pass(b"hunter2").with_argon(TINY)];
    let blob = seal_bytes(b"known answer", &specs, &mut det_rng()).unwrap();
    let got = hex(&blob);
    assert_eq!(hex(&kid(d.material.as_slice())), "D76B23038ADAC887");
    assert_eq!(
        got,
        "554E495345414C310201010205D76B23038ADAC887202122232425262728292A\
         2B2C2D2E2F000000000000000000000000303132333435363738393A3B3C3D3E\
         3F4041424344454647B7EDDE412F52AEAB3DEBC5C6D4947E4034931FD188F463\
         EFB8AB13D23DD24F727384A1F7E8877BFB522FD9FCA65523C902000000000000\
         000000000048494A4B4C4D4E4F50515253545556570000000800000001000000\
         0158595A5B5C5D5E5F606162636465666768696A6B6C6D6E6FD7EE6303C4685B\
         A85E7D72E22AE468E9800FFC9D51A7829832E754F3B94C590F37FB9A8872B468\
         A3936636638E7950D6707172737475767778797A7B7C7D7E7F8081826F9B5DAA\
         76622E9F53B2C0B038B4E613F921245E8E3D9DB225031E1D"
    );
}
