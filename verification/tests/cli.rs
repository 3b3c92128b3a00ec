use uniseal::cli::{
    ask_label, binding_line, choose_key, confirmed, delete_key, dongle_for, id_lines, info_line,
    info_lines, key_recipe, lock_plan, refuse_empty, slot_line, AskOnce, KeyChoice,
};
use uniseal::fingerprint::{Fingerprint, Record, SlotInfo};
use uniseal::selfcheck::{body_check, open_all, self_check_failed, SlotFailure};
use uniseal::vault::seal::new_vault;
use uniseal::vault::{
    argon_default, argon_none, hex, os_rng, Argon, Dongle, DongleSource, Error, Header, Kind, Secret,
    SlotSpec,
};

const TINY: Argon = Argon { m_kib: 8, t: 1, p: 1 };

fn secret(s: &str) -> Secret {
    Secret::new(s.as_bytes().to_vec())
}

fn fp() -> Fingerprint {
    Fingerprint {
        ti_present: true,
        receiver_serial: vec![0x11, 0x22, 0x33, 0x44],
        firmware: "RQR24.11_B0030".into(),
        d4_open: true,
        slots: vec![
            SlotInfo {
                slot: 1,
                wpid: [0x40, 0x4D],
                kind: "keyboard".into(),
                name: "K1".into(),
                serial: vec![1, 2, 3, 4],
                record: Some(Record::new(&[7; 16])),
            },
            SlotInfo {
                slot: 3,
                wpid: [0x40, 0x8A],
                kind: "mouse".into(),
                name: "M3".into(),
                serial: vec![5, 6, 7, 8],
                record: None,
            },
        ],
        nano_present: false,
        nano_serial: vec![],
    }
}

#[test]
fn new_passphrases() {
    assert_eq!(refuse_empty(&secret("")), Err("empty passphrase refused".into()));
    assert_eq!(refuse_empty(&secret("x")), Ok(()));
    assert_eq!(confirmed(secret("ab"), &secret("ab")).unwrap().as_slice(), b"ab");
    assert_eq!(confirmed(secret("ab"), &secret("ac")).unwrap_err(), "passphrases differ");
}

#[test]
fn asked_once() {
    let mut a = AskOnce::new();
    assert!(!a.asked);
    a.heard(Some(secret("pin")));
    assert!(a.asked);
    assert_eq!(a.answer().unwrap().as_slice(), b"pin");
    assert_eq!(a.answer().unwrap().as_slice(), b"pin");
    let mut a = AskOnce::new();
    a.heard(Some(secret("")));
    assert!(a.asked && a.answer().is_none());
    let mut a = AskOnce::new();
    a.heard(None);
    assert!(a.asked && a.answer().is_none());
}

fn vault() -> (Header, Dongle) {
    let d = fp().dongle(None).unwrap();
    let specs = [
        SlotSpec::dongle(&d),
        SlotSpec::pass(b"p").with_argon(TINY),
        SlotSpec::dongle_pass(&d, b"q").with_argon(TINY),
    ];
    let h = new_vault(&specs, &mut os_rng).unwrap().0;
    (h, d)
}

#[test]
fn labels_of_questions() {
    let (h, _) = vault();
    assert_eq!(ask_label(0, &h.slots[1]), "slot 0 passphrase");
    assert_eq!(ask_label(12, &h.slots[2]), "slot 12 PIN");
}

#[test]
fn dongles_for_new_keyslots() {
    let (d, warn) = dongle_for(&fp(), "all", false).unwrap();
    assert_eq!((d.bind, d.nkeys, warn), (0b101, 1, false));
    assert_eq!(binding_line(&d), "binding: TI · slots 1,3 · 1 rec.");
    let (d, warn) = dongle_for(&fp(), "3", false).unwrap();
    assert_eq!((d.bind, d.nkeys, warn), (0b100, 0, true));
    let (d, warn) = dongle_for(&fp(), "receiver", true).unwrap();
    assert_eq!((d.bind, d.nkeys, warn), (0, 0, false));
    assert_eq!(binding_line(&d), "binding: TI · receiver only · 0 rec.");
    assert_eq!(dongle_for(&fp(), "9", false).unwrap_err(), "slot 9 out of range 1-6");
    assert_eq!(
        dongle_for(&fp(), "2", false).unwrap_err(),
        "device in receiver slot 2 missing (unpaired or re-paired?)"
    );
}

#[test]
fn plans_of_locks() {
    let d = fp().dongle(None).unwrap();
    let kinds = |pin: Option<&[u8]>, rec: Option<&[u8]>, with: bool| {
        lock_plan(if with { Some(&d) } else { None }, pin, rec).map(|p| {
            let k: Vec<(Kind, Option<Vec<u8>>, Argon)> =
                p.specs.iter().map(|s| (s.kind, s.pass.map(|p| p.to_vec()), s.argon)).collect();
            (k, p.without_dongles)
        })
    };
    let (pin, rec) = (Some(&b"1"[..]), Some(&b"2"[..]));
    let a = argon_default();
    assert_eq!(kinds(None, None, true), Some((vec![(Kind::Dongle, None, argon_none())], false)));
    assert_eq!(
        kinds(pin, rec, true),
        Some((
            vec![
                (Kind::DonglePass, Some(b"1".to_vec()), a),
                (Kind::Pass, Some(b"2".to_vec()), a)
            ],
            false
        ))
    );
    assert_eq!(kinds(pin, rec, false), Some((vec![(Kind::Pass, Some(b"2".to_vec()), a)], true)));
    assert_eq!(kinds(pin, None, false), None);
    assert_eq!(kinds(None, None, false), None);
}

#[test]
fn self_checks() {
    let d = fp().dongle(None).unwrap();
    let specs = [SlotSpec::dongle(&d), SlotSpec::pass(b"p").with_argon(TINY)];
    let (mut h, fk) = new_vault(&specs, &mut os_rng).unwrap();
    let keys = open_all(&h, &specs).ok().unwrap();
    assert_eq!(keys.len(), 2);
    assert!(keys.iter().all(|k| k.as_slice() == fk.as_slice()));
    h.slots[1].wrapped[3] ^= 1;
    let f = open_all(&h, &specs).err().unwrap();
    assert_eq!((f.slot, &f.error), (1, &Error::WrongKey));
    assert_eq!(
        self_check_failed(&f),
        "self-check failed on slot 1 (wrong key: refused), vault removed"
    );
    h.slots.remove(1);
    let f: SlotFailure = open_all(&h, &specs).err().unwrap();
    assert_eq!((f.slot, f.error), (1, Error::NoSuchSlot));
    assert_eq!(body_check(Ok(3), &[1; 32], &[1; 32]), Ok(()));
    assert_eq!(body_check(Ok(3), &[1; 32], &[2; 32]), Err("plaintext digest differs".into()));
    assert_eq!(
        body_check(Err(Error::Truncated), &[1; 32], &[1; 32]),
        Err("vault truncated".into())
    );
}

#[test]
fn lines_about_keyslots() {
    let (h, d) = vault();
    assert_eq!(slot_line(0, &h.slots[0]), "slot 0: dongle TI · slots 1,3 · 1 rec.");
    let kid = hex(&h.slots[0].kid);
    let lines = info_lines(&h, Some(&fp()));
    assert_eq!(lines.len(), 3);
    assert_eq!(
        lines[0],
        format!("slot 0: dongle TI · slots 1,3 · 1 rec. kid {kid} -> openable with the plugged dongles")
    );
    assert_eq!(
        lines[1],
        "slot 1: passphrase (Argon2id 0 MiB t=1) -> openable with the passphrase"
    );
    assert!(lines[2].ends_with(&format!("kid {kid} -> openable with the passphrase")));
    let nobody: Option<&Fingerprint> = None;
    let lines = info_lines(&h, nobody);
    assert!(lines[0].ends_with(" -> needs dongle TI, none readable"), "{lines:?}");
    assert_eq!(
        info_line(4, &h.slots[1], Err("why".into())),
        "slot 4: passphrase (Argon2id 0 MiB t=1) -> why"
    );
    assert_eq!(h.slots[0].check_dongle(Some(&fp())).unwrap().unwrap().as_slice(), d.material.as_slice());
    assert!(h.slots[1].check_dongle(Some(&fp())).unwrap().is_none());
}

#[test]
fn keys_are_chosen() {
    assert_eq!(choose_key(true, false, false), Ok(KeyChoice::Pin));
    assert_eq!(choose_key(false, true, false), Ok(KeyChoice::Recovery));
    assert_eq!(choose_key(false, false, true), Ok(KeyChoice::Dongle));
    for (p, r, d) in [(false, false, false), (true, true, false), (true, false, true), (false, true, true), (true, true, true)] {
        assert_eq!(
            choose_key(p, r, d),
            Err("choose exactly one of --pin, --recovery, --dongle".into())
        );
    }
    let d = fp().dongle(None).unwrap();
    let p = Some(&b"p"[..]);
    assert_eq!(key_recipe(KeyChoice::Pin, Some(&d), p).unwrap().kind, Kind::DonglePass);
    assert_eq!(key_recipe(KeyChoice::Recovery, None, p).unwrap().kind, Kind::Pass);
    assert_eq!(key_recipe(KeyChoice::Dongle, Some(&d), None).unwrap().kind, Kind::Dongle);
    assert!(key_recipe(KeyChoice::Pin, Some(&d), None).is_none());
    assert!(key_recipe(KeyChoice::Pin, None, p).is_none());
    assert!(key_recipe(KeyChoice::Recovery, Some(&d), None).is_none());
    assert!(key_recipe(KeyChoice::Dongle, None, p).is_none());
}

#[test]
fn keys_are_deleted() {
    let (mut h, _) = vault();
    assert_eq!(delete_key(&mut h, 3), Err("no such keyslot".into()));
    assert_eq!(
        delete_key(&mut h, 1),
        Ok("removed slot 1 (passphrase (Argon2id 0 MiB t=1)); 2 left".into())
    );
    assert_eq!(h.slots[1].kind, Kind::DonglePass);
    assert!(delete_key(&mut h, 0).is_ok());
    assert_eq!(delete_key(&mut h, 0), Err("refusing to remove the last keyslot".into()));
    assert_eq!(h.slots.len(), 1);
}

#[test]
fn lines_about_receivers() {
    let mut f = fp();
    f.nano_present = true;
    f.nano_serial = vec![0xAB, 0xCD, 0xEF, 0x01];
    let kid = hex(&f.kid());
    assert_eq!(
        id_lines(&f),
        [
            "TI C52B RQR24.11_B0030 + Nano C52F | slots 2 | grade: pairing records (1)".to_string(),
            "slot 1 404D keyboard 'K1' +record".to_string(),
            "slot 3 408A mouse 'M3'".to_string(),
            "TI serial 11223344  D4 open".to_string(),
            "Nano serial ABCDEF01".to_string(),
            format!("kid {kid} (all plugged receivers, slots 1,3)"),
        ]
    );
    let nano = Fingerprint { nano_present: true, nano_serial: vec![1, 2, 3, 4], ..Fingerprint::default() };
    assert_eq!(id_lines(&nano).len(), 3);
    assert_eq!(nano.plugged(), 2);
}
