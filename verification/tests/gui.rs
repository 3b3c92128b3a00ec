use sha2::{Digest, Sha256};
use uniseal::fingerprint::{Fingerprint, FpError, Record, SlotInfo};
use uniseal::gui::app::{App, Chip, Key, Primary, Wish, MAX_LOGS};
use uniseal::gui::draw::{
    chip_label, clip, grade, identicon, identicon_of, kid_line, log_text, masked, nano_line,
    pass_label, pill, shown_kid,
};
use uniseal::gui::layout::{
    browse_btn, dashes, drop_zone, eye_btn, log_box, pass_field, primary_btn, receiver_card,
    refresh_btn, segment_bar, segment_rect, vault_card, ChipRow, Rect, H, W,
};
use uniseal::gui::report::{check_line, locked_line, slot_reason, unlocked_line};
use uniseal::gui::status::{inspect, judge_slot, refresh, SlotState};
use uniseal::gui::typed::Typed;
use uniseal::gui::{stamp, Focus, Level, Mode};
use uniseal::selfcheck::open_all;
use uniseal::vault::seal::new_vault;
use uniseal::vault::{os_rng, Argon, Kind, SlotSpec};

fn fp() -> Fingerprint {
    Fingerprint {
        ti_present: true,
        receiver_serial: vec![0x11, 0x22, 0x33, 0x44],
        firmware: "RQR24.11_B0030".into(),
        d4_open: true,
        slots: vec![
            SlotInfo {
                slot: 1,
                wpid: [0x40, 0x4D],
                kind: "keyboard".into(),
                name: "K1".into(),
                serial: vec![1, 2, 3, 4],
                record: Some(Record::new(&[7; 16])),
            },
            SlotInfo {
                slot: 3,
                wpid: [0x40, 0x8A],
                kind: "mouse".into(),
                name: "".into(),
                serial: vec![5, 6, 7, 8],
                record: None,
            },
        ],
        nano_present: false,
        nano_serial: vec![],
    }
}

/// A window in which the receivers have been read.
fn ready() -> App {
    let mut a = App::new();
    a.done_status(0, refresh(Ok(fp())));
    a
}

fn centre(r: Rect) -> (i32, i32) {
    (r.x + r.w as i32 / 2, r.y + r.h as i32 / 2)
}

fn click(a: &mut App, r: Rect) -> Wish {
    let (x, y) = centre(r);
    a.click(x, y)
}

fn keyslot(level: Level) -> SlotState {
    SlotState { desc: "d".into(), state: "s".into(), level }
}

#[test]
fn stamps() {
    assert_eq!(stamp(0), "00:00:00");
    assert_eq!(stamp(86399), "23:59:59");
    assert_eq!(stamp(1_700_000_000), "22:13:20");
    assert_eq!(stamp(u64::MAX), "07:00:15");
}

#[test]
fn modes() {
    assert_eq!((Mode::nth(0), Mode::nth(1), Mode::nth(2)), (Mode::Dongle, Mode::DonglePin, Mode::DongleRecovery));
    assert_eq!(Mode::Dongle.label(), "Dongle");
    assert_eq!(Mode::DonglePin.label(), "Dongle + PIN");
    assert_eq!(Mode::DongleRecovery.label(), "+ Recovery");
    assert_eq!(Mode::Dongle.hint(), "Anyone holding the dongles opens it.");
    assert_eq!(Mode::DonglePin.hint(), "Dongles and PIN both required (Argon2id).");
    assert_eq!(Mode::DongleRecovery.hint(), "Dongle slot + passphrase slot without dongles.");
    assert!(!Mode::Dongle.needs_pass() && Mode::DonglePin.needs_pass() && Mode::DongleRecovery.needs_pass());
    let d = fp().dongle(None).unwrap();
    let kinds = |m: Mode| m.specs(&d, b"p").iter().map(|s| s.kind).collect::<Vec<Kind>>();
    assert_eq!(kinds(Mode::Dongle), [Kind::Dongle]);
    assert_eq!(kinds(Mode::DonglePin), [Kind::DonglePass]);
    assert_eq!(kinds(Mode::DongleRecovery), [Kind::Dongle, Kind::Pass]);
}

#[test]
fn statuses() {
    let s = refresh(Ok(fp()));
    assert!(s.ok && s.strong);
    assert_eq!((s.nkeys, s.detail.as_str(), s.name.as_str()), (1, "receiver ready", "TI C52B"));
    assert_eq!(s.line, "RQR24.11_B0030 · D4 open · 1 record");
    assert_eq!(s.serial, "serial 11223344");
    assert_eq!(s.nano, None);
    assert_eq!(s.devices.len(), 2);
    assert_eq!(s.devices[0].label, "K1 · keyboard");
    assert_eq!(s.devices[1].label, "wpid 408A · mouse");
    assert_eq!((s.devices[0].record, s.devices[1].record, s.devices[1].slot), (true, false, 3));

    let mut f = fp();
    f.d4_open = false;
    f.slots[0].record = None;
    f.nano_present = true;
    f.nano_serial = vec![1, 2, 3, 4];
    let s = refresh(Ok(f));
    assert_eq!(s.name, "TI C52B + Nano C52F");
    assert_eq!(s.line, "RQR24.11_B0030 · D4 closed · 0 records");
    assert_eq!(s.nano.as_deref(), Some("Nano C52F 01020304"));
    assert!(!s.strong);

    let nano = Fingerprint { nano_present: true, nano_serial: vec![9, 8, 7, 6], ..Fingerprint::default() };
    let s = refresh(Ok(nano));
    assert_eq!((s.name.as_str(), s.line.as_str()), ("Nano C52F", "Nano only: serial, no pairing record"));
    assert_eq!(s.serial, "serial 09080706");

    let s = refresh(Err(FpError::NoReceiver));
    assert!(!s.ok && s.fp.is_none() && s.devices.is_empty());
    assert_eq!(s.detail, "no supported receiver (CU-0008 / CU-0010)");
}

#[test]
fn keyslots_are_judged() {
    let d = fp().dongle(None).unwrap();
    let tiny = Argon { m_kib: 8, t: 1, p: 1 };
    let specs = [SlotSpec::dongle(&d), SlotSpec::pass(b"p").with_argon(tiny)];
    let (h, _) = new_vault(&specs, &mut os_rng).unwrap();
    let states = |src: Option<&Fingerprint>| {
        inspect(&h, src).into_iter().map(|s| (s.state, s.level)).collect::<Vec<(String, Level)>>()
    };
    let pass = ("needs passphrase".to_string(), Level::Warn);
    assert_eq!(states(Some(&fp())), [("opens now".to_string(), Level::Good), pass.clone()]);
    assert_eq!(states(None), [("no dongles".to_string(), Level::Bad), pass.clone()]);
    let mut lost = fp();
    lost.slots.pop();
    assert_eq!(states(Some(&lost))[0], ("device missing".to_string(), Level::Bad));
    let nano = Fingerprint { nano_present: true, nano_serial: vec![1, 2, 3, 4], ..Fingerprint::default() };
    assert_eq!(states(Some(&nano))[0], ("other dongles".to_string(), Level::Bad));
    let mut other = fp();
    other.slots[0].serial[0] ^= 1;
    assert_eq!(states(Some(&other))[0], ("kid mismatch".to_string(), Level::Bad));
    let v = judge_slot(&h.slots[0], Err("needs dongle X, none readable".into()));
    assert_eq!((v.desc.as_str(), v.state.as_str()), ("dongle TI · slots 1,3 · 1 rec.", "no dongles"));
}

#[test]
fn the_log_keeps_ten_lines() {
    let mut a = App::new();
    for i in 0..13u64 {
        a.log(i, &format!("line {i}"), Level::Info);
    }
    assert_eq!(a.logs.len(), MAX_LOGS);
    assert_eq!(a.logs[0].text, "00:00:03  line 3");
    assert_eq!(a.logs[9].text, "00:00:12  line 12");
    assert_eq!(a.logs[9].level, Level::Info);
}

#[test]
fn files_are_selected() {
    let mut a = App::new();
    assert!(!a.take_dirty());
    a.set_path("x");
    assert!(a.path_dirty);
    a.done_inspect(Some(vec![keyslot(Level::Good)]));
    assert!(a.is_vault() && !a.pass_needed());
    assert!(a.take_dirty() && !a.take_dirty());
    a.set_path("x");
    assert!(a.is_vault() && !a.path_dirty);
    a.set_path("y");
    assert!(!a.is_vault() && a.path_dirty);
    a.done_inspect(Some(vec![keyslot(Level::Bad), keyslot(Level::Warn)]));
    assert!(a.pass_needed());
}

#[test]
fn the_primary_button() {
    let mut a = ready();
    assert_eq!(a.primary_label(""), ("Select a file".to_string(), false));
    a.set_path("dir/x");
    assert_eq!(a.primary_label("x.vault"), ("Lock · x.vault".to_string(), true));
    a.done_inspect(Some(vec![]));
    a.sent(true);
    assert_eq!(a.primary_label("x"), ("Unlock · x".to_string(), false));
}

#[test]
fn clicks() {
    let mut a = ready();
    a.set_path("x");
    assert_eq!(click(&mut a, pass_field()), Wish::Nothing);
    assert_eq!(a.focus, Focus::Pass);
    assert_eq!(click(&mut a, browse_btn()), Wish::Browse);
    assert_eq!(a.focus, Focus::Pass, "the browse button does not take the focus");
    assert_eq!(a.click(drop_zone().x, drop_zone().y), Wish::Nothing);
    assert_eq!(a.focus, Focus::File);
    assert_eq!(click(&mut a, primary_btn()), Wish::Fire);
    assert_eq!(click(&mut a, refresh_btn()), Wish::Refresh);
    // The eye works only where a passphrase is needed.
    click(&mut a, eye_btn());
    assert!(!a.show_pass);
    for (i, m) in [Mode::Dongle, Mode::DonglePin, Mode::DongleRecovery].into_iter().enumerate() {
        click(&mut a, segment_rect(i));
        assert_eq!(a.mode, m);
    }
    let last = segment_bar().x + segment_bar().w as i32 - 1;
    a.mode = Mode::Dongle;
    a.click(last, segment_bar().y);
    assert_eq!(a.mode, Mode::DongleRecovery);
    click(&mut a, eye_btn());
    assert!(a.show_pass);
    // A vault has no modes to choose from.
    a.done_inspect(Some(vec![]));
    click(&mut a, segment_rect(0));
    assert_eq!(a.mode, Mode::DongleRecovery);
}

#[test]
fn clicks_while_busy() {
    let mut a = ready();
    a.sent(true);
    a.chips = vec![Chip { rect: receiver_card(), slot: 1 }];
    let bind = a.bind;
    for r in [browse_btn(), primary_btn(), refresh_btn(), segment_rect(2), receiver_card()] {
        assert_eq!(click(&mut a, r), Wish::Nothing);
    }
    assert_eq!((a.mode, a.bind), (Mode::Dongle, bind));
    click(&mut a, pass_field());
    assert_eq!(a.focus, Focus::Pass);
}

#[test]
fn chips_toggle_the_binding() {
    let mut a = ready();
    assert_eq!(a.bind, 0b101);
    let mut row = ChipRow::new();
    let one = row.place(50).unwrap();
    let two = row.place(60).unwrap();
    a.chips = vec![Chip { rect: one, slot: 1 }, Chip { rect: two, slot: 3 }];
    click(&mut a, two);
    assert_eq!(a.bind, 0b001);
    click(&mut a, two);
    click(&mut a, one);
    assert_eq!(a.bind, 0b100);
}

#[test]
fn typing() {
    let mut a = ready();
    a.type_text("ab");
    a.type_text("é");
    assert_eq!(a.path, "abé");
    assert_eq!(a.press(Key::Backspace, false), Wish::Nothing);
    assert_eq!(a.path, "ab");
    a.press(Key::Backspace, true);
    assert_eq!(a.path, "");
    a.press(Key::Backspace, false);
    assert_eq!(a.path, "");
    a.paste("/x");
    a.paste("/y");
    assert_eq!(a.path, "/y");
    // Tab goes to the passphrase only where one is needed.
    a.press(Key::Tab, false);
    assert_eq!(a.focus, Focus::File);
    a.mode = Mode::DonglePin;
    a.press(Key::Tab, false);
    assert_eq!(a.focus, Focus::Pass);
    a.type_text("pä");
    a.paste("ss");
    assert_eq!(a.pass.to_secret().as_slice(), "päss".as_bytes());
    a.press(Key::Backspace, false);
    assert_eq!(a.pass.to_secret().as_slice(), "päs".as_bytes());
    a.press(Key::Backspace, true);
    assert!(a.pass.is_empty());
    a.press(Key::Tab, false);
    assert_eq!(a.focus, Focus::File);
    assert_eq!(a.press(Key::Escape, false), Wish::Quit);
    assert_eq!(a.press(Key::Return, false), Wish::Fire);
    assert_eq!(a.press(Key::V, false), Wish::Nothing);
    assert_eq!(a.press(Key::V, true), Wish::Paste);
    assert_eq!(a.press(Key::Other, true), Wish::Nothing);
}

#[test]
fn typed_passphrases() {
    let mut t = Typed::new();
    t.push_str("añ€😀");
    assert_eq!((t.len(), t.to_secret().as_slice()), (4, "añ€😀".as_bytes()));
    t.pop();
    assert_eq!(t.to_secret().as_slice(), "añ€".as_bytes());
    t.clear();
    t.pop();
    assert!(t.is_empty());
}

#[test]
fn primary_actions() {
    let mut a = App::new();
    a.set_path("x");
    assert!(matches!(a.primary(0), Primary::Nothing), "busy");
    a.sent(false);
    assert!(matches!(a.primary(0), Primary::Nothing));
    assert_eq!(a.logs[0].text, "00:00:00  no dongle fingerprint: plug a receiver and Refresh");
    assert_eq!(a.logs[0].level, Level::Bad);

    let mut a = ready();
    assert!(matches!(a.primary(0), Primary::Nothing), "no file");
    a.set_path("x");
    match a.primary(0) {
        Primary::Lock { dongle, mode, pass } => {
            assert_eq!((dongle.bind, dongle.nkeys, mode), (0b101, 1, Mode::Dongle));
            assert!(pass.is_empty());
        }
        _ => panic!(),
    }
    assert_eq!(a.logs.len(), 1, "no warning");
    a.bind = 0b100;
    assert!(matches!(a.primary(0), Primary::Lock { .. }));
    assert_eq!(
        a.logs[1].text,
        "00:00:00  warning: no pairing record in this binding, serials only; consider a PIN"
    );
    assert_eq!(a.logs[1].level, Level::Warn);
    a.bind = 0b010;
    assert!(matches!(a.primary(0), Primary::Nothing));
    assert_eq!(
        a.logs[2].text,
        "00:00:00  device in receiver slot 2 missing (unpaired or re-paired?)"
    );
    a.bind = 0b100;
    a.mode = Mode::DonglePin;
    assert!(matches!(a.primary(0), Primary::Nothing));
    assert_eq!(a.logs[3].text, "00:00:00  Dongle + PIN: type a passphrase first");
    assert_eq!(a.focus, Focus::Pass);
    a.type_text("1234");
    match a.primary(0) {
        Primary::Lock { pass, mode, .. } => {
            assert_eq!((pass.as_slice(), mode), (&b"1234"[..], Mode::DonglePin));
        }
        _ => panic!(),
    }
    assert_eq!(a.logs.len(), 4, "no warning with a PIN");
    a.done_inspect(Some(vec![]));
    match a.primary(0) {
        Primary::Unlock { pass } => assert_eq!(pass.as_slice(), b"1234"),
        _ => panic!(),
    }
}

#[test]
fn jobs_end() {
    let mut a = App::new();
    assert_eq!(pill(&a), "working…");
    a.done_status(3661, refresh(Err(FpError::Unstable)));
    assert_eq!((a.busy, a.bind, a.path_dirty), (false, 0, false));
    assert_eq!(pill(&a), "no receiver");
    assert_eq!(
        a.logs[0].text,
        "01:01:01  fingerprint differed between consecutive reads; refusing to use it"
    );
    assert_eq!(a.logs[0].level, Level::Bad);
    a.set_path("x");
    a.done_status(0, refresh(Ok(fp())));
    assert_eq!((a.bind, a.path_dirty), (0b101, true));
    assert_eq!(pill(&a), "receiver ready");
    assert_eq!(a.logs[1].level, Level::Good);
    a.focus = Focus::Pass;
    a.type_text("pin");
    a.sent(true);
    a.done_line(0, "wrong", Level::Bad);
    assert_eq!((a.pass.len(), a.busy), (3, false));
    a.done_line(0, "locked", Level::Good);
    assert!(a.pass.is_empty());
}

#[test]
fn layout() {
    let r = Rect { x: 10, y: 20, w: 5, h: 6 };
    assert!(r.contains_point(10, 20) && r.contains_point(14, 25));
    assert!(!r.contains_point(15, 20) && !r.contains_point(10, 26) && !r.contains_point(9, 20));
    assert!(!Rect { x: i32::MAX, y: 0, w: u32::MAX, h: 1 }.contains_point(0, 0));
    let mut a = App::new();
    assert!(!a.hovering(log_box()));
    a.hover = centre(log_box());
    assert!(a.hovering(log_box()) && !a.hovering(vault_card()));
    assert_eq!((W, H), (900, 644));
    assert_eq!(segment_rect(2), Rect { x: 732, y: 176, w: 127, h: 30 });
}

#[test]
fn chips_are_placed() {
    let mut row = ChipRow::new();
    assert_eq!(row.place(150), Some(Rect { x: 40, y: 230, w: 176, h: 24 }));
    assert_eq!(row.place(150), Some(Rect { x: 224, y: 230, w: 176, h: 24 }));
    assert_eq!(row.place(500), Some(Rect { x: 40, y: 262, w: 226, h: 24 }));
    assert_eq!(row.place(100), Some(Rect { x: 274, y: 262, w: 126, h: 24 }));
    assert_eq!(row.place(10), None);
    assert_eq!((row.x, row.y), (40, 294));
}

#[test]
fn dashed_lines() {
    assert_eq!(dashes(0), []);
    assert_eq!(dashes(3), [(0, 3)]);
    assert_eq!(dashes(10), [(0, 6)]);
    assert_eq!(dashes(23), [(0, 6), (10, 6), (20, 3)]);
}

#[test]
fn identicons() {
    let kid = [1, 2, 3, 4, 5, 6, 7, 8];
    let h: [u8; 32] = Sha256::digest(kid).into();
    for p in [identicon(&kid), identicon_of(&h)] {
        assert_eq!(p.shade, 150 + h[0] % 60);
        for row in 0..5 {
            for c in 0..3 {
                let on = h[3 + row * 3 + c] % 2 == 0;
                assert_eq!((p.cells[row][c], p.cells[row][4 - c]), (on, on));
            }
        }
    }
    let mut h = [1; 32];
    h[3] = 2;
    h[17] = 2;
    let p = identicon_of(&h);
    assert_eq!(p.cells[0], [true, false, false, false, true]);
    assert_eq!(p.cells[4], [false, false, true, false, false]);
    assert_eq!(p.shade, 151);
}

#[test]
fn words() {
    assert_eq!(grade(true, 3), "records ×3");
    assert_eq!(grade(false, 0), "serials only");
    assert_eq!(kid_line("serial 1", &[0xAB; 8], false), "serial 1 · kid ABABABABABABABAB");
    assert_eq!(kid_line("serial 1", &[0xAB; 8], true), "serial ········ · kid ················");
    assert_eq!(chip_label("My · K1 · keyboard", true, 2, false), "My · K1 · keyboard · rec");
    assert_eq!(chip_label("My · K1 · keyboard", true, 2, true), "device 2 · keyboard · rec");
    assert_eq!(chip_label("plain", false, 4, true), "device 4 · plain");
    let mut a = ready();
    assert_eq!(pass_label(&a), "recovery passphrase");
    a.mode = Mode::DonglePin;
    assert_eq!(pass_label(&a), "PIN");
    a.done_inspect(Some(vec![]));
    assert_eq!(pass_label(&a), "passphrase / PIN");
    assert_eq!(masked(0), "");
    assert_eq!(masked(3), "•••");
    assert_eq!(masked(100).chars().count(), 48);
}

#[test]
fn texts_are_clipped() {
    let fits = |max: usize| move |s: &str| s.chars().count() <= max;
    assert_eq!(clip("héllo", &mut fits(5)).as_deref(), Some("héllo"));
    assert_eq!(clip("héllo", &mut fits(4)).as_deref(), Some("hél…"));
    assert_eq!(clip("héllo", &mut fits(2)).as_deref(), Some("h…"));
    assert_eq!(clip("héllo", &mut fits(1)), None);
    assert_eq!(clip("", &mut fits(0)).as_deref(), Some(""));
}

#[test]
fn report_lines() {
    assert_eq!(locked_line("a.vault", 5, 170, 1), "locked a.vault (5 -> 170 B, 1 keyslot)");
    assert_eq!(locked_line("b.vault", 0, 282, 2), "locked b.vault (0 -> 282 B, 2 keyslots)");
    let d = fp().dongle(Some(0)).unwrap();
    let other = fp().dongle(Some(1)).unwrap();
    let (h, _) = new_vault(&[SlotSpec::dongle(&d)], &mut os_rng).ok().unwrap();
    assert_eq!(
        unlocked_line(0, &h.slots[0], "a", 5),
        "unlocked with keyslot 0 (dongle TI · receiver only · 0 rec.) -> a (5 B)"
    );
    let failure = open_all(&h, &[SlotSpec::dongle(&other)]).err().unwrap();
    assert_eq!(slot_reason(&failure), "slot 0: wrong key: refused");
    assert_eq!(check_line("vault truncated"), "self-check failed (vault truncated), vault removed");
}

#[test]
fn private_card() {
    let named = |name: &str| {
        let mut f = fp();
        f.slots[0].name = name.into();
        f.slots[0].wpid = [9, 9];
        f.receiver_serial = vec![9; 4];
        f.nano_present = true;
        f.nano_serial = name.as_bytes().to_vec();
        refresh(Ok(f))
    };
    let (a, b) = (named("K1"), named("Alice · the · second"));
    assert_ne!(a.devices[0].label, b.devices[0].label);
    assert_ne!(a.nano, b.nano);
    for (d, e) in a.devices.iter().zip(&b.devices) {
        assert_eq!(
            chip_label(&d.label, d.record, d.slot, true),
            chip_label(&e.label, e.record, e.slot, true)
        );
    }
    assert_eq!((&a.name, &a.line, &a.detail), (&b.name, &b.line, &b.detail));
    assert_eq!(nano_line(&a.nano, true), "Nano C52F ········");
    assert_eq!(nano_line(&b.nano, true), "Nano C52F ········");
    assert_eq!(nano_line(&a.nano, false), a.nano.clone().unwrap());
    assert_eq!(nano_line(&None, true), "Nano absent");
    assert_eq!(nano_line(&None, false), "Nano absent");
    assert_eq!(shown_kid([1; 8], true), [0x55; 8]);
    assert_eq!(shown_kid([1; 8], false), [1; 8]);
}

#[test]
fn the_first_keyslot_that_fails_is_named() {
    let good = fp().dongle(Some(0)).unwrap();
    let other = fp().dongle(Some(1)).unwrap();
    let specs = |right: usize| -> Vec<SlotSpec> {
        (0..3).map(|i| SlotSpec::dongle(if i < right { &good } else { &other })).collect()
    };
    let (h, _) = new_vault(&specs(3), &mut os_rng).ok().unwrap();
    assert!(open_all(&h, &specs(3)).is_ok());
    assert_eq!(open_all(&h, &specs(1)).err().unwrap().slot, 1);
    assert_eq!(open_all(&h, &specs(2)).err().unwrap().slot, 2);
}

#[test]
fn private_log() {
    let said = "12:00:00  slot 0: dongle TI kid 0123456789ABCDEF expected, got FEDCBA9876543210 (device re-paired?)";
    assert_eq!(log_text(said, false), said);
    assert_eq!(
        log_text(said, true),
        "12:00:00  slot 0: dongle TI kid ················ expected, got ················ (device re-paired?)"
    );
    assert_eq!(log_text("locked é (12345678 -> 12345694 B)", true), "locked é (12345678 -> 12345694 B)");
    assert_eq!(log_text("0123456789ABCDEF0", true), "·".repeat(17));
    assert_eq!(log_text("0123456789ABCDE", true), "0123456789ABCDE");
    assert_eq!(log_text("", true), "");
}

#[test]
fn new_window() {
    let a = App::new();
    assert_eq!(a.hover, (-1, -1));
    assert!(a.busy && a.status.detail.is_empty());
}
