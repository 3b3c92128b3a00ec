use uniseal::hid::{
    d4read, is_vendor, long_get, short_get, Exchange, Query, Reply, LOGITECH_VID, NANO_PID, TI_PID,
    VENDOR_PAGE,
};

fn frame(start: &[u8]) -> Option<[u8; 64]> {
    let mut f = [0u8; 64];
    for (i, b) in f.iter_mut().enumerate() {
        *b = i as u8;
    }
    f[..start.len()].copy_from_slice(start);
    Some(f)
}

fn run(mut x: Exchange, frames: &[Option<[u8; 64]>]) -> (Reply<Vec<u8>>, usize) {
    assert!(x.sent(true).is_none());
    for (i, f) in frames.iter().enumerate() {
        if let Some(r) = x.received(*f) {
            return (r, i + 1);
        }
    }
    panic!("another frame is wanted");
}

#[test]
fn requests() {
    assert_eq!(short_get(0xF1, 0x02).query.request(), [0x10, 0xFF, 0x81, 0xF1, 0x02, 0, 0]);
    assert_eq!(long_get(0xB5, 0x03).query.request(), [0x10, 0xFF, 0x83, 0xB5, 0x03, 0, 0]);
    assert_eq!(d4read(0xE412).query.request(), [0x10, 0xFF, 0x81, 0xD4, 0x12, 0xE4, 0]);
}

#[test]
fn answers() {
    let f = frame(&[0x10, 0xFF, 0x81, 0xF1]);
    assert_eq!(run(short_get(0xF1, 1), &[f]), (Reply::Data(vec![4, 5, 6]), 1));
    let f = frame(&[0x10, 0xFF, 0x81, 0xD4]);
    assert_eq!(run(d4read(0), &[f]), (Reply::Data(vec![6]), 1));
    let f = frame(&[0x11, 0xFF, 0x83, 0xB5, 0x21]);
    assert_eq!(run(long_get(0xB5, 0x21), &[f]), (Reply::Data((5..20).collect()), 1));
    let f = frame(&[0x10, 0xFF, 0x8F, 0x83, 0xB5]);
    assert_eq!(run(long_get(0xB5, 0x21), &[f]), (Reply::Refused, 1));
}

#[test]
fn unrelated_frames_are_skipped() {
    let right = frame(&[0x11, 0xFF, 0x83, 0xB5, 0x21]);
    let others = [
        frame(&[0x11, 0x01, 0x83, 0xB5, 0x21]),
        frame(&[0x11, 0xFF, 0x83, 0xB5, 0x20]),
        frame(&[0x10, 0xFF, 0x83, 0xB5, 0x21]),
        frame(&[0x11, 0xFF, 0x81, 0xB5, 0x21]),
        frame(&[0x11, 0xFF, 0x83, 0xB4, 0x21]),
        frame(&[0x10, 0xFF, 0x8F, 0x83, 0xB4]),
        frame(&[0x10, 0xFF, 0x8F, 0x81, 0xB5]),
    ];
    let mut all = others.to_vec();
    all.push(right);
    let (r, n) = run(long_get(0xB5, 0x21), &all);
    assert_eq!((r.data().map(|d| d.len()), n), (Some(15), 8));
    // Eight unrelated frames are too many.
    let mut all = others.to_vec();
    all.push(others[0]);
    all.push(right);
    assert_eq!(run(long_get(0xB5, 0x21), &all), (Reply::Silent, 8));
    assert_eq!(run(long_get(0xB5, 0x21), &[others[0], None, right]), (Reply::Silent, 2));
}

#[test]
fn unsent_requests_are_silent() {
    let x = short_get(0xF1, 1);
    assert_eq!(x.sent(false), Some(Reply::Silent));
    assert_eq!(x.query, Query::Short { reg: 0xF1, p0: 1 });
}

#[test]
fn replies_hold_data() {
    assert_eq!(Reply::Data(3).data(), Some(3));
    assert_eq!(Reply::<u8>::Refused.data(), None);
    assert_eq!(Reply::<u8>::Silent.data(), None);
}

#[test]
fn vendor_collections() {
    assert!(is_vendor(LOGITECH_VID, TI_PID, VENDOR_PAGE, TI_PID));
    assert!(!is_vendor(LOGITECH_VID, TI_PID, VENDOR_PAGE, NANO_PID));
    assert!(!is_vendor(LOGITECH_VID, NANO_PID, 1, NANO_PID));
    assert!(!is_vendor(0x046E, NANO_PID, VENDOR_PAGE, NANO_PID));
    assert_eq!((LOGITECH_VID, TI_PID, NANO_PID), (0x046D, 0xC52B, 0xC52F));
}
