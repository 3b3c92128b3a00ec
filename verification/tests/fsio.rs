use sha2::{Digest, Sha256};
use uniseal::fsio::{
    may_create, open_path, stripped, temp_name, vault_path, HashReader, HashSink, Hasher, VAULT_EXT,
};
use uniseal::vault::stream::{ReadEvent, SliceSource};

#[test]
fn paths() {
    assert_eq!(vault_path(b"a.tar.gz"), b"a.tar.gz.vault");
    assert_eq!(open_path(b"/nonexistent/dir/a.tar.gz.vault", false), b"/nonexistent/dir/a.tar.gz");
    assert_eq!(open_path(b"/nonexistent/dir/blob", false), b"/nonexistent/dir/blob.open");
}

#[test]
fn taken_paths() {
    assert_eq!(open_path(b"a.vault", true), b"a.open");
    assert_eq!(open_path(b"blob", true), b"blob.open");
    assert_eq!(open_path(b".vault", false), b"");
    assert_eq!(open_path("é.vault".as_bytes(), false), "é".as_bytes());
    assert_eq!(open_path(b"vault", false), b"vault.open");
    assert_eq!(open_path(b"a.vaultx", false), b"a.vaultx.open");
    assert_eq!(stripped(b"x.vault.vault"), Some(b"x.vault".to_vec()));
    assert_eq!(stripped(b"x"), None);
    assert_eq!(VAULT_EXT, ".vault");
    for p in [&b""[..], b"a", b"b/c.vault", b".vault", b"not \xFF\xFE utf-8"] {
        assert_eq!(open_path(&vault_path(p), false), p);
        assert_eq!(open_path(&vault_path(p), true), [p, b".open"].concat());
    }
}

#[test]
fn destinations() {
    assert_eq!(may_create(false, false, "d"), Ok(()));
    assert_eq!(may_create(true, true, "d"), Ok(()));
    assert_eq!(may_create(true, false, "d"), Err("d exists (use --force or --out)".into()));
    assert_eq!(temp_name("a.vault", 4021), ".a.vault.uniseal-4021.tmp");
}

#[test]
fn hashing() {
    let mut r = HashReader::new(SliceSource::new(&b"hello"[..]));
    let mut sink = HashSink::default();
    loop {
        match r.read(2) {
            ReadEvent::Got(b) if b.is_empty() => break,
            ReadEvent::Got(b) => sink.write(b.as_slice()),
            _ => unreachable!(),
        }
    }
    assert_eq!(r.digest(), sink.digest());
}

#[test]
fn digests_are_those_of_sha256() {
    let mut h = Hasher::new();
    h.update(b"he");
    h.update(b"llo");
    let want: [u8; 32] = Sha256::digest(b"hello").into();
    assert_eq!(h.digest(), want);
    assert_eq!(&want[..4], &[0x2C, 0xF2, 0x4D, 0xBA]);
    let empty: [u8; 32] = Sha256::digest(b"").into();
    assert_eq!(HashSink::default().digest(), empty);
}
