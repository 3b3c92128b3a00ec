//! Vault path conventions, the naming of temporary files, and hashing on the way.
//!
//! `lock` appends `.vault` (so `a.tar.gz` -> `a.tar.gz.vault`); `unlock` strips it and falls back to
//! `.open` when the plaintext still sits next to the vault. A path is the bytes of its name: a name
//! that is not UTF-8 comes back as it was.

use crate::bytes;
use crate::text;
use crate::vault::crypto;
use crate::vault::stream::{ReadEvent, SliceSource};
use sha2::Sha256;
use vstd::prelude::*;
use vstd::slice::*;
use vstd::string::*;

verus! {

pub const VAULT_EXT: &'static str = ".vault";

/// The path of the vault of a file.
pub open spec fn vault_of(src: Seq<u8>) -> Seq<u8> {
    src + ".vault".spec_bytes()
}

/// The path without the extension of a vault, if it has it.
pub open spec fn without_ext(vault: Seq<u8>) -> Option<Seq<u8>> {
    let n = vault.len() - ".vault".spec_bytes().len();
    if n >= 0 && vault.skip(n) == ".vault".spec_bytes() {
        Some(vault.take(n))
    } else {
        None
    }
}

/// The path that a vault is opened to, where `taken` tells whether the plain path is in use.
pub open spec fn plain_of(vault: Seq<u8>, taken: bool) -> Seq<u8> {
    match without_ext(vault) {
        Some(p) => if taken {
            p + ".open".spec_bytes()
        } else {
            p
        },
        None => vault + ".open".spec_bytes(),
    }
}

/// Opening the vault of a file leads back to the file, byte for byte, or beside it where the file
/// is still there.
pub proof fn law_paths_round_trip(src: Seq<u8>, taken: bool)
    ensures
        plain_of(vault_of(src), taken) == if taken {
            src + ".open".spec_bytes()
        } else {
            src
        },
{
    let v = vault_of(src);
    let n = v.len() - ".vault".spec_bytes().len();
    assert(v.skip(n) =~= ".vault".spec_bytes());
    assert(v.take(n) =~= src);
}

/// A path without the extension of a vault is opened beside it, whatever exists.
pub proof fn law_other_path_opens_beside(path: Seq<u8>, taken: bool)
    requires
        forall|src: Seq<u8>| path != #[trigger] vault_of(src),
    ensures
        plain_of(path, taken) == path + ".open".spec_bytes(),
{
    if let Some(src) = without_ext(path) {
        assert(vault_of(src) =~= path);
    }
}

/// The vault of a file is named after it, with `.vault` behind.
pub proof fn law_vault_name(src: Seq<u8>)
    ensures
        vault_of(src) == src + ".vault".spec_bytes(),
        without_ext(vault_of(src)) == Some(src),
{
    let v = vault_of(src);
    let n = v.len() - ".vault".spec_bytes().len();
    assert(v.skip(n) =~= ".vault".spec_bytes());
    assert(v.take(n) =~= src);
}

/// `a` and behind it the bytes of `b`.
fn glued(a: &[u8], b: &str) -> (p: Vec<u8>)
    ensures
        p@ == a@ + b.spec_bytes(),
{
    let mut p: Vec<u8> = bytes::to_vec(a);
    bytes::append(&mut p, b.as_bytes());
    p
}

/// The path of the vault of a file.
pub fn vault_path(src: &[u8]) -> (p: Vec<u8>)
    ensures
        p@ == vault_of(src@),
{
    glued(src, ".vault")
}

/// The path without the extension of a vault, if it has it.
pub fn stripped(vault: &[u8]) -> (p: Option<Vec<u8>>)
    ensures
        match p {
            Some(p) => without_ext(vault@) == Some(p@),
            None => without_ext(vault@) is None,
        },
{
    let len: usize = vault.len();
    let ext: usize = ".vault".as_bytes().len();
    if len < ext {
        return None;
    }
    assert(vault@.skip(len - ext) =~= vault@.subrange(len - ext, len as int));
    assert(vault@.take(len - ext) =~= vault@.subrange(0, len - ext));
    if bytes::same(slice_subrange(vault, len - ext, len), ".vault".as_bytes()) {
        Some(bytes::to_vec(slice_subrange(vault, 0, len - ext)))
    } else {
        None
    }
}

/// The path that a vault is opened to. `taken` tells whether the path without the extension exists.
pub fn open_path(vault: &[u8], taken: bool) -> (p: Vec<u8>)
    ensures
        p@ == plain_of(vault@, taken),
{
    match stripped(vault) {
        Some(p) => {
            if taken {
                glued(p.as_slice(), ".open")
            } else {
                p
            }
        },
        None => glued(vault, ".open"),
    }
}

/// Whether a destination may be written, or why not. `shown` is its path.
pub fn may_create(exists: bool, force: bool, shown: &str) -> (r: Result<(), String>)
    ensures
        r is Ok <==> force || !exists,
        r matches Err(why) ==> why@ == shown@ + " exists (use --force or --out)"@,
{
    if exists && !force {
        Err(text::glue(shown, " exists (use --force or --out)"))
    } else {
        Ok(())
    }
}

/// The name of the temporary sibling of a destination named `base`, for process `pid`.
pub fn temp_name(base: &str, pid: u32) -> (s: String)
    ensures
        s@ == "."@ + base@ + ".uniseal-"@ + text::decimal_text(pid as nat) + ".tmp"@,
{
    let mut s: String = text::glue(".", base);
    s.append(".uniseal-");
    s.append(text::decimal(pid as u64).as_str());
    s.append(".tmp");
    s
}

/// Takes in bytes piece by piece for a SHA-256 digest.
pub struct Hasher {
    pub inner: Sha256,
}

impl View for Hasher {
    type V = Seq<u8>;

    open spec fn view(&self) -> Seq<u8> {
        crypto::hashed(self.inner)
    }
}

impl Hasher {
    pub fn new() -> (h: Hasher)
        ensures
            h@ == Seq::<u8>::empty(),
    {
        Hasher { inner: crypto::sha256_new() }
    }

    pub fn update(&mut self, data: &[u8])
        ensures
            final(self)@ == old(self)@ + data@,
    {
        crypto::sha256_update(&mut self.inner, data)
    }

    pub fn digest(self) -> (d: [u8; 32])
        ensures
            d@ == crypto::sha256_output(self@),
    {
        crypto::sha256_finalize(self.inner)
    }
}

/// Read-through SHA-256, to fingerprint a plaintext while it is encrypted.
pub struct HashReader<'a> {
    pub inner: SliceSource<'a>,
    pub hasher: Hasher,
}

impl<'a> HashReader<'a> {
    pub fn new(inner: SliceSource<'a>) -> (h: HashReader<'a>)
        ensures
            h.inner == inner,
            h.hasher@ == Seq::<u8>::empty(),
    {
        HashReader { inner, hasher: Hasher::new() }
    }

    /// Reads from the stream inside, and takes in what was read.
    pub fn read(&mut self, max: usize) -> (ev: ReadEvent)
        requires
            old(self).inner.wf(),
        ensures
            final(self).inner.wf(),
            ev is Got,
            ev.data().len() == if old(self).inner.rest().len() < max {
                old(self).inner.rest().len()
            } else {
                max as nat
            },
            old(self).inner.rest() == ev.data() + final(self).inner.rest(),
            final(self).hasher@ == old(self).hasher@ + ev.data(),
    {
        let ev: ReadEvent = self.inner.read(max);
        if let ReadEvent::Got(b) = &ev {
            self.hasher.update(b.as_slice());
        }
        ev
    }

    /// The digest of what was read.
    pub fn digest(self) -> (d: [u8; 32])
        ensures
            d@ == crypto::sha256_output(self.hasher@),
    {
        self.hasher.digest()
    }
}

/// Write sink that only keeps a SHA-256, to verify a vault without materialising the plaintext.
pub struct HashSink {
    pub hasher: Hasher,
}

impl Default for HashSink {
    fn default() -> (s: Self)
        ensures
            s.hasher@ == Seq::<u8>::empty(),
    {
        HashSink { hasher: Hasher::new() }
    }
}

impl HashSink {
    pub fn write(&mut self, data: &[u8])
        ensures
            final(self).hasher@ == old(self).hasher@ + data@,
    {
        self.hasher.update(data)
    }

    /// The digest of what was written.
    pub fn digest(self) -> (d: [u8; 32])
        ensures
            d@ == crypto::sha256_output(self.hasher@),
    {
        self.hasher.digest()
    }
}

} // verus!
