//! One keyslot: its layout, the wrapping of the file key, and the check against the receivers.

use crate::bytes;
use crate::text;
use crate::vault::crypto;
use crate::vault::error::{Error, ErrorView};
use crate::vault::kind::{argon_none, Argon, Dongle, Kind, SlotSpec, SpecView};
use crate::vault::label;
use crate::vault::rng;
use crate::vault::secret::{Key, Secret};
use vstd::prelude::*;
use vstd::string::*;

verus! {

/// The first eight bytes of a vault: `UNISEAL1`.
pub const MAGIC: [u8; 8] = [0x55, 0x4E, 0x49, 0x53, 0x45, 0x41, 0x4C, 0x31];

/// The first eight bytes of a vault, as a sequence.
#[verifier::opaque]
pub open spec fn magic() -> Seq<u8> {
    MAGIC@
}

pub proof fn lemma_magic_len()
    ensures
        magic().len() == 8,
{
    reveal(magic);
}

/// The first eight bytes of a vault.
pub(crate) fn magic_array() -> (m: [u8; 8])
    ensures
        m@ == magic(),
{
    reveal(magic);
    MAGIC
}

/// Bytes of a keyslot on disk.
pub const SLOT_LEN: usize = 112;

/// A keyslot.
#[derive(Clone, PartialEq, Eq, Debug)]
pub struct Slot {
    pub kind: Kind,
    pub dongles: u8,
    pub nkeys: u8,
    pub bind: u8,
    pub kid: [u8; 8],
    pub argon: Argon,
    pub salt: [u8; 16],
    pub nonce: [u8; 24],
    pub wrapped: [u8; 48],
}

/// A keyslot, with its byte fields as sequences.
pub struct SlotView {
    pub kind: Kind,
    pub dongles: u8,
    pub nkeys: u8,
    pub bind: u8,
    pub kid: Seq<u8>,
    pub argon: Argon,
    pub salt: Seq<u8>,
    pub nonce: Seq<u8>,
    pub wrapped: Seq<u8>,
}

impl View for Slot {
    type V = SlotView;

    open spec fn view(&self) -> SlotView {
        SlotView {
            kind: self.kind,
            dongles: self.dongles,
            nkeys: self.nkeys,
            bind: self.bind,
            kid: self.kid@,
            argon: self.argon,
            salt: self.salt@,
            nonce: self.nonce@,
            wrapped: self.wrapped@,
        }
    }
}

/// The public tag of fingerprint material.
pub open spec fn kid_of(material: Seq<u8>) -> Seq<u8> {
    crypto::hkdf_output(
        kid_salt(),
        material,
        "uniseal-kid".spec_bytes(),
        8,
    )
}

/// The key that wraps the file key: derived from the passphrase hash and behind it the material.
pub open spec fn kek_of(kind: Kind, salt: Seq<u8>, material: Seq<u8>, pass_hash: Seq<u8>) -> Seq<
    u8,
> {
    crypto::hkdf_output(salt, pass_hash + material, kek_info(kind), 32)
}

/// The info string of the key that wraps the file key.
pub open spec fn kek_info(kind: Kind) -> Seq<u8> {
    "uniseal-kek-v1".spec_bytes().push(kind.code())
}

/// The salt of the tag of fingerprint material.
pub open spec fn kid_salt() -> Seq<u8> {
    "uniseal-kid-v1".spec_bytes()
}

/// The tag of fingerprint material and the keys that wrap file keys are derived apart: none of the
/// keys has the salt or the info string of the tag, and those of different kinds have different
/// info strings.
pub proof fn law_derived_apart(a: Kind, b: Kind, s: SlotView)
    requires
        s.sized(),
    ensures
        s.salt != kid_salt(),
        kek_info(a) != "uniseal-kid".spec_bytes(),
        kek_info(a) == kek_info(b) ==> a == b,
{
    reveal_strlit("uniseal-kid-v1");
    reveal_strlit("uniseal-kid");
    reveal_strlit("uniseal-kek-v1");
    is_ascii_spec_bytes("uniseal-kid-v1");
    is_ascii_spec_bytes("uniseal-kid");
    is_ascii_spec_bytes("uniseal-kek-v1");
    assert(kek_info(a).last() == a.code());
    assert(kek_info(b).last() == b.code());
}

/// What a recipe lacks.
pub open spec fn recipe_fault(s: SpecView) -> Option<ErrorView> {
    if s.kind.wants_dongle() && s.dongle is None {
        Some(ErrorView::BadSpec("this keyslot kind needs dongle material"@))
    } else if s.kind.wants_dongle() && s.dongle->0.material.len() == 0 {
        Some(ErrorView::BadSpec("empty dongle material"@))
    } else if s.kind.wants_pass() && s.pass is None {
        Some(ErrorView::BadSpec("this keyslot kind needs a passphrase"@))
    } else if s.kind.wants_pass() && s.pass->0.len() == 0 {
        Some(ErrorView::BadSpec("empty passphrase"@))
    } else {
        None
    }
}

/// Whether hashing a passphrase can fail: a call of Argon2 on it, with this salt and these
/// parameters, can give nothing.
pub open spec fn argon_refused(pass: Seq<u8>, salt: Seq<u8>, a: Argon) -> bool {
    exists|p: &[u8], s: &[u8]|
        p@ == pass && s@ == salt && #[trigger] call_ensures(
            crypto::argon2id,
            (p, s, a.m_kib, a.t, a.p),
            None::<Vec<u8>>,
        )
}

/// Whether wrapping a file key by a recipe can end in `e`: the recipe lacks something, the source
/// of random bytes failed, or hashing the passphrase with the salt that was drawn did.
pub open spec fn wrap_fails<R: FnMut(&mut [u8]) -> Result<(), Error>>(
    rng: R,
    s: SpecView,
    e: Error,
) -> bool {
    match recipe_fault(s) {
        Some(fault) => e@ == fault,
        None => {
            ||| rng::refused(rng, 16, e)
            ||| rng::refused(rng, 24, e)
            ||| e == Error::Argon && s.kind.wants_pass() && exists|salt: Seq<u8>|
                rng::drawn::<16, R>(rng, salt) && #[trigger] argon_refused(
                    s.pass->0,
                    salt,
                    s.argon,
                )
        },
    }
}

impl SlotView {
    /// Every byte field has its size.
    pub open spec fn sized(self) -> bool {
        &&& self.kid.len() == 8
        &&& self.salt.len() == 16
        &&& self.nonce.len() == 24
        &&& self.wrapped.len() == 48
    }

    /// The 40 bytes before the nonce.
    pub open spec fn header(self) -> Seq<u8> {
        seq![self.kind.code(), self.dongles, self.nkeys, self.bind] + self.kid + self.salt
            + bytes::be32(self.argon.m_kib) + bytes::be32(self.argon.t) + bytes::be32(self.argon.p)
    }

    /// What the wrapped key is authenticated with.
    pub open spec fn aad(self) -> Seq<u8> {
        magic() + self.header()
    }

    /// The keyslot on disk.
    pub open spec fn bytes(self) -> Seq<u8> {
        self.header() + self.nonce + self.wrapped
    }

    /// The keyslot that 112 bytes spell, if the kind is known.
    pub open spec fn of_bytes(b: Seq<u8>) -> Option<SlotView> {
        match Kind::of_code(b[0]) {
            None => None,
            Some(kind) => Some(
                SlotView {
                    kind,
                    dongles: b[1],
                    nkeys: b[2],
                    bind: b[3],
                    kid: b.subrange(4, 12),
                    argon: Argon {
                        m_kib: bytes::be32_at(b, 28),
                        t: bytes::be32_at(b, 32),
                        p: bytes::be32_at(b, 36),
                    },
                    salt: b.subrange(12, 28),
                    nonce: b.subrange(40, 64),
                    wrapped: b.subrange(64, 112),
                },
            ),
        }
    }

    /// The keyslot of a recipe, before the file key is wrapped.
    pub open spec fn blank(s: SpecView, salt: Seq<u8>, nonce: Seq<u8>) -> SlotView {
        let with = s.kind.wants_dongle();
        SlotView {
            kind: s.kind,
            dongles: if with { s.dongle->0.dongles } else { 0 },
            nkeys: if with { s.dongle->0.nkeys } else { 0 },
            bind: if with { s.dongle->0.bind } else { 0 },
            kid: if with { kid_of(s.dongle->0.material) } else { bytes::zeros(8) },
            argon: if s.kind.wants_pass() { s.argon } else { argon_none() },
            salt,
            nonce,
            wrapped: Seq::empty(),
        }
    }

    /// The hash of a passphrase in this keyslot.
    pub open spec fn hash_of(self, pass: Option<Seq<u8>>) -> Option<Seq<u8>> {
        match pass {
            None => None,
            Some(pass) => Some(
                crypto::argon2id_output(
                    pass,
                    self.salt,
                    self.argon.m_kib,
                    self.argon.t,
                    self.argon.p,
                ),
            ),
        }
    }

    /// The key that wraps the file key in this keyslot, where the passphrase hashes to `hash`.
    pub open spec fn kek(self, material: Option<Seq<u8>>, hash: Option<Seq<u8>>) -> Seq<u8> {
        kek_of(
            self.kind,
            self.salt,
            if self.kind.wants_dongle() { material->0 } else { Seq::empty() },
            if self.kind.wants_pass() { hash->0 } else { Seq::empty() },
        )
    }

    /// The keyslot that wraps the file key `fk` by a recipe whose passphrase hashes to `hash`, with
    /// this salt and nonce.
    pub open spec fn wrapping_hashed(
        fk: Seq<u8>,
        s: SpecView,
        salt: Seq<u8>,
        nonce: Seq<u8>,
        hash: Option<Seq<u8>>,
    ) -> SlotView {
        let blank = SlotView::blank(s, salt, nonce);
        SlotView {
            wrapped: crypto::aead_seal(blank.kek(s.material(), hash), nonce, fk, blank.aad()),
            ..blank
        }
    }

    /// The keyslot that wraps the file key `fk` by a recipe, with this salt and nonce.
    pub open spec fn wrapping(
        fk: Seq<u8>,
        s: SpecView,
        salt: Seq<u8>,
        nonce: Seq<u8>,
    ) -> SlotView {
        SlotView::wrapping_hashed(
            fk,
            s,
            salt,
            nonce,
            SlotView::blank(s, salt, nonce).hash_of(s.pass),
        )
    }

    /// Whether the material and the passphrase that the kind asks for are there.
    pub open spec fn supplied(self, material: Option<Seq<u8>>, pass: Option<Seq<u8>>) -> bool {
        &&& self.kind.wants_dongle() ==> material is Some
        &&& self.kind.wants_pass() ==> pass is Some
    }

    /// The file key that the keyslot gives out where the passphrase hashes to `hash`, or why it
    /// refuses.
    pub open spec fn opens_hashed(
        self,
        material: Option<Seq<u8>>,
        hash: Option<Seq<u8>>,
    ) -> Result<Seq<u8>, ErrorView> {
        if self.kind.wants_dongle() && material is None {
            Err(ErrorView::BadSpec("keyslot needs dongle material"@))
        } else if self.kind.wants_pass() && hash is None {
            Err(ErrorView::BadSpec("keyslot needs a passphrase"@))
        } else {
            match crypto::aead_open(
                self.kek(material, hash),
                self.nonce,
                self.wrapped,
                self.aad(),
            ) {
                None => Err(ErrorView::WrongKey),
                Some(fk) => Ok(fk),
            }
        }
    }

    /// The file key that the keyslot gives out, or why it refuses.
    pub open spec fn opens(self, material: Option<Seq<u8>>, pass: Option<Seq<u8>>) -> Result<
        Seq<u8>,
        ErrorView,
    > {
        if self.kind.wants_pass() && self.supplied(material, pass) && !(crypto::argon2_accepts(
            self.argon.m_kib,
            self.argon.t,
            self.argon.p,
        ) && pass->0.len() <= crypto::argon2_max_pass()) {
            Err(ErrorView::Argon)
        } else {
            self.opens_hashed(material, self.hash_of(pass))
        }
    }

    /// Whether unwrapping can end in `r`: it gives what the keyslot opens to, except where hashing
    /// the passphrase failed.
    pub open spec fn yields(
        self,
        material: Option<Seq<u8>>,
        pass: Option<Seq<u8>>,
        r: Result<Seq<u8>, ErrorView>,
    ) -> bool {
        ||| r == self.opens(material, pass)
        ||| r == Err::<Seq<u8>, ErrorView>(ErrorView::Argon) && self.kind.wants_pass()
            && self.supplied(material, pass) && argon_refused(pass->0, self.salt, self.argon)
    }

    /// The material that a source offered for this keyslot, if its tag is the one recorded.
    pub open spec fn accepts(self, got: Result<Seq<u8>, Seq<char>>) -> Result<
        Option<Seq<u8>>,
        Seq<char>,
    > {
        match got {
            Err(why) => Err(why),
            Ok(m) => if kid_of(m) == self.kid {
                Ok(Some(m))
            } else {
                Err(
                    "dongle "@ + label::dongles_text(self.dongles) + " kid "@ + text::hex_text(
                        self.kid,
                    ) + " expected, got "@ + text::hex_text(kid_of(m)) + " (device re-paired?)"@,
                )
            },
        }
    }

    /// Why a keyslot that needs receivers cannot open without any.
    pub open spec fn none_readable(self) -> Seq<char> {
        "needs dongle "@ + label::dongles_text(self.dongles) + ", none readable"@
    }

    /// The part of the description that speaks of the receivers.
    pub open spec fn dongle_text(self) -> Seq<char> {
        "dongle "@ + label::dongles_text(self.dongles) + (if label::has_ti(self.dongles) {
            " · "@ + label::bind_text(self.bind)
        } else {
            Seq::empty()
        }) + " · "@ + text::decimal_text(self.nkeys as nat) + " rec."@
    }

    /// The part of the description that speaks of the passphrase.
    pub open spec fn pass_text(self) -> Seq<char> {
        "Argon2id "@ + text::decimal_text((self.argon.m_kib / 1024) as nat) + " MiB t="@
            + text::decimal_text(self.argon.t as nat)
    }

    /// The description of the keyslot.
    pub open spec fn description(self) -> Seq<char> {
        match self.kind {
            Kind::Dongle => self.dongle_text(),
            Kind::Pass => "passphrase ("@ + self.pass_text() + ")"@,
            Kind::DonglePass => self.dongle_text() + " + PIN ("@ + self.pass_text() + ")"@,
        }
    }
}

/// What a source of material answered, with bytes and texts as sequences.
pub open spec fn answered(r: Result<Secret, String>) -> Result<Seq<u8>, Seq<char>> {
    match r {
        Ok(m) => Ok(m@),
        Err(w) => Err(w@),
    }
}

/// What a check against the receivers returned, with bytes and texts as sequences.
pub open spec fn checked(r: Result<Option<Secret>, String>) -> Result<Option<Seq<u8>>, Seq<char>> {
    match r {
        Ok(Some(m)) => Ok(Some(m@)),
        Ok(None) => Ok(None),
        Err(w) => Err(w@),
    }
}

/// What unwrapping returned, with the key as a byte sequence.
pub open spec fn unwrapped(r: Result<Key, Error>) -> Result<Seq<u8>, ErrorView> {
    match r {
        Ok(k) => Ok(k@),
        Err(e) => Err(e@),
    }
}

/// Whether checking a keyslot against a source of material can end in `c`.
pub open spec fn checks_to<D: DongleSource + ?Sized>(
    s: SlotView,
    src: Option<&D>,
    c: Result<Option<Seq<u8>>, Seq<char>>,
) -> bool {
    if !s.kind.wants_dongle() {
        c == Ok::<Option<Seq<u8>>, Seq<char>>(None)
    } else {
        match src {
            None => c == Err::<Option<Seq<u8>>, Seq<char>>(s.none_readable()),
            Some(d) => exists|got: Result<Secret, String>|
                c == s.accepts(answered(got)) && #[trigger] call_ensures(
                    D::material,
                    (d, s.dongles, s.bind),
                    got,
                ),
        }
    }
}

/// A keyslot opens by what its kind asks for, and by that alone: a recovery slot opens without any
/// dongle, a possession-only slot without a passphrase, and a slot with two factors gives nothing
/// out for one of them.
pub proof fn law_kind_decides(
    v: SlotView,
    material: Option<Seq<u8>>,
    pass: Option<Seq<u8>>,
)
    ensures
        v.kind == Kind::Pass ==> v.opens(material, pass) == v.opens(None, pass),
        v.kind == Kind::Dongle ==> v.opens(material, pass) == v.opens(material, None),
        v.kind.wants_dongle() ==> v.opens(None, pass) is Err,
        v.kind.wants_pass() ==> v.opens(material, None) is Err,
{
}

/// Wrapping and unwrapping gives the key back: a keyslot that wraps `fk` by a recipe gives out `fk`
/// for the factors of the recipe that its kind asks for, whatever else is handed in. Only where
/// hashing the passphrase fails does it end in an error, and in no other.
pub proof fn law_wrapped_key_returns(
    s: SlotView,
    spec: SpecView,
    fk: Seq<u8>,
    material: Option<Seq<u8>>,
    pass: Option<Seq<u8>>,
    r: Result<Seq<u8>, ErrorView>,
)
    requires
        recipe_fault(spec) is None,
        s == SlotView::wrapping(fk, spec, s.salt, s.nonce),
        s.opens(spec.material(), spec.pass) == Ok::<Seq<u8>, ErrorView>(fk),
        s.kind.wants_dongle() ==> material == spec.material(),
        s.kind.wants_pass() ==> pass == spec.pass,
        s.yields(material, pass, r),
    ensures
        r == Ok::<Seq<u8>, ErrorView>(fk) || r == Err::<Seq<u8>, ErrorView>(ErrorView::Argon)
            && s.kind.wants_pass() && argon_refused(spec.pass->0, s.salt, spec.argon),
{
    assert(s.opens(material, pass) == s.opens(spec.material(), spec.pass));
}

/// Every byte of a keyslot counts: where the cipher accepts, under the key that a keyslot `t`
/// derives, nothing but what the keyslot `s` holds, a `t` that differs from `s` in any field gives
/// nothing out.
pub proof fn law_changed_slot_refused(
    s: SlotView,
    t: SlotView,
    material: Option<Seq<u8>>,
    pass: Option<Seq<u8>>,
    r: Result<Seq<u8>, ErrorView>,
)
    requires
        s.sized(),
        t.sized(),
        t != s,
        forall|nonce: Seq<u8>, ct: Seq<u8>, aad: Seq<u8>| #[trigger]
            crypto::aead_open(t.kek(material, t.hash_of(pass)), nonce, ct, aad) is Some ==> nonce
                == s.nonce && ct == s.wrapped && aad == s.aad(),
        t.yields(material, pass, r),
    ensures
        t.opens(material, pass) is Err,
        r is Err,
{
    if t.opens(material, pass) is Ok {
        assert(crypto::aead_open(
            t.kek(material, t.hash_of(pass)),
            t.nonce,
            t.wrapped,
            t.aad(),
        ) is Some);
        assert(t.aad().skip(magic().len() as int) =~= t.header());
        assert(s.aad().skip(magic().len() as int) =~= s.header());
        law_slot_round_trip(s);
        law_slot_round_trip(t);
        assert(s.bytes() == t.bytes());
    }
}

/// Writing a keyslot and reading it gives the keyslot back.
pub proof fn law_slot_round_trip(v: SlotView)
    requires
        v.sized(),
    ensures
        v.bytes().len() == SLOT_LEN,
        SlotView::of_bytes(v.bytes()) == Some(v),
{
    let b = v.bytes();
    let a = v.argon;
    assert(b.subrange(28, 32) =~= bytes::be32(a.m_kib));
    assert(b.subrange(32, 36) =~= bytes::be32(a.t));
    assert(b.subrange(36, 40) =~= bytes::be32(a.p));
    bytes::lemma_be32_round_trip(a.m_kib, b, 28);
    bytes::lemma_be32_round_trip(a.t, b, 32);
    bytes::lemma_be32_round_trip(a.p, b, 36);
    assert(b.subrange(4, 12) =~= v.kid);
    assert(b.subrange(12, 28) =~= v.salt);
    assert(b.subrange(40, 64) =~= v.nonce);
    assert(b.subrange(64, 112) =~= v.wrapped);
}

/// A keyslot that was read from 112 bytes is written as those bytes.
pub proof fn law_slot_bytes(b: Seq<u8>)
    requires
        b.len() == SLOT_LEN,
    ensures
        SlotView::of_bytes(b) matches Some(v) ==> v.sized() && v.bytes() == b,
{
    if let Some(v) = SlotView::of_bytes(b) {
        bytes::lemma_be32_bytes(b, 28);
        bytes::lemma_be32_bytes(b, 32);
        bytes::lemma_be32_bytes(b, 36);
        assert(v.bytes() =~= b) by {
            assert(v.header() =~= b.subrange(0, 40)) by {
                assert forall|i: int| 0 <= i < 40 implies v.header()[i] == b[i] by {
                    if 28 <= i < 32 {
                        assert(b.subrange(28, 32)[i - 28] == b[i]);
                    } else if 32 <= i < 36 {
                        assert(b.subrange(32, 36)[i - 32] == b[i]);
                    } else if 36 <= i {
                        assert(b.subrange(36, 40)[i - 36] == b[i]);
                    }
                }
            }
        }
    }
}

/// Whatever can produce fingerprint material for a requested binding: the live receivers, or a
/// stand-in.
pub trait DongleSource {
    /// Receivers currently readable (`DONGLE_*` mask).
    fn plugged(&self) -> u8;

    /// Material for `dongles` bound to receiver slots `bind`, or why not.
    fn material(&self, dongles: u8, bind: u8) -> Result<Secret, String>;
}

/// Public one-way tag of a fingerprint (separate salt and info from the KEK).
pub fn kid(material: &[u8]) -> (k: [u8; 8])
    ensures
        k@ == kid_of(material@),
{
    let out: Vec<u8> = crypto::hkdf_sha256(
        "uniseal-kid-v1".as_bytes(),
        material,
        "uniseal-kid".as_bytes(),
        8,
    );
    let k: [u8; 8] = bytes::field::<8>(out.as_slice(), 0);
    assert(out@.subrange(0, 8) =~= out@);
    k
}

/// The bytes of an optional byte string, none if it is absent.
pub open spec fn or_empty(b: Option<Seq<u8>>) -> Seq<u8> {
    match b {
        Some(b) => b,
        None => Seq::empty(),
    }
}

/// The bytes of an optional slice.
pub open spec fn opt_bytes(b: Option<&[u8]>) -> Option<Seq<u8>> {
    match b {
        Some(b) => Some(b@),
        None => None,
    }
}

fn kek(kind: Kind, salt: &[u8; 16], material: Option<&[u8]>, pass_hash: Option<&[u8]>) -> (k: Key)
    ensures
        k@ == kek_of(kind, salt@, or_empty(opt_bytes(material)), or_empty(opt_bytes(pass_hash))),
        k@.len() == 32,
{
    let mut ikm: Secret = Secret::new(Vec::new());
    if let Some(p) = pass_hash {
        ikm.extend(p);
    }
    if let Some(m) = material {
        ikm.extend(m);
    }
    assert(ikm@ =~= or_empty(opt_bytes(pass_hash)) + or_empty(opt_bytes(material)));
    let mut info: Vec<u8> = bytes::to_vec("uniseal-kek-v1".as_bytes());
    info.push(kind.to_u8());
    let out: Secret = Secret::new(
        crypto::hkdf_sha256(salt.as_slice(), ikm.as_slice(), info.as_slice(), 32),
    );
    Key::holding(out)
}

/// Hashes a passphrase with `hash`.
fn hash_with<H: Fn(&[u8], &[u8], u32, u32, u32) -> Option<Vec<u8>>>(
    hash: H,
    pass: &[u8],
    salt: &[u8],
    a: Argon,
) -> (out: Option<Vec<u8>>)
    requires
        call_requires(hash, (pass, salt, a.m_kib, a.t, a.p)),
    ensures
        call_ensures(hash, (pass, salt, a.m_kib, a.t, a.p), out),
{
    hash(pass, salt, a.m_kib, a.t, a.p)
}

fn argon(pass: &[u8], salt: &[u8; 16], a: Argon) -> (r: Result<Secret, Error>)
    ensures
        r matches Ok(h) ==> {
            &&& crypto::argon2_accepts(a.m_kib, a.t, a.p)
            &&& pass@.len() <= crypto::argon2_max_pass()
            &&& h@ == crypto::argon2id_output(pass@, salt@, a.m_kib, a.t, a.p)
        },
        r matches Err(e) ==> e == Error::Argon && argon_refused(pass@, salt@, a),
{
    match hash_with(crypto::argon2id, pass, salt.as_slice(), a) {
        Some(h) => Ok(Secret::new(h)),
        None => Err(Error::Argon),
    }
}

impl Slot {
    fn header(&self) -> (h: Vec<u8>)
        ensures
            h@ == self@.header(),
    {
        let mut h: Vec<u8> = Vec::new();
        h.push(self.kind.to_u8());
        h.push(self.dongles);
        h.push(self.nkeys);
        h.push(self.bind);
        assert(h@ =~= seq![self.kind.code(), self.dongles, self.nkeys, self.bind]);
        bytes::append(&mut h, self.kid.as_slice());
        bytes::append(&mut h, self.salt.as_slice());
        bytes::push_be32(&mut h, self.argon.m_kib);
        bytes::push_be32(&mut h, self.argon.t);
        bytes::push_be32(&mut h, self.argon.p);
        h
    }

    fn aad(&self) -> (a: Vec<u8>)
        ensures
            a@ == self@.aad(),
    {
        let start: [u8; 8] = magic_array();
        let mut a: Vec<u8> = bytes::to_vec(start.as_slice());
        bytes::append(&mut a, self.header().as_slice());
        a
    }

    /// Appends the keyslot as it stands on disk.
    pub(crate) fn write(&self, out: &mut Vec<u8>)
        ensures
            final(out)@ == old(out)@ + self@.bytes(),
    {
        bytes::append(out, self.header().as_slice());
        bytes::append(out, self.nonce.as_slice());
        bytes::append(out, self.wrapped.as_slice());
        assert(out@ =~= old(out)@ + self@.bytes());
    }

    /// Reads a keyslot from its bytes.
    pub(crate) fn read(b: &[u8]) -> (r: Result<Slot, Error>)
        requires
            b@.len() == SLOT_LEN,
        ensures
            r matches Ok(s) ==> SlotView::of_bytes(b@) == Some(s@),
            r matches Err(e) ==> SlotView::of_bytes(b@) is None && e@ == ErrorView::Corrupt(
                "unknown keyslot kind"@,
            ),
    {
        match Kind::from_u8(b[0]) {
            None => Err(Error::Corrupt(text::owned("unknown keyslot kind"))),
            Some(kind) => Ok(
                Slot {
                    kind,
                    dongles: b[1],
                    nkeys: b[2],
                    bind: b[3],
                    kid: bytes::field::<8>(b, 4),
                    argon: Argon {
                        m_kib: bytes::read_be32(b, 28),
                        t: bytes::read_be32(b, 32),
                        p: bytes::read_be32(b, 36),
                    },
                    salt: bytes::field::<16>(b, 12),
                    nonce: bytes::field::<24>(b, 40),
                    wrapped: bytes::field::<48>(b, 64),
                },
            ),
        }
    }

    pub fn needs_dongle(&self) -> (r: bool)
        ensures
            r == self@.kind.wants_dongle(),
    {
        self.kind.needs_dongle()
    }

    pub fn needs_pass(&self) -> (r: bool)
        ensures
            r == self@.kind.wants_pass(),
    {
        self.kind.needs_pass()
    }

    fn describe_dongle(&self) -> (s: String)
        ensures
            s@ == self@.dongle_text(),
    {
        let mut s: String = text::glue("dongle ", label::dongles_label(self.dongles).as_str());
        if self.dongles & label::DONGLE_TI != 0 {
            s.append(" · ");
            s.append(label::bind_label(self.bind).as_str());
        }
        s.append(" · ");
        s.append(text::decimal(self.nkeys as u64).as_str());
        s.append(" rec.");
        assert(s@ =~= self@.dongle_text());
        s
    }

    fn describe_pass(&self) -> (s: String)
        ensures
            s@ == self@.pass_text(),
    {
        let mut s: String = text::glue(
            "Argon2id ",
            text::decimal((self.argon.m_kib / 1024) as u64).as_str(),
        );
        s.append(" MiB t=");
        s.append(text::decimal(self.argon.t as u64).as_str());
        s
    }

    /// One line about the keyslot.
    pub fn describe(&self) -> (s: String)
        ensures
            s@ == self@.description(),
    {
        match self.kind {
            Kind::Dongle => self.describe_dongle(),
            Kind::Pass => {
                let mut s: String = text::glue("passphrase (", self.describe_pass().as_str());
                s.append(")");
                s
            },
            Kind::DonglePass => {
                let mut s: String = self.describe_dongle();
                s.append(" + PIN (");
                s.append(self.describe_pass().as_str());
                s.append(")");
                s
            },
        }
    }

    /// Judges the material that a source gave for this keyslot by its tag.
    pub fn judge_material(&self, got: Result<Secret, String>) -> (r: Result<Option<Secret>, String>)
        ensures
            checked(r) == self@.accepts(answered(got)),
            match (got, r) {
                (Ok(m), Ok(Some(given))) => kid_of(m@) == self.kid@ && given@ == m@,
                (Ok(m), Err(_)) => kid_of(m@) != self.kid@,
                (Err(why), Err(said)) => said@ == why@,
                _ => false,
            },
    {
        match got {
            Err(why) => Err(why),
            Ok(m) => {
                let tag: [u8; 8] = kid(m.as_slice());
                if bytes::same(tag.as_slice(), self.kid.as_slice()) {
                    Ok(Some(m))
                } else {
                    let mut s: String = text::glue(
                        "dongle ",
                        label::dongles_label(self.dongles).as_str(),
                    );
                    s.append(" kid ");
                    s.append(text::hex(self.kid.as_slice()).as_str());
                    s.append(" expected, got ");
                    s.append(text::hex(tag.as_slice()).as_str());
                    s.append(" (device re-paired?)");
                    Err(s)
                }
            },
        }
    }

    /// Material the plugged receivers give for this slot, or why they cannot.
    pub fn check_dongle<D: DongleSource + ?Sized>(&self, src: Option<&D>) -> (r: Result<
        Option<Secret>,
        String,
    >)
        ensures
            checks_to::<D>(self@, src, checked(r)),
    {
        if !self.needs_dongle() {
            return Ok(None);
        }
        match src {
            None => {
                let mut s: String = text::glue(
                    "needs dongle ",
                    label::dongles_label(self.dongles).as_str(),
                );
                s.append(", none readable");
                Err(s)
            },
            Some(d) => self.judge_material(d.material(self.dongles, self.bind)),
        }
    }

    /// Wraps the file key by a recipe, with a given salt and nonce.
    ///
    /// Argon2 can fail for want of memory, so a passphrase slot whose parameters are in order can
    /// still end in `Error::Argon`, but only where the call itself failed.
    pub fn wrap_with(fk: &Key, spec: &SlotSpec, salt: [u8; 16], nonce: [u8; 24]) -> (r: Result<
        Slot,
        Error,
    >)
        ensures
            recipe_fault(spec@) matches Some(fault) ==> (r matches Err(e) && e@ == fault),
            recipe_fault(spec@) is None ==> match r {
                Ok(s) => {
                    &&& s@ == SlotView::wrapping(fk@, spec@, salt@, nonce@)
                    &&& s@.opens(spec@.material(), spec@.pass) == Ok::<Seq<u8>, ErrorView>(fk@)
                },
                Err(e) => {
                    &&& e == Error::Argon
                    &&& spec@.kind.wants_pass()
                    &&& argon_refused(spec@.pass->0, salt@, spec@.argon)
                },
            },
            recipe_fault(spec@) is None && spec@.kind.wants_pass() && !crypto::argon2_accepts(
                spec@.argon.m_kib,
                spec@.argon.t,
                spec@.argon.p,
            ) ==> r is Err,
    {
        let pass: Option<&[u8]> = match Slot::ingredients(spec) {
            Ok((_, pass)) => pass,
            Err(e) => return Err(e),
        };
        let hash: Option<Secret> = match pass {
            Some(p) => match argon(p, &salt, spec.argon) {
                Ok(h) => Some(h),
                Err(e) => return Err(e),
            },
            None => None,
        };
        let h: Option<&[u8]> = match &hash {
            Some(h) => Some(h.as_slice()),
            None => None,
        };
        Slot::wrap_hashed(fk, spec, salt, nonce, h)
    }

    /// Wraps the file key by a recipe whose passphrase hashes to `hash`, with a given salt and
    /// nonce.
    pub fn wrap_hashed(
        fk: &Key,
        spec: &SlotSpec,
        salt: [u8; 16],
        nonce: [u8; 24],
        hash: Option<&[u8]>,
    ) -> (r: Result<Slot, Error>)
        ensures
            match r {
                Ok(s) => {
                    &&& recipe_fault(spec@) is None
                    &&& spec@.kind.wants_pass() ==> hash is Some
                    &&& s@ == SlotView::wrapping_hashed(
                        fk@,
                        spec@,
                        salt@,
                        nonce@,
                        opt_bytes(hash),
                    )
                    &&& s@.opens_hashed(spec@.material(), opt_bytes(hash)) == Ok::<
                        Seq<u8>,
                        ErrorView,
                    >(fk@)
                },
                Err(e) => match recipe_fault(spec@) {
                    Some(fault) => e@ == fault,
                    None => spec@.kind.wants_pass() && hash is None && e@ == ErrorView::BadSpec(
                        "this keyslot kind needs a passphrase"@,
                    ),
                },
            },
    {
        let dongle: Option<&Dongle> = match Slot::ingredients(spec) {
            Ok((dongle, _)) => dongle,
            Err(e) => return Err(e),
        };
        if spec.kind.needs_pass() && hash.is_none() {
            return Err(Error::BadSpec("this keyslot kind needs a passphrase"));
        }
        let mut s: Slot = Slot {
            kind: spec.kind,
            dongles: 0,
            nkeys: 0,
            bind: 0,
            kid: [0u8; 8],
            argon: if spec.kind.needs_pass() { spec.argon } else { argon_none() },
            salt,
            nonce,
            wrapped: [0u8; 48],
        };
        assert(s.kid@ =~= bytes::zeros(8));
        if let Some(d) = dongle {
            s.dongles = d.dongles;
            s.nkeys = d.nkeys;
            s.bind = d.bind;
            s.kid = kid(d.material.as_slice());
        }
        let k: Key = kek(
            s.kind,
            &s.salt,
            match dongle {
                Some(d) => Some(d.material.as_slice()),
                None => None,
            },
            if spec.kind.needs_pass() { hash } else { None },
        );
        let ghost blank = SlotView::blank(spec@, salt@, nonce@);
        assert(s@.header() == blank.header());
        assert(k@ == blank.kek(spec@.material(), opt_bytes(hash)));
        match crypto::encrypt(k.as_slice(), &s.nonce, fk.as_slice(), s.aad().as_slice()) {
            Some(ct) => {
                s.wrapped = bytes::field::<48>(ct.as_slice(), 0);
                assert(ct@.subrange(0, 48) =~= ct@);
                assert(s@ == SlotView::wrapping_hashed(
                    fk@,
                    spec@,
                    salt@,
                    nonce@,
                    opt_bytes(hash),
                ));
                assert(s@.aad() == blank.aad());
                Ok(s)
            },
            None => Err(Error::Corrupt(text::owned("wrap"))),
        }
    }

    /// The dongle and the passphrase that the kind of a recipe asks for, if they are there.
    fn ingredients<'a>(spec: &SlotSpec<'a>) -> (r: Result<
        (Option<&'a Dongle>, Option<&'a [u8]>),
        Error,
    >)
        ensures
            r matches Err(e) ==> recipe_fault(spec@) == Some(e@),
            r matches Ok((d, p)) ==> {
                &&& recipe_fault(spec@) is None
                &&& d == if spec.kind.wants_dongle() { spec.dongle } else { None }
                &&& p == if spec.kind.wants_pass() { spec.pass } else { None }
            },
    {
        let dongle: Option<&Dongle> = if spec.kind.needs_dongle() {
            match spec.dongle {
                None => return Err(Error::BadSpec("this keyslot kind needs dongle material")),
                Some(d) => {
                    if d.material.is_empty() {
                        return Err(Error::BadSpec("empty dongle material"));
                    }
                },
            }
            spec.dongle
        } else {
            None
        };
        let pass: Option<&[u8]> = if spec.kind.needs_pass() {
            match spec.pass {
                None => return Err(Error::BadSpec("this keyslot kind needs a passphrase")),
                Some(p) => {
                    if p.len() == 0 {
                        return Err(Error::BadSpec("empty passphrase"));
                    }
                },
            }
            spec.pass
        } else {
            None
        };
        Ok((dongle, pass))
    }

    /// Wraps the file key by a recipe, with a salt and a nonce drawn from `rng`, in this order. For a
    /// recipe that lacks something `rng` need not be callable, and is not called.
    ///
    /// That `rng` is unchanged is said of it as a value, as for `rng::draw`.
    pub fn wrap<R: FnMut(&mut [u8]) -> Result<(), Error>>(
        fk: &Key,
        spec: &SlotSpec,
        rng: &mut R,
    ) -> (r: Result<Slot, Error>)
        requires
            recipe_fault(spec@) is None ==> rng::callable(*old(rng)),
        ensures
            *final(rng) == *old(rng),
            match r {
                Ok(s) => {
                    &&& recipe_fault(spec@) is None
                    &&& s@ == SlotView::wrapping(fk@, spec@, s@.salt, s@.nonce)
                    &&& s@.opens(spec@.material(), spec@.pass) == Ok::<Seq<u8>, ErrorView>(fk@)
                },
                Err(e) => wrap_fails(*old(rng), spec@, e),
            },
            r matches Ok(s) ==> rng::drawn::<16, R>(*old(rng), s@.salt) && rng::drawn::<24, R>(
                *old(rng),
                s@.nonce,
            ),
    {
        if let Err(e) = Slot::ingredients(spec) {
            return Err(e);
        }
        let salt: [u8; 16] = match rng::take::<16, R>(rng) {
            Ok(b) => {
                assert(b@.subrange(0, 16) =~= b@);
                bytes::field::<16>(b.as_slice(), 0)
            },
            Err(e) => return Err(e),
        };
        let nonce: [u8; 24] = match rng::take::<24, R>(rng) {
            Ok(b) => {
                assert(b@.subrange(0, 24) =~= b@);
                bytes::field::<24>(b.as_slice(), 0)
            },
            Err(e) => return Err(e),
        };
        Slot::wrap_with(fk, spec, salt, nonce)
    }

    /// Unwraps the file key.
    ///
    /// Argon2 can fail for want of memory, so a passphrase slot can end in `Error::Argon` whatever
    /// its parameters, but only where the call itself failed.
    pub fn unwrap(&self, material: Option<&[u8]>, pass: Option<&[u8]>) -> (r: Result<Key, Error>)
        ensures
            self@.yields(opt_bytes(material), opt_bytes(pass), unwrapped(r)),
            r matches Ok(k) ==> self@.opens(opt_bytes(material), opt_bytes(pass)) == Ok::<
                Seq<u8>,
                ErrorView,
            >(k@),
    {
        if self.needs_dongle() && material.is_none() {
            return Err(Error::BadSpec("keyslot needs dongle material"));
        }
        let hash: Option<Secret> = match pass {
            Some(p) if self.needs_pass() => match argon(p, &self.salt, self.argon) {
                Ok(h) => Some(h),
                Err(e) => return Err(e),
            },
            _ => None,
        };
        let h: Option<&[u8]> = match &hash {
            Some(h) => Some(h.as_slice()),
            None => None,
        };
        self.unwrap_hashed(material, h)
    }

    /// Unwraps the file key with the hash of the passphrase.
    pub fn unwrap_hashed(&self, material: Option<&[u8]>, hash: Option<&[u8]>) -> (r: Result<
        Key,
        Error,
    >)
        ensures
            unwrapped(r) == self@.opens_hashed(opt_bytes(material), opt_bytes(hash)),
            match r {
                Ok(k) => self@.opens_hashed(opt_bytes(material), opt_bytes(hash)) == Ok::<
                    Seq<u8>,
                    ErrorView,
                >(k@),
                Err(e) => self@.opens_hashed(opt_bytes(material), opt_bytes(hash)) == Err::<
                    Seq<u8>,
                    ErrorView,
                >(e@),
            },
    {
        if self.needs_dongle() && material.is_none() {
            return Err(Error::BadSpec("keyslot needs dongle material"));
        }
        if self.needs_pass() && hash.is_none() {
            return Err(Error::BadSpec("keyslot needs a passphrase"));
        }
        let k: Key = kek(
            self.kind,
            &self.salt,
            if self.needs_dongle() { material } else { None },
            if self.needs_pass() { hash } else { None },
        );
        match crypto::decrypt(
            k.as_slice(),
            &self.nonce,
            self.wrapped.as_slice(),
            self.aad().as_slice(),
        ) {
            Some(pt) => Ok(Key::holding(Secret::new(pt))),
            None => Err(Error::WrongKey),
        }
    }
}

/// The key material that a wrapping key is derived from, for the factors that the kind asks for: the
/// hash of the passphrase, and behind it the material of the receivers.
pub open spec fn factors(kind: Kind, material: Seq<u8>, hash: Seq<u8>) -> Seq<u8> {
    match kind {
        Kind::Dongle => material,
        Kind::Pass => hash,
        Kind::DonglePass => hash + material,
    }
}

/// The wrapping key is derived from the whole of every factor that the kind asks for, with the salt
/// of the keyslot, under an info string that ends in 1, 2 or 3 by the kind. Two materials or two
/// hashes that differ go into the derivation as different inputs.
pub proof fn law_wrapping_key_takes_every_factor(
    v: SlotView,
    material: Seq<u8>,
    hash: Seq<u8>,
    other_material: Seq<u8>,
    other_hash: Seq<u8>,
)
    requires
        hash.len() == 32,
        other_hash.len() == 32,
    ensures
        ({
            let info = "uniseal-kek-v1".spec_bytes() + match v.kind {
                Kind::Dongle => seq![1u8],
                Kind::Pass => seq![2u8],
                Kind::DonglePass => seq![3u8],
            };
            &&& v.kek(Some(material), Some(hash)) == crypto::hkdf_output(
                v.salt,
                factors(v.kind, material, hash),
                info,
                32,
            )
            &&& v.kind == Kind::Dongle ==> v.kek(Some(material), None) == v.kek(
                Some(material),
                Some(hash),
            )
            &&& v.kind == Kind::Pass ==> v.kek(None, Some(hash)) == v.kek(
                Some(material),
                Some(hash),
            )
        }),
        v.kind != Kind::Pass && material != other_material ==> factors(v.kind, material, hash)
            != factors(v.kind, other_material, other_hash),
        v.kind != Kind::Dongle && hash != other_hash ==> factors(v.kind, material, hash) != factors(
            v.kind,
            other_material,
            other_hash,
        ),
{
    let info = "uniseal-kek-v1".spec_bytes();
    assert(info.push(1u8) =~= info + seq![1u8]);
    assert(info.push(2u8) =~= info + seq![2u8]);
    assert(info.push(3u8) =~= info + seq![3u8]);
    assert(hash + Seq::<u8>::empty() =~= hash);
    assert(Seq::<u8>::empty() + material =~= material);
    if v.kind == Kind::DonglePass && hash + material == other_hash + other_material {
        assert(hash =~= (hash + material).take(32));
        assert(other_hash =~= (other_hash + other_material).take(32));
        assert(material =~= (hash + material).skip(32));
        assert(other_material =~= (other_hash + other_material).skip(32));
    }
}

/// What a keyslot gives out: what the cipher opens of the wrapped key, under the key derived from
/// the factors, with the nonce of the keyslot, authenticated by the start of a vault and the first 40
/// bytes of the keyslot. Where the cipher refuses, the key is wrong.
pub proof fn law_opening(v: SlotView, material: Option<Seq<u8>>, hash: Option<Seq<u8>>)
    requires
        v.sized(),
        v.kind != Kind::Pass ==> material is Some,
        v.kind != Kind::Dongle ==> hash is Some,
    ensures
        ({
            let info = "uniseal-kek-v1".spec_bytes() + match v.kind {
                Kind::Dongle => seq![1u8],
                Kind::Pass => seq![2u8],
                Kind::DonglePass => seq![3u8],
            };
            let key = crypto::hkdf_output(
                v.salt,
                factors(v.kind, material->0, hash->0),
                info,
                32,
            );
            let aad = "UNISEAL1".spec_bytes() + v.bytes().take(40);
            v.opens_hashed(material, hash) == match crypto::aead_open(key, v.nonce, v.wrapped, aad) {
                Some(fk) => Ok::<Seq<u8>, ErrorView>(fk),
                None => Err(ErrorView::WrongKey),
            }
        }),
{
    let info = "uniseal-kek-v1".spec_bytes();
    assert(info.push(1u8) =~= info + seq![1u8]);
    assert(info.push(2u8) =~= info + seq![2u8]);
    assert(info.push(3u8) =~= info + seq![3u8]);
    let (m, h) = (material->0, hash->0);
    assert(h + Seq::<u8>::empty() =~= h);
    assert(Seq::<u8>::empty() + m =~= m);
    lemma_magic_spelled();
    law_slot_round_trip(v);
    assert(v.header().len() == 40);
    assert(v.bytes().take(40) =~= v.header());
}

pub proof fn lemma_magic_spelled()
    ensures
        magic() == "UNISEAL1".spec_bytes(),
{
    reveal(magic);
    reveal_strlit("UNISEAL1");
    is_ascii_spec_bytes("UNISEAL1");
    assert(MAGIC@ =~= "UNISEAL1".spec_bytes());
}

/// A passphrase opens a keyslot by its Argon2id hash, with the salt and the parameters that the
/// keyslot holds, and only where Argon2 takes them; a factor that the kind asks for and that is not
/// there is an error.
pub proof fn law_passphrase_is_hashed(v: SlotView, material: Option<Seq<u8>>, pass: Option<Seq<u8>>)
    ensures
        v.kind != Kind::Pass && material is None ==> v.opens(material, pass) == Err::<
            Seq<u8>,
            ErrorView,
        >(ErrorView::BadSpec("keyslot needs dongle material"@)),
        v.kind != Kind::Dongle && pass is None && (v.kind == Kind::DonglePass ==> material is Some)
            ==> v.opens(material, pass) == Err::<Seq<u8>, ErrorView>(
            ErrorView::BadSpec("keyslot needs a passphrase"@),
        ),
        v.kind == Kind::Dongle ==> v.opens(material, pass) == v.opens_hashed(material, None),
        v.kind != Kind::Dongle && pass is Some && (v.kind == Kind::DonglePass ==> material is Some)
            ==> v.opens(material, pass) == if v.argon.m_kib >= 8 && v.argon.m_kib >= 8 * v.argon.p
            && 1 <= v.argon.p <= 0xFFFFFF && v.argon.t >= 1 && pass->0.len() <= 0xFFFFFFFF {
            v.opens_hashed(
                material,
                Some(
                    crypto::argon2id_output(
                        pass->0,
                        v.salt,
                        v.argon.m_kib,
                        v.argon.t,
                        v.argon.p,
                    ),
                ),
            )
        } else {
            Err(ErrorView::Argon)
        },
{
}

/// What a keyslot records of its recipe: the kind; of the dongle the receivers, the number of
/// records, the bound slots and the tag of the material; of the passphrase the parameters. What the
/// kind does not ask for is recorded as zeros. The file key is sealed for exactly that keyslot.
pub proof fn law_wrapped_slot_records_its_recipe(
    fk: Seq<u8>,
    s: SpecView,
    salt: Seq<u8>,
    nonce: Seq<u8>,
    hash: Option<Seq<u8>>,
)
    requires
        s.kind != Kind::Pass ==> s.dongle is Some,
        s.kind != Kind::Dongle ==> hash is Some,
    ensures
        ({
            let v = SlotView::wrapping_hashed(fk, s, salt, nonce, hash);
            let d = s.dongle->0;
            &&& v.kind == s.kind
            &&& v.salt == salt
            &&& v.nonce == nonce
            &&& s.kind != Kind::Pass ==> {
                &&& v.dongles == d.dongles
                &&& v.nkeys == d.nkeys
                &&& v.bind == d.bind
                &&& v.kid == crypto::hkdf_output(
                    "uniseal-kid-v1".spec_bytes(),
                    d.material,
                    "uniseal-kid".spec_bytes(),
                    8,
                )
            }
            &&& s.kind == Kind::Pass ==> {
                &&& v.dongles == 0
                &&& v.nkeys == 0
                &&& v.bind == 0
                &&& v.kid == seq![0u8, 0u8, 0u8, 0u8, 0u8, 0u8, 0u8, 0u8]
            }
            &&& s.kind != Kind::Dongle ==> v.argon == s.argon
            &&& s.kind == Kind::Dongle ==> v.argon == Argon { m_kib: 0, t: 0, p: 0 }
            &&& v.wrapped == crypto::aead_seal(
                v.kek(Some(d.material), hash),
                nonce,
                fk,
                v.aad(),
            )
            &&& SlotView::wrapping(fk, s, salt, nonce) == SlotView::wrapping_hashed(
                fk,
                s,
                salt,
                nonce,
                match s.pass {
                    Some(p) => Some(
                        crypto::argon2id_output(p, salt, v.argon.m_kib, v.argon.t, v.argon.p),
                    ),
                    None => None,
                },
            )
        }),
{
    let v = SlotView::wrapping_hashed(fk, s, salt, nonce, hash);
    let blank = SlotView::blank(s, salt, nonce);
    assert(bytes::zeros(8) =~= seq![0u8, 0u8, 0u8, 0u8, 0u8, 0u8, 0u8, 0u8]);
    assert(v.header() == blank.header());
    assert(v.kek(Some(s.dongle->0.material), hash) == blank.kek(s.material(), hash));
}

/// The layout of a keyslot on disk, number fields with the high byte first.
pub proof fn law_slot_layout(v: SlotView)
    requires
        v.sized(),
    ensures
        ({
            let b = v.bytes();
            &&& b.len() == 112
            &&& b[0] == match v.kind {
                Kind::Dongle => 1u8,
                Kind::Pass => 2u8,
                Kind::DonglePass => 3u8,
            }
            &&& b[1] == v.dongles
            &&& b[2] == v.nkeys
            &&& b[3] == v.bind
            &&& b.subrange(4, 12) == v.kid
            &&& b.subrange(12, 28) == v.salt
            &&& v.argon.m_kib == b[28] * 0x1000000 + b[29] * 0x10000 + b[30] * 0x100 + b[31]
            &&& v.argon.t == b[32] * 0x1000000 + b[33] * 0x10000 + b[34] * 0x100 + b[35]
            &&& v.argon.p == b[36] * 0x1000000 + b[37] * 0x10000 + b[38] * 0x100 + b[39]
            &&& b.subrange(40, 64) == v.nonce
            &&& b.subrange(64, 112) == v.wrapped
        }),
{
    law_slot_round_trip(v);
    let b = v.bytes();
    assert(b.subrange(28, 32) =~= bytes::be32(v.argon.m_kib));
    assert(b.subrange(32, 36) =~= bytes::be32(v.argon.t));
    assert(b.subrange(36, 40) =~= bytes::be32(v.argon.p));
    lemma_four(b, 28, v.argon.m_kib);
    lemma_four(b, 32, v.argon.t);
    lemma_four(b, 36, v.argon.p);
}

proof fn lemma_four(b: Seq<u8>, at: int, x: u32)
    requires
        0 <= at <= b.len() - 4,
        b.subrange(at, at + 4) == bytes::be32(x),
    ensures
        x == b[at] * 0x1000000 + b[at + 1] * 0x10000 + b[at + 2] * 0x100 + b[at + 3],
{
    bytes::lemma_be32_value(x);
    let s = b.subrange(at, at + 4);
    assert(s[0] == b[at] && s[1] == b[at + 1] && s[2] == b[at + 2] && s[3] == b[at + 3]);
}

/// What is wrong with a recipe: nothing, where the factors that its kind asks for are there and not
/// empty. A dongle that is missing is told first.
pub proof fn law_recipes_in_order(s: SpecView)
    ensures
        recipe_fault(s) is None <==> {
            &&& s.kind != Kind::Pass ==> s.dongle is Some && s.dongle->0.material.len() > 0
            &&& s.kind != Kind::Dongle ==> s.pass is Some && s.pass->0.len() > 0
        },
        s.kind != Kind::Pass && s.dongle is None ==> recipe_fault(s) == Some(
            ErrorView::BadSpec("this keyslot kind needs dongle material"@),
        ),
        s.kind != Kind::Pass && s.dongle is Some && s.dongle->0.material.len() == 0
            ==> recipe_fault(s) == Some(ErrorView::BadSpec("empty dongle material"@)),
        (s.kind != Kind::Pass ==> s.dongle is Some && s.dongle->0.material.len() > 0) && s.kind
            != Kind::Dongle && s.pass is None ==> recipe_fault(s) == Some(
            ErrorView::BadSpec("this keyslot kind needs a passphrase"@),
        ),
        (s.kind != Kind::Pass ==> s.dongle is Some && s.dongle->0.material.len() > 0) && s.kind
            != Kind::Dongle && s.pass is Some && s.pass->0.len() == 0 ==> recipe_fault(s) == Some(
            ErrorView::BadSpec("empty passphrase"@),
        ),
{
}

/// Material is taken for a keyslot exactly if its tag is the one recorded, and then as it is.
pub proof fn law_tag_decides(v: SlotView, m: Seq<u8>, why: Seq<char>)
    ensures
        ({
            let tag = crypto::hkdf_output(
                "uniseal-kid-v1".spec_bytes(),
                m,
                "uniseal-kid".spec_bytes(),
                8,
            );
            &&& kid_of(m) == tag
            &&& tag == v.kid ==> v.accepts(Ok(m)) == Ok::<Option<Seq<u8>>, Seq<char>>(Some(m))
            &&& tag != v.kid ==> v.accepts(Ok(m)) == Err::<Option<Seq<u8>>, Seq<char>>(
                "dongle "@ + label::dongles_text(v.dongles) + " kid "@ + text::hex_text(v.kid)
                    + " expected, got "@ + text::hex_text(tag) + " (device re-paired?)"@,
            )
        }),
        v.accepts(Err(why)) == Err::<Option<Seq<u8>>, Seq<char>>(why),
{
}

/// A recovery keyslot asks no receiver; any other asks for the material of its own receivers and its
/// own bound slots, and cannot do without.
pub proof fn law_own_binding_is_asked_for<D: DongleSource + ?Sized>(
    v: SlotView,
    src: Option<&D>,
    c: Result<Option<Seq<u8>>, Seq<char>>,
)
    requires
        checks_to::<D>(v, src, c),
    ensures
        v.kind == Kind::Pass ==> c == Ok::<Option<Seq<u8>>, Seq<char>>(None),
        v.kind != Kind::Pass && src is None ==> c == Err::<Option<Seq<u8>>, Seq<char>>(
            "needs dongle "@ + label::dongles_text(v.dongles) + ", none readable"@,
        ),
        v.kind != Kind::Pass && src is Some ==> exists|got: Result<Secret, String>| #[trigger]
            call_ensures(D::material, (src->0, v.dongles, v.bind), got) && match got {
                Ok(m) => (c is Ok <==> crypto::hkdf_output(
                    "uniseal-kid-v1".spec_bytes(),
                    m@,
                    "uniseal-kid".spec_bytes(),
                    8,
                ) == v.kid) && (c is Ok ==> c == Ok::<Option<Seq<u8>>, Seq<char>>(Some(m@))),
                Err(why) => c == Err::<Option<Seq<u8>>, Seq<char>>(why@),
            },
{
    if v.kind != Kind::Pass && src is Some {
        let got = choose|got: Result<Secret, String>|
            c == v.accepts(answered(got)) && #[trigger] call_ensures(
                D::material,
                (src->0, v.dongles, v.bind),
                got,
            );
        if let Ok(m) = got {
            law_tag_decides(v, m@, ""@);
        }
    }
}

/// Unwrapping gives what the keyslot opens to; only hashing a passphrase that the keyslot asks for
/// can end otherwise, in `Argon`.
pub proof fn law_unwrapping(
    v: SlotView,
    material: Option<Seq<u8>>,
    pass: Option<Seq<u8>>,
    r: Result<Seq<u8>, ErrorView>,
)
    requires
        v.yields(material, pass, r),
    ensures
        r is Ok ==> r == v.opens(material, pass),
        r != v.opens(material, pass) ==> r == Err::<Seq<u8>, ErrorView>(ErrorView::Argon) && v.kind
            != Kind::Dongle && pass is Some && (v.kind == Kind::DonglePass ==> material is Some)
            && argon_refused(pass->0, v.salt, v.argon),
{
}

/// The description of a keyslot: of a dongle the receivers, the bound slots where the TI receiver is
/// among them, and the number of records; of a passphrase the cost of its hash.
pub proof fn law_description(v: SlotView)
    ensures
        ({
            let dongle = "dongle "@ + label::dongles_text(v.dongles) + (if v.dongles % 2 == 1 {
                " · "@ + label::bind_text(v.bind)
            } else {
                seq![]
            }) + " · "@ + text::decimal_text(v.nkeys as nat) + " rec."@;
            let pass = "Argon2id "@ + text::decimal_text((v.argon.m_kib / 1024) as nat) + " MiB t="@
                + text::decimal_text(v.argon.t as nat);
            &&& v.kind == Kind::Dongle ==> v.description() == dongle
            &&& v.kind == Kind::Pass ==> v.description() == "passphrase ("@ + pass + ")"@
            &&& v.kind == Kind::DonglePass ==> v.description() == dongle + " + PIN ("@ + pass + ")"@
        }),
{
    let m = v.dongles;
    assert(m & 1 != 0 <==> m % 2 == 1) by (bit_vector);
}

/// How wrapping can fail: a recipe that lacks something is told, and nothing else; else the source of
/// random bytes refused the salt or the nonce, or a passphrase that the kind asks for could not be
/// hashed with a salt that was drawn.
pub proof fn law_wrapping_fails<R: FnMut(&mut [u8]) -> Result<(), Error>>(
    rng: R,
    s: SpecView,
    e: Error,
)
    requires
        wrap_fails(rng, s, e),
    ensures
        recipe_fault(s) matches Some(fault) ==> e@ == fault,
        recipe_fault(s) is None && !rng::refused(rng, 16, e) && !rng::refused(rng, 24, e) ==> e
            == Error::Argon && s.kind != Kind::Dongle && exists|salt: Seq<u8>|
            rng::drawn::<16, R>(rng, salt) && #[trigger] argon_refused(s.pass->0, salt, s.argon),
{
}

/// Another receiver or another passphrase does not open a keyslot: where the cipher opens the wrapped
/// key under no key but the one that wraps it, and HKDF derives different keys from different inputs,
/// a factor that the kind asks for and that differs is refused as a wrong key.
pub proof fn law_other_factor_refused(
    v: SlotView,
    material: Seq<u8>,
    hash: Seq<u8>,
    other_material: Seq<u8>,
    other_hash: Seq<u8>,
)
    requires
        v.sized(),
        hash.len() == 32,
        other_hash.len() == 32,
        v.kind != Kind::Pass && material != other_material || v.kind != Kind::Dongle && hash
            != other_hash,
        forall|key: Seq<u8>| #[trigger]
            crypto::aead_open(key, v.nonce, v.wrapped, v.aad()) is Some ==> key == v.kek(
                Some(material),
                Some(hash),
            ),
        forall|a: Seq<u8>, b: Seq<u8>, info: Seq<u8>|
            #[trigger] crypto::hkdf_output(v.salt, a, info, 32) == #[trigger] crypto::hkdf_output(
                v.salt,
                b,
                info,
                32,
            ) ==> a == b,
    ensures
        v.opens_hashed(Some(other_material), Some(other_hash)) == Err::<Seq<u8>, ErrorView>(
            ErrorView::WrongKey,
        ),
{
    law_wrapping_key_takes_every_factor(v, material, hash, other_material, other_hash);
    law_wrapping_key_takes_every_factor(v, other_material, other_hash, material, hash);
}

/// Results are told as they are: a key by its bytes, material by its bytes, an error by its text.
pub proof fn law_results_told(k: Key, e: Error, m: Secret, w: String)
    ensures
        unwrapped(Ok(k)) == Ok::<Seq<u8>, ErrorView>(k@),
        unwrapped(Err(e)) == Err::<Seq<u8>, ErrorView>(e@),
        answered(Ok(m)) == Ok::<Seq<u8>, Seq<char>>(m@),
        answered(Err(w)) == Err::<Seq<u8>, Seq<char>>(w@),
        checked(Ok(Some(m))) == Ok::<Option<Seq<u8>>, Seq<char>>(Some(m@)),
        checked(Ok(None)) == Ok::<Option<Seq<u8>>, Seq<char>>(None),
        checked(Err(w)) == Err::<Option<Seq<u8>>, Seq<char>>(w@),
{
}

} // verus!
