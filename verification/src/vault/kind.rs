//! Keyslot kinds, passphrase hashing parameters, and recipes for keyslots.

use crate::vault::secret::Secret;
use vstd::prelude::*;

verus! {

#[derive(Clone, Copy, PartialEq, Eq, Structural, Debug)]
pub enum Kind {
    /// Possession only: whoever holds the dongles opens it.
    Dongle,
    /// Passphrase only: recovery slot, works without any dongle.
    Pass,
    /// Dongles AND a PIN: the real second factor.
    DonglePass,
}

impl Kind {
    /// The byte that stands for the kind in a keyslot.
    pub open spec fn code(self) -> u8 {
        match self {
            Kind::Dongle => 1,
            Kind::Pass => 2,
            Kind::DonglePass => 3,
        }
    }

    /// The kind that a byte stands for.
    pub open spec fn of_code(b: u8) -> Option<Kind> {
        if b == 1 {
            Some(Kind::Dongle)
        } else if b == 2 {
            Some(Kind::Pass)
        } else if b == 3 {
            Some(Kind::DonglePass)
        } else {
            None
        }
    }

    pub open spec fn wants_dongle(self) -> bool {
        self is Dongle || self is DonglePass
    }

    pub open spec fn wants_pass(self) -> bool {
        self is Pass || self is DonglePass
    }

    pub(crate) fn from_u8(b: u8) -> (k: Option<Kind>)
        ensures
            k == Kind::of_code(b),
    {
        match b {
            1 => Some(Kind::Dongle),
            2 => Some(Kind::Pass),
            3 => Some(Kind::DonglePass),
            _ => None,
        }
    }

    pub(crate) fn to_u8(self) -> (b: u8)
        ensures
            b == self.code(),
    {
        match self {
            Kind::Dongle => 1,
            Kind::Pass => 2,
            Kind::DonglePass => 3,
        }
    }

    pub fn needs_dongle(self) -> (r: bool)
        ensures
            r == self.wants_dongle(),
    {
        matches!(self, Kind::Dongle | Kind::DonglePass)
    }

    pub fn needs_pass(self) -> (r: bool)
        ensures
            r == self.wants_pass(),
    {
        matches!(self, Kind::Pass | Kind::DonglePass)
    }
}

/// A kind is told by its byte.
pub proof fn law_kind_code(k: Kind, b: u8)
    ensures
        Kind::of_code(k.code()) == Some(k),
        Kind::of_code(b) matches Some(k2) ==> k2.code() == b,
{
}

/// The bytes of the kinds, and the factors that each asks for.
pub proof fn law_kinds(k: Kind, b: u8)
    ensures
        Kind::Dongle.code() == 1 && Kind::Pass.code() == 2 && Kind::DonglePass.code() == 3,
        Kind::of_code(b) is Some <==> 1 <= b <= 3,
        k.wants_dongle() <==> k != Kind::Pass,
        k.wants_pass() <==> k != Kind::Dongle,
{
}

/// The recipes hold what they were made of, and new passphrases are hashed with 64 MiB, three passes
/// and one lane.
pub proof fn law_recipes(d: DongleView, pass: Seq<u8>)
    ensures
        SpecView::of_dongle(d) == (SpecView {
            kind: Kind::Dongle,
            dongle: Some(d),
            pass: None,
            argon: Argon { m_kib: 0, t: 0, p: 0 },
        }),
        SpecView::of_pass(pass) == (SpecView {
            kind: Kind::Pass,
            dongle: None,
            pass: Some(pass),
            argon: Argon { m_kib: 65536, t: 3, p: 1 },
        }),
        SpecView::of_dongle_pass(d, pass) == (SpecView {
            kind: Kind::DonglePass,
            dongle: Some(d),
            pass: Some(pass),
            argon: Argon { m_kib: 65536, t: 3, p: 1 },
        }),
        SpecView::of_dongle(d).material() == Some(d.material),
        SpecView::of_pass(pass).material() is None,
        SpecView::of_dongle_pass(d, pass).material() == Some(d.material),
{
}

/// Argon2id parameters: memory in KiB, passes, lanes.
#[derive(Clone, Copy, PartialEq, Eq, Structural, Debug)]
pub struct Argon {
    pub m_kib: u32,
    pub t: u32,
    pub p: u32,
}

/// The parameters of new passphrase slots.
#[verifier::allow_in_spec]
pub fn argon_default() -> Argon
    returns
        (Argon { m_kib: 65536, t: 3, p: 1 }),
{
    Argon { m_kib: 65536, t: 3, p: 1 }
}

/// The parameters recorded where no passphrase is hashed.
#[verifier::allow_in_spec]
pub fn argon_none() -> Argon
    returns
        (Argon { m_kib: 0, t: 0, p: 0 }),
{
    Argon { m_kib: 0, t: 0, p: 0 }
}

/// Material plus its public description, ready to wrap a slot.
#[derive(Clone, Debug)]
pub struct Dongle {
    pub material: Secret,
    pub dongles: u8,
    pub nkeys: u8,
    pub bind: u8,
}

/// A dongle, with its material as a byte sequence.
pub struct DongleView {
    pub material: Seq<u8>,
    pub dongles: u8,
    pub nkeys: u8,
    pub bind: u8,
}

impl View for Dongle {
    type V = DongleView;

    open spec fn view(&self) -> DongleView {
        DongleView {
            material: self.material@,
            dongles: self.dongles,
            nkeys: self.nkeys,
            bind: self.bind,
        }
    }
}

/// Recipe for one keyslot.
pub struct SlotSpec<'a> {
    pub kind: Kind,
    pub dongle: Option<&'a Dongle>,
    pub pass: Option<&'a [u8]>,
    pub argon: Argon,
}

/// A recipe, with its secrets as byte sequences.
pub struct SpecView {
    pub kind: Kind,
    pub dongle: Option<DongleView>,
    pub pass: Option<Seq<u8>>,
    pub argon: Argon,
}

impl<'a> View for SlotSpec<'a> {
    type V = SpecView;

    open spec fn view(&self) -> SpecView {
        SpecView {
            kind: self.kind,
            dongle: dongle_view(self.dongle),
            pass: match self.pass {
                Some(p) => Some(p@),
                None => None,
            },
            argon: self.argon,
        }
    }
}

impl SpecView {
    /// The recipe of a possession-only keyslot.
    pub open spec fn of_dongle(d: DongleView) -> SpecView {
        SpecView { kind: Kind::Dongle, dongle: Some(d), pass: None, argon: argon_none() }
    }

    /// The recipe of a recovery keyslot.
    pub open spec fn of_pass(pass: Seq<u8>) -> SpecView {
        SpecView { kind: Kind::Pass, dongle: None, pass: Some(pass), argon: argon_default() }
    }

    /// The recipe of a keyslot with both factors.
    pub open spec fn of_dongle_pass(d: DongleView, pass: Seq<u8>) -> SpecView {
        SpecView {
            kind: Kind::DonglePass,
            dongle: Some(d),
            pass: Some(pass),
            argon: argon_default(),
        }
    }

    /// The fingerprint material of the recipe.
    pub open spec fn material(self) -> Option<Seq<u8>> {
        match self.dongle {
            Some(d) => Some(d.material),
            None => None,
        }
    }
}

/// The recipes of a list, as views.
pub open spec fn spec_views(v: Seq<SlotSpec>) -> Seq<SpecView> {
    Seq::new(v.len(), |i: int| v[i]@)
}

/// An optional dongle, as its view.
pub open spec fn dongle_view(d: Option<&Dongle>) -> Option<DongleView> {
    match d {
        Some(d) => Some(d@),
        None => None,
    }
}

impl<'a> SlotSpec<'a> {
    pub fn dongle(d: &'a Dongle) -> (s: Self)
        ensures
            s@ == SpecView::of_dongle(d@),
            s.kind == Kind::Dongle && s.dongle == Some(d) && s.pass is None,
    {
        SlotSpec { kind: Kind::Dongle, dongle: Some(d), pass: None, argon: argon_none() }
    }

    pub fn pass(pass: &'a [u8]) -> (s: Self)
        ensures
            s@ == SpecView::of_pass(pass@),
            s.kind == Kind::Pass && s.dongle is None && s.pass == Some(pass),
            s.argon == (Argon { m_kib: 65536, t: 3, p: 1 }),
    {
        SlotSpec { kind: Kind::Pass, dongle: None, pass: Some(pass), argon: argon_default() }
    }

    pub fn dongle_pass(d: &'a Dongle, pass: &'a [u8]) -> (s: Self)
        ensures
            s@ == SpecView::of_dongle_pass(d@, pass@),
            s.kind == Kind::DonglePass && s.dongle == Some(d) && s.pass == Some(pass),
            s.argon == (Argon { m_kib: 65536, t: 3, p: 1 }),
    {
        SlotSpec {
            kind: Kind::DonglePass,
            dongle: Some(d),
            pass: Some(pass),
            argon: argon_default(),
        }
    }

    pub fn with_argon(self, a: Argon) -> (s: Self)
        ensures
            s@ == (SpecView { argon: a, ..self@ }),
            s.kind == self.kind && s.dongle == self.dongle && s.pass == self.pass && s.argon == a,
    {
        SlotSpec { kind: self.kind, dongle: self.dongle, pass: self.pass, argon: a }
    }
}

} // verus!
