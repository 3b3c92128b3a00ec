//! What the vault window knows, decides and says; drawing, dialogs and threads happen around it.
//!
//! Two cards (Receiver, Vault) over a log. Everything is laid out in logical pixels. Drop a file on
//! the window to select it; a `.vault` shows its keyslots and the primary action becomes Unlock.

pub mod app;
pub mod draw;
pub mod layout;
pub mod report;
pub mod status;
pub mod typed;

use crate::text;
use crate::vault::kind::{self, Dongle, DongleView, Kind, SlotSpec, SpecView};
use vstd::prelude::*;

verus! {

/// The time of day of a number of seconds since midnight UTC of some day.
pub open spec fn time_text(t: int) -> Seq<char> {
    text::two_digits(t / 3600 % 24) + ":"@ + text::two_digits(t / 60 % 60) + ":"@
        + text::two_digits(t % 60)
}

/// The time of day, `t` seconds after the epoch.
pub fn stamp(t: u64) -> (s: String)
    ensures
        s@ == time_text(t as int),
{
    let mut s: String = String::new();
    text::push_two_digits(&mut s, (t / 3600 % 24) as u8);
    s.append(":");
    text::push_two_digits(&mut s, (t / 60 % 60) as u8);
    s.append(":");
    text::push_two_digits(&mut s, (t % 60) as u8);
    assert(s@ =~= time_text(t as int));
    s
}

/// How a message is to be taken.
#[derive(Clone, Copy, PartialEq, Eq, Structural, Debug)]
pub enum Level {
    Info,
    Good,
    Warn,
    Bad,
}

/// What a new vault is locked with.
#[derive(Clone, Copy, PartialEq, Eq, Structural, Debug)]
pub enum Mode {
    Dongle,
    DonglePin,
    DongleRecovery,
}

impl Mode {
    /// The modes in the order of the segments.
    pub open spec fn at(i: int) -> Mode {
        if i == 0 {
            Mode::Dongle
        } else if i == 1 {
            Mode::DonglePin
        } else {
            Mode::DongleRecovery
        }
    }

    pub open spec fn label_text(self) -> Seq<char> {
        match self {
            Mode::Dongle => "Dongle"@,
            Mode::DonglePin => "Dongle + PIN"@,
            Mode::DongleRecovery => "+ Recovery"@,
        }
    }

    /// The mode of segment `i`.
    pub fn nth(i: usize) -> (m: Mode)
        requires
            i < 3,
        ensures
            m == Mode::at(i as int),
    {
        match i {
            0 => Mode::Dongle,
            1 => Mode::DonglePin,
            _ => Mode::DongleRecovery,
        }
    }

    pub fn label(self) -> (s: &'static str)
        ensures
            s@ == self.label_text(),
    {
        match self {
            Mode::Dongle => "Dongle",
            Mode::DonglePin => "Dongle + PIN",
            Mode::DongleRecovery => "+ Recovery",
        }
    }

    pub fn hint(self) -> (s: &'static str)
        ensures
            s@ == match self {
                Mode::Dongle => "Anyone holding the dongles opens it."@,
                Mode::DonglePin => "Dongles and PIN both required (Argon2id)."@,
                Mode::DongleRecovery => "Dongle slot + passphrase slot without dongles."@,
            },
    {
        match self {
            Mode::Dongle => "Anyone holding the dongles opens it.",
            Mode::DonglePin => "Dongles and PIN both required (Argon2id).",
            Mode::DongleRecovery => "Dongle slot + passphrase slot without dongles.",
        }
    }

    pub fn needs_pass(self) -> (r: bool)
        ensures
            r == (self != Mode::Dongle),
    {
        !matches!(self, Mode::Dongle)
    }

    /// The recipes of a new vault in this mode.
    pub open spec fn recipes(self, dongle: DongleView, pass: Seq<u8>) -> Seq<SpecView> {
        match self {
            Mode::Dongle => seq![SpecView::of_dongle(dongle)],
            Mode::DonglePin => seq![SpecView::of_dongle_pass(dongle, pass)],
            Mode::DongleRecovery => seq![SpecView::of_dongle(dongle), SpecView::of_pass(pass)],
        }
    }

    /// The keyslots of a new vault in this mode.
    pub fn specs<'a>(self, dongle: &'a Dongle, pass: &'a [u8]) -> (v: Vec<SlotSpec<'a>>)
        ensures
            kind::spec_views(v@) == self.recipes(dongle@, pass@),
    {
        let mut v: Vec<SlotSpec<'a>> = Vec::new();
        match self {
            Mode::Dongle => {
                v.push(SlotSpec::dongle(dongle));
            },
            Mode::DonglePin => {
                v.push(SlotSpec::dongle_pass(dongle, pass));
            },
            Mode::DongleRecovery => {
                v.push(SlotSpec::dongle(dongle));
                v.push(SlotSpec::pass(pass));
            },
        }
        assert(kind::spec_views(v@) =~= self.recipes(dongle@, pass@));
        v
    }
}

/// Where typed text goes.
#[derive(Clone, Copy, PartialEq, Eq, Structural, Debug)]
pub enum Focus {
    File,
    Pass,
}

/// The time of day: hours, minutes and seconds in two digits each, whatever the day.
pub proof fn law_time(day: int, h: int, m: int, s: int)
    requires
        0 <= day,
        0 <= h < 24,
        0 <= m < 60,
        0 <= s < 60,
    ensures
        time_text(86400 * day + 3600 * h + 60 * m + s) == text::two_digits(h) + ":"@
            + text::two_digits(m) + ":"@ + text::two_digits(s),
{
    let t = 86400 * day + 3600 * h + 60 * m + s;
    assert(t / 3600 == 24 * day + h);
    assert((24 * day + h) % 24 == h);
    assert(t / 60 == 1440 * day + 60 * h + m);
    assert((1440 * day + 60 * h + m) % 60 == m);
    assert(t % 60 == s);
}

/// The modes: their segments, their names, and what a vault is locked with. With a PIN the dongles
/// do not open it alone; with a recovery passphrase either opens it.
pub proof fn law_modes(d: DongleView, pass: Seq<u8>)
    ensures
        Mode::at(0) == Mode::Dongle && Mode::at(1) == Mode::DonglePin && Mode::at(2)
            == Mode::DongleRecovery,
        Mode::Dongle.label_text() == "Dongle"@,
        Mode::DonglePin.label_text() == "Dongle + PIN"@,
        Mode::DongleRecovery.label_text() == "+ Recovery"@,
        ({
            let r = Mode::Dongle.recipes(d, pass);
            r.len() == 1 && r[0].kind == Kind::Dongle && r[0].dongle == Some(d)
        }),
        ({
            let r = Mode::DonglePin.recipes(d, pass);
            r.len() == 1 && r[0].kind == Kind::DonglePass && r[0].dongle == Some(d) && r[0].pass
                == Some(pass)
        }),
        ({
            let r = Mode::DongleRecovery.recipes(d, pass);
            r.len() == 2 && r[0].kind == Kind::Dongle && r[0].dongle == Some(d) && r[1].kind
                == Kind::Pass && r[1].pass == Some(pass)
        }),
{
}

} // verus!
