//! What can go wrong with a vault.

use crate::text;
use vstd::prelude::*;

verus! {

#[derive(Debug, Clone, PartialEq, Eq)]
pub enum Error {
    NotVault,
    Truncated,
    Corrupt(String),
    Io(String),
    Rng,
    TooManySlots,
    LastSlot,
    NoSuchSlot,
    BadSpec(&'static str),
    Argon,
    WrongKey,
    NoUsableSlot(Vec<String>),
}

/// An error, with its texts as character sequences.
pub enum ErrorView {
    NotVault,
    Truncated,
    Corrupt(Seq<char>),
    Io(Seq<char>),
    Rng,
    TooManySlots,
    LastSlot,
    NoSuchSlot,
    BadSpec(Seq<char>),
    Argon,
    WrongKey,
    NoUsableSlot(Seq<Seq<char>>),
}

/// The characters of every string of a list.
pub open spec fn texts(v: Seq<String>) -> Seq<Seq<char>> {
    Seq::new(v.len(), |i: int| v[i]@)
}

impl View for Error {
    type V = ErrorView;

    open spec fn view(&self) -> ErrorView {
        match self {
            Error::NotVault => ErrorView::NotVault,
            Error::Truncated => ErrorView::Truncated,
            Error::Corrupt(w) => ErrorView::Corrupt(w@),
            Error::Io(w) => ErrorView::Io(w@),
            Error::Rng => ErrorView::Rng,
            Error::TooManySlots => ErrorView::TooManySlots,
            Error::LastSlot => ErrorView::LastSlot,
            Error::NoSuchSlot => ErrorView::NoSuchSlot,
            Error::BadSpec(w) => ErrorView::BadSpec(w@),
            Error::Argon => ErrorView::Argon,
            Error::WrongKey => ErrorView::WrongKey,
            Error::NoUsableSlot(r) => ErrorView::NoUsableSlot(texts(r@)),
        }
    }
}

/// Every reason on a line of its own, indented, after a line break.
pub open spec fn reason_lines(reasons: Seq<Seq<char>>) -> Seq<char>
    decreases reasons.len(),
{
    if reasons.len() == 0 {
        Seq::empty()
    } else {
        reason_lines(reasons.drop_last()) + "\n  "@ + reasons.last()
    }
}

impl ErrorView {
    /// The message shown to the user.
    pub open spec fn text(self) -> Seq<char> {
        match self {
            ErrorView::NotVault => "not a uniseal vault (magic missing)"@,
            ErrorView::Truncated => "vault truncated"@,
            ErrorView::Corrupt(w) => "vault corrupt: "@ + w,
            ErrorView::Io(w) => "i/o: "@ + w,
            ErrorView::Rng => "system RNG unavailable"@,
            ErrorView::TooManySlots => "vault already has 8 keyslots"@,
            ErrorView::LastSlot => "refusing to remove the last keyslot"@,
            ErrorView::NoSuchSlot => "no such keyslot"@,
            ErrorView::BadSpec(w) => w,
            ErrorView::Argon => "Argon2 parameters rejected"@,
            ErrorView::WrongKey => "wrong key: refused"@,
            ErrorView::NoUsableSlot(reasons) => "no keyslot opened:"@ + reason_lines(reasons),
        }
    }
}

impl Error {
    /// The message shown to the user.
    pub fn message(&self) -> (s: String)
        ensures
            s@ == self@.text(),
    {
        match self {
            Error::NotVault => text::owned("not a uniseal vault (magic missing)"),
            Error::Truncated => text::owned("vault truncated"),
            Error::Corrupt(w) => text::glue("vault corrupt: ", w.as_str()),
            Error::Io(w) => text::glue("i/o: ", w.as_str()),
            Error::Rng => text::owned("system RNG unavailable"),
            Error::TooManySlots => text::owned("vault already has 8 keyslots"),
            Error::LastSlot => text::owned("refusing to remove the last keyslot"),
            Error::NoSuchSlot => text::owned("no such keyslot"),
            Error::BadSpec(w) => text::owned(w),
            Error::Argon => text::owned("Argon2 parameters rejected"),
            Error::WrongKey => text::owned("wrong key: refused"),
            Error::NoUsableSlot(reasons) => {
                let mut s: String = text::owned("no keyslot opened:");
                let mut i: usize = 0;
                assert(texts(reasons@).take(0) =~= Seq::empty());
                while i < reasons.len()
                    invariant
                        i <= reasons@.len(),
                        s@ =~= "no keyslot opened:"@ + reason_lines(texts(reasons@).take(i as int)),
                    decreases reasons@.len() - i,
                {
                    s.append("\n  ");
                    s.append(reasons[i].as_str());
                    assert(texts(reasons@).take(i + 1).drop_last() =~= texts(reasons@).take(
                        i as int,
                    ));
                    i = i + 1;
                }
                assert(texts(reasons@).take(i as int) =~= texts(reasons@));
                s
            },
        }
    }
}

/// The messages of the errors. One that carries a text ends with it, one without a usable keyslot
/// lists every reason in order, each on a line of its own.
pub proof fn law_messages(w: Seq<char>, reasons: Seq<Seq<char>>, last: Seq<char>)
    ensures
        ErrorView::NotVault.text() == "not a uniseal vault (magic missing)"@,
        ErrorView::Truncated.text() == "vault truncated"@,
        ErrorView::Corrupt(w).text() == "vault corrupt: "@ + w,
        ErrorView::Io(w).text() == "i/o: "@ + w,
        ErrorView::Rng.text() == "system RNG unavailable"@,
        ErrorView::TooManySlots.text() == "vault already has 8 keyslots"@,
        ErrorView::LastSlot.text() == "refusing to remove the last keyslot"@,
        ErrorView::NoSuchSlot.text() == "no such keyslot"@,
        ErrorView::BadSpec(w).text() == w,
        ErrorView::Argon.text() == "Argon2 parameters rejected"@,
        ErrorView::WrongKey.text() == "wrong key: refused"@,
        ErrorView::NoUsableSlot(seq![]).text() == "no keyslot opened:"@,
        ErrorView::NoUsableSlot(reasons.push(last)).text() == ErrorView::NoUsableSlot(reasons).text()
            + "\n  "@ + last,
{
    assert("no keyslot opened:"@ + reason_lines(seq![]) =~= "no keyslot opened:"@);
    assert(reasons.push(last).drop_last() =~= reasons);
    assert("no keyslot opened:"@ + (reason_lines(reasons) + "\n  "@ + last) =~= "no keyslot opened:"@
        + reason_lines(reasons) + "\n  "@ + last);
}

} // verus!
