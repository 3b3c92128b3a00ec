//! What the log says at the end of a lock or an unlock.

use crate::selfcheck::SlotFailure;
use crate::text;
use crate::vault::slot::Slot;
use vstd::prelude::*;

verus! {

/// A file of `len` bytes was locked into the vault `dest` of `size` bytes with `slots` keyslots.
pub fn locked_line(dest: &str, len: u64, size: u64, slots: usize) -> (s: String)
    ensures
        s@ == "locked "@ + dest@ + " ("@ + text::decimal_text(len as nat) + " -> "@
            + text::decimal_text(size as nat) + " B, "@ + text::decimal_text(slots as nat)
            + " keyslot"@ + (if slots == 1 {
            Seq::empty()
        } else {
            "s"@
        }) + ")"@,
{
    let mut s: String = text::glue("locked ", dest);
    s.append(" (");
    s.append(text::decimal(len).as_str());
    s.append(" -> ");
    s.append(text::decimal(size).as_str());
    s.append(" B, ");
    s.append(text::decimal(slots as u64).as_str());
    s.append(" keyslot");
    let ghost so_far = s@;
    if slots != 1 {
        s.append("s");
    }
    assert(s@ =~= so_far + (if slots == 1 {
        Seq::empty()
    } else {
        "s"@
    }));
    s.append(")");
    s
}

/// A vault was opened to `dest` with keyslot `i`; `len` bytes came out.
pub fn unlocked_line(i: usize, slot: &Slot, dest: &str, len: u64) -> (s: String)
    ensures
        s@ == "unlocked with keyslot "@ + text::decimal_text(i as nat) + " ("@
            + slot@.description() + ") -> "@ + dest@ + " ("@ + text::decimal_text(len as nat)
            + " B)"@,
{
    let mut s: String = text::glue("unlocked with keyslot ", text::decimal(i as u64).as_str());
    s.append(" (");
    s.append(slot.describe().as_str());
    s.append(") -> ");
    s.append(dest);
    s.append(" (");
    s.append(text::decimal(len).as_str());
    s.append(" B)");
    s
}

/// Why the check of a new vault failed at a keyslot.
pub fn slot_reason(f: &SlotFailure) -> (s: String)
    ensures
        s@ == "slot "@ + text::decimal_text(f.slot as nat) + ": "@ + f.error@.text(),
{
    let mut s: String = text::glue("slot ", text::decimal(f.slot as u64).as_str());
    s.append(": ");
    s.append(f.error.message().as_str());
    s
}

/// The check of a new vault failed.
pub fn check_line(why: &str) -> (s: String)
    ensures
        s@ == "self-check failed ("@ + why@ + "), vault removed"@,
{
    let mut s: String = text::glue("self-check failed (", why);
    s.append("), vault removed");
    s
}

} // verus!
