//! Checking a vault right after it was written, before success is reported: every keyslot must
//! unwrap the key, and the body must decrypt back to the exact plaintext.

use crate::bytes;
use crate::text;
use crate::vault::error::{Error, ErrorView};
use crate::vault::kind::{SlotSpec, SpecView};
use crate::vault::seal;
use crate::vault::slot::{self, SlotView};
use crate::vault::{Header, Key};
use vstd::prelude::*;

verus! {

/// Whether unwrapping keyslot `i` of a header can end in `r`.
pub open spec fn slot_yields(
    slots: Seq<SlotView>,
    i: int,
    spec: SpecView,
    r: Result<Seq<u8>, ErrorView>,
) -> bool {
    if i < slots.len() {
        slots[i].yields(spec.material(), spec.pass, r)
    } else {
        r == Err::<Seq<u8>, ErrorView>(ErrorView::NoSuchSlot)
    }
}

/// Whether unwrapping keyslot `i` of a header can give a key.
pub open spec fn can_open(slots: Seq<SlotView>, i: int, spec: SpecView) -> bool {
    exists|k: Seq<u8>| #[trigger] slot_yields(slots, i, spec, Ok::<Seq<u8>, ErrorView>(k))
}

/// The first keyslot at which checking a new vault failed.
pub struct SlotFailure {
    pub slot: usize,
    pub error: Error,
}

/// Unwraps the file key with every keyslot of a new vault, each by its recipe.
pub fn open_all(h: &Header, specs: &[SlotSpec]) -> (r: Result<Vec<Key>, SlotFailure>)
    ensures
        match r {
            Ok(keys) => {
                &&& keys@.len() == specs@.len()
                &&& forall|i: int|
                    0 <= i < keys@.len() ==> slot_yields(
                        h@,
                        i,
                        specs@[i]@,
                        Ok::<Seq<u8>, ErrorView>((#[trigger] keys@[i])@),
                    )
            },
            Err(f) => {
                &&& f.slot < specs@.len()
                &&& forall|i: int|
                    0 <= i < f.slot ==> can_open(h@, i, (#[trigger] specs@[i])@)
                &&& slot_yields(
                    h@,
                    f.slot as int,
                    specs@[f.slot as int]@,
                    Err::<Seq<u8>, ErrorView>(f.error@),
                )
            },
        },
{
    let mut keys: Vec<Key> = Vec::new();
    let mut i: usize = 0;
    while i < specs.len()
        invariant
            i <= specs@.len(),
            keys@.len() == i,
            forall|j: int|
                0 <= j < i ==> slot_yields(
                    h@,
                    j,
                    specs@[j]@,
                    Ok::<Seq<u8>, ErrorView>((#[trigger] keys@[j])@),
                ),
        decreases specs@.len() - i,
    {
        let spec: &SlotSpec = &specs[i];
        let material: Option<&[u8]> = match spec.dongle {
            Some(d) => Some(d.material.as_slice()),
            None => None,
        };
        match h.open_slot(i, material, spec.pass) {
            Ok(k) => {
                keys.push(k);
            },
            Err(e) => {
                assert forall|j: int| 0 <= j < i implies can_open(h@, j, (#[trigger] specs@[j])@) by {
                    assert(slot_yields(h@, j, specs@[j]@, Ok::<Seq<u8>, ErrorView>(keys@[j]@)));
                }
                return Err(SlotFailure { slot: i, error: e });
            },
        }
        i = i + 1;
    }
    Ok(keys)
}

/// The check of a new vault failed at a keyslot.
pub fn self_check_failed(f: &SlotFailure) -> (s: String)
    ensures
        s@ == "self-check failed on slot "@ + text::decimal_text(f.slot as nat) + " ("@
            + f.error@.text() + "), vault removed"@,
{
    let mut s: String = text::glue(
        "self-check failed on slot ",
        text::decimal(f.slot as u64).as_str(),
    );
    s.append(" (");
    s.append(f.error.message().as_str());
    s.append("), vault removed");
    s
}

/// A vault that was just made passes: each of its keyslots gives out the file key for what its
/// recipe holds, unless hashing the passphrase fails.
pub proof fn law_new_vault_passes(
    slots: Seq<SlotView>,
    specs: Seq<SlotSpec>,
    fk: Seq<u8>,
    i: int,
    r: Result<Seq<u8>, ErrorView>,
)
    requires
        seal::wraps(slots, specs, fk),
        0 <= i < specs.len(),
        slot_yields(slots, i, specs[i]@, r),
    ensures
        r == Ok::<Seq<u8>, ErrorView>(fk) || r == Err::<Seq<u8>, ErrorView>(ErrorView::Argon)
            && specs[i]@.kind.wants_pass() && slot::argon_refused(
            specs[i]@.pass->0,
            slots[i].salt,
            specs[i]@.argon,
        ),
{
    let s = slots[i];
    assert(s == SlotView::wrapping(fk, specs[i]@, s.salt, s.nonce));
    slot::law_wrapped_key_returns(s, specs[i]@, fk, specs[i]@.material(), specs[i]@.pass, r);
}

/// Whether the body came back: it opened, and what came out has the digest of what went in.
pub fn body_check(
    opened: Result<u64, Error>,
    sealed: &[u8; 32],
    reopened: &[u8; 32],
) -> (r: Result<(), String>)
    ensures
        r is Ok <==> opened is Ok && sealed@ == reopened@,
        r matches Err(why) ==> why@ == match opened {
            Err(e) => e@.text(),
            Ok(_) => "plaintext digest differs"@,
        },
{
    match opened {
        Err(e) => Err(e.message()),
        Ok(_) => {
            if bytes::same(sealed.as_slice(), reopened.as_slice()) {
                Ok(())
            } else {
                Err(text::owned("plaintext digest differs"))
            }
        },
    }
}

/// A keyslot that gives nothing out for what its recipe holds fails the check, and one that is not
/// there does.
pub proof fn law_failing_slot_is_noticed(
    slots: Seq<SlotView>,
    i: int,
    spec: SpecView,
    r: Result<Seq<u8>, ErrorView>,
)
    requires
        0 <= i,
        slot_yields(slots, i, spec, r),
    ensures
        i >= slots.len() ==> r == Err::<Seq<u8>, ErrorView>(ErrorView::NoSuchSlot),
        i < slots.len() ==> slots[i].yields(spec.material(), spec.pass, r),
        i < slots.len() && r is Ok ==> slots[i].opens(spec.material(), spec.pass) == r,
{
}

} // verus!
