//! Short human descriptions of receiver and slot masks.

use crate::text;
use vstd::prelude::*;

verus! {

/// Mask bit of the TI receiver (CU-0008).
pub const DONGLE_TI: u8 = 1;

/// Mask bit of the Nano receiver (CU-0010).
pub const DONGLE_NANO: u8 = 2;

/// Whether a receiver mask holds the TI receiver.
pub open spec fn has_ti(mask: u8) -> bool {
    mask & DONGLE_TI != 0
}

/// Whether a receiver mask holds the Nano receiver.
pub open spec fn has_nano(mask: u8) -> bool {
    mask & DONGLE_NANO != 0
}

/// Whether a bind mask holds receiver slot `slot` (1 to 6).
pub open spec fn binds(bind: u8, slot: int) -> bool {
    bind & (1u8 << ((slot - 1) as u8)) != 0
}

/// The receivers of a mask.
pub open spec fn dongles_text(mask: u8) -> Seq<char> {
    if has_ti(mask) && has_nano(mask) {
        "TI+Nano"@
    } else if has_ti(mask) {
        "TI"@
    } else if has_nano(mask) {
        "Nano"@
    } else {
        "none"@
    }
}

/// The slots of a bind mask from 1 to `upto`, in order, with commas between them.
pub open spec fn slot_list(bind: u8, upto: int) -> Seq<char>
    decreases upto,
{
    if upto <= 0 {
        Seq::empty()
    } else if !binds(bind, upto) {
        slot_list(bind, upto - 1)
    } else if slot_list(bind, upto - 1).len() == 0 {
        seq![text::digit(upto)]
    } else {
        slot_list(bind, upto - 1) + ","@ + seq![text::digit(upto)]
    }
}

/// The slots of a bind mask, in words.
pub open spec fn bind_text(bind: u8) -> Seq<char> {
    if slot_list(bind, 6).len() == 0 {
        "receiver only"@
    } else {
        "slots "@ + slot_list(bind, 6)
    }
}

/// Human list of the receivers in a mask.
pub fn dongles_label(mask: u8) -> (s: String)
    ensures
        s@ == dongles_text(mask),
{
    let ti: bool = mask & DONGLE_TI != 0;
    let nano: bool = mask & DONGLE_NANO != 0;
    if ti && nano {
        String::from_str("TI+Nano")
    } else if ti {
        String::from_str("TI")
    } else if nano {
        String::from_str("Nano")
    } else {
        String::from_str("none")
    }
}

/// Human list of the receiver slots in a bind mask.
pub fn bind_label(bind: u8) -> (s: String)
    ensures
        s@ == bind_text(bind),
{
    let mut list: String = String::new();
    let mut slot: u8 = 1;
    while slot <= 6
        invariant
            1 <= slot <= 7,
            list@ =~= slot_list(bind, slot - 1),
        decreases 7 - slot,
    {
        if bind & (1u8 << (slot - 1)) != 0 {
            let first: bool = list.as_str().is_empty();
            if !first {
                list.append(",");
            }
            text::push_digit(&mut list, slot);
        }
        slot = slot + 1;
    }
    if list.as_str().is_empty() {
        String::from_str("receiver only")
    } else {
        let mut s: String = String::from_str("slots ");
        s.append(list.as_str());
        s
    }
}

/// The receivers of a mask are named by its two lowest bits.
pub proof fn law_dongles_named(mask: u8)
    ensures
        mask % 4 == 0 ==> dongles_text(mask) == "none"@,
        mask % 4 == 1 ==> dongles_text(mask) == "TI"@,
        mask % 4 == 2 ==> dongles_text(mask) == "Nano"@,
        mask % 4 == 3 ==> dongles_text(mask) == "TI+Nano"@,
{
    assert(mask & 1 != 0 <==> mask % 2 == 1) by (bit_vector);
    assert(mask & 2 != 0 <==> mask % 4 >= 2) by (bit_vector);
}

/// The list of a binding names slot `n` exactly if its bit is set, with a single digit; without any
/// slot it is the receiver alone.
pub proof fn law_bound_slots_named(bind: u8, n: int)
    requires
        1 <= n <= 6,
    ensures
        slot_list(bind, 6).contains(('0' as u32 + n) as char) <==> bind & (1u8 << ((n - 1) as u8))
            != 0,
        bind % 64 == 0 ==> bind_text(bind) == "receiver only"@,
        bind % 64 != 0 ==> bind_text(bind) == "slots "@ + slot_list(bind, 6),
{
    lemma_listed(bind, 6, n);
    lemma_listed(bind, 6, 1);
    lemma_listed(bind, 6, 2);
    lemma_listed(bind, 6, 3);
    lemma_listed(bind, 6, 4);
    lemma_listed(bind, 6, 5);
    lemma_listed(bind, 6, 6);
    lemma_unlisted(bind, 6);
    assert(bind % 64 == 0 <==> bind & (1u8 << 0) == 0 && bind & (1u8 << 1) == 0 && bind & (1u8
        << 2) == 0 && bind & (1u8 << 3) == 0 && bind & (1u8 << 4) == 0 && bind & (1u8 << 5)
        == 0) by (bit_vector);
    let list = slot_list(bind, 6);
    assert(binds(bind, 1) == (bind & (1u8 << 0) != 0));
    assert(binds(bind, 2) == (bind & (1u8 << 1) != 0));
    assert(binds(bind, 3) == (bind & (1u8 << 2) != 0));
    assert(binds(bind, 4) == (bind & (1u8 << 3) != 0));
    assert(binds(bind, 5) == (bind & (1u8 << 4) != 0));
    assert(binds(bind, 6) == (bind & (1u8 << 5) != 0));
}

proof fn lemma_listed(bind: u8, upto: int, n: int)
    requires
        0 <= upto <= 6,
        1 <= n <= 6,
    ensures
        slot_list(bind, upto).contains(('0' as u32 + n) as char) <==> n <= upto && binds(bind, n),
    decreases upto,
{
    if upto > 0 {
        lemma_listed(bind, upto - 1, n);
        reveal_strlit(",");
        let before = slot_list(bind, upto - 1);
        let list = slot_list(bind, upto);
        let c = ('0' as u32 + n) as char;
        if binds(bind, upto) {
            let last = text::digit(upto);
            assert(list.last() == last);
            if before.contains(c) {
                let i = choose|i: int| 0 <= i < before.len() && before[i] == c;
                assert(list[i] == c);
            }
            if list.contains(c) {
                let i = choose|i: int| 0 <= i < list.len() && list[i] == c;
                if i < before.len() {
                    assert(before[i] == c);
                }
            }
            if n == upto {
                assert(list[list.len() - 1] == c);
            }
        }
    }
}

/// Without a bound slot there is nothing to list.
proof fn lemma_unlisted(bind: u8, upto: int)
    requires
        0 <= upto <= 6,
    ensures
        slot_list(bind, upto).len() == 0 <==> forall|n: int|
            1 <= n <= upto ==> !#[trigger] binds(bind, n),
    decreases upto,
{
    if upto > 0 {
        lemma_unlisted(bind, upto - 1);
        if binds(bind, upto) {
            assert(slot_list(bind, upto).len() > 0);
        }
    }
}

} // verus!
