//! Reading the receivers until two reads in a row agree.

use crate::fingerprint::{
    self, Fingerprint, FingerprintView, FpError, FpErrorView, SlotInfoView,
};
use crate::vault::label;
use crate::vault::{DongleSource, Secret};
use vstd::prelude::*;

verus! {

/// What a fingerprint gives for everything plugged and every occupied slot.
pub open spec fn full_material(fp: FingerprintView) -> Option<Seq<u8>> {
    match fp.material(fp.plugged(), fingerprint::mask_of(fp.slots)) {
        Ok(m) => Some(m),
        Err(_) => None,
    }
}

/// How often the receivers are read at most.
pub const MAX_READS: u8 = 3;

/// What reading the receivers again and again comes to from the `k`-th read on, where `last` is
/// what the read before gave: a fingerprint is handed out once two reads in a row agree.
pub open spec fn collected(
    reads: spec_fn(int) -> Result<FingerprintView, FpErrorView>,
    last: Option<FingerprintView>,
    k: int,
) -> Result<FingerprintView, FpErrorView>
    decreases MAX_READS - k,
{
    if k >= MAX_READS {
        Err(FpErrorView::Unstable)
    } else {
        match reads(k) {
            Err(e) => Err(e),
            Ok(fp) => if last matches Some(prev) && full_material(prev) == full_material(fp) {
                Ok(fp)
            } else {
                collected(reads, Some(fp), k + 1)
            },
        }
    }
}

/// No fingerprint is handed out on the word of one read: the one that is handed out was read right
/// after another that gives the same material.
pub proof fn law_collected_twice(reads: spec_fn(int) -> Result<FingerprintView, FpErrorView>)
    requires
        collected(reads, None, 0) is Ok,
    ensures
        exists|k: int|
            0 <= k < MAX_READS - 1 && (#[trigger] reads(k)) is Ok && reads(k + 1) == collected(
                reads,
                None,
                0,
            ) && full_material(reads(k)->Ok_0) == full_material(reads(k + 1)->Ok_0),
{
    reveal_with_fuel(collected, 4);
    assert(reads(0) is Ok);
    if full_material(reads(0)->Ok_0) == full_material(reads(1)->Ok_0) {
        assert(reads(1) is Ok);
    } else {
        assert(reads(1) is Ok);
        assert(reads(2) is Ok);
    }
}

/// Reads of the receivers under way.
pub struct Collector {
    pub last: Option<Fingerprint>,
    pub reads: u8,
}

/// What comes of a read.
pub enum Collected {
    /// Read the receivers again.
    Again(Collector),
    Done(Fingerprint),
    Fail(FpError),
}

/// What a read gave, as a view.
pub open spec fn read_view(r: Result<Fingerprint, FpError>) -> Result<FingerprintView, FpErrorView> {
    match r {
        Ok(fp) => Ok(fp@),
        Err(e) => Err(e@),
    }
}

impl Collector {
    pub open spec fn wf(self) -> bool {
        &&& self.reads < MAX_READS
        &&& self.last matches Some(fp) ==> fp@.wf()
    }

    pub open spec fn last_view(self) -> Option<FingerprintView> {
        match self.last {
            Some(fp) => Some(fp@),
            None => None,
        }
    }

    pub fn begin() -> (c: Collector)
        ensures
            c.wf(),
            c.last is None,
            c.reads == 0,
    {
        Collector { last: None, reads: 0 }
    }

    /// Takes in what a read gave.
    pub fn step(self, read: Result<Fingerprint, FpError>) -> (c: Collected)
        requires
            self.wf(),
            read matches Ok(fp) ==> fp@.wf(),
        ensures
            match c {
                Collected::Again(next) => {
                    &&& next.wf()
                    &&& next.reads == self.reads + 1
                    &&& forall|reads: spec_fn(int) -> Result<FingerprintView, FpErrorView>|
                        reads(self.reads as int) == read_view(read) ==> #[trigger] collected(
                            reads,
                            self.last_view(),
                            self.reads as int,
                        ) == collected(reads, next.last_view(), next.reads as int)
                },
                Collected::Done(fp) => {
                    &&& fp@.wf()
                    &&& forall|reads: spec_fn(int) -> Result<FingerprintView, FpErrorView>|
                        reads(self.reads as int) == read_view(read) ==> #[trigger] collected(
                            reads,
                            self.last_view(),
                            self.reads as int,
                        ) == Ok::<FingerprintView, FpErrorView>(fp@)
                },
                Collected::Fail(e) => {
                    forall|reads: spec_fn(int) -> Result<FingerprintView, FpErrorView>|
                        reads(self.reads as int) == read_view(read) ==> #[trigger] collected(
                            reads,
                            self.last_view(),
                            self.reads as int,
                        ) == Err::<FingerprintView, FpErrorView>(e@)
                },
            },
    {
        reveal_with_fuel(collected, 2);
        let fp: Fingerprint = match read {
            Ok(fp) => fp,
            Err(e) => return Collected::Fail(e),
        };
        let agree: bool = match &self.last {
            Some(prev) => {
                let a: Result<Secret, String> = prev.material(prev.plugged(), prev.occupied());
                let b: Result<Secret, String> = fp.material(fp.plugged(), fp.occupied());
                match (a, b) {
                    (Ok(a), Ok(b)) => a.same(&b),
                    (Err(_), Err(_)) => true,
                    _ => false,
                }
            },
            None => false,
        };
        if agree {
            Collected::Done(fp)
        } else if self.reads + 1 == MAX_READS {
            Collected::Fail(FpError::Unstable)
        } else {
            Collected::Again(Collector { last: Some(fp), reads: self.reads + 1 })
        }
    }
}

/// Whether a read has a receiver, slot numbers that a mask can hold, and fields of the sizes that
/// the receivers give them.
pub open spec fn in_order(f: FingerprintView) -> bool {
    &&& f.ti_present || f.nano_present
    &&& f.wf()
    &&& f.regular()
    &&& forall|i: int|
        0 <= i < f.slots.len() && (#[trigger] f.slots[i]).record is Some
            ==> f.slots[i].record->0.len() == 16
}

/// Whether two reads agree: on the receivers and their serial numbers, on which slots are occupied,
/// and on the product id, the serial number and the record of the device in every occupied slot of
/// the TI receiver.
pub open spec fn agree(a: FingerprintView, b: FingerprintView) -> bool {
    &&& a.ti_present == b.ti_present
    &&& a.nano_present == b.nano_present
    &&& a.ti_present ==> a.receiver_serial == b.receiver_serial
    &&& a.nano_present ==> a.nano_serial == b.nano_serial
    &&& forall|n: u8|
        1 <= n <= 8 ==> #[trigger] fingerprint::has_device(a.slots, n) == fingerprint::has_device(
            b.slots,
            n,
        )
    &&& a.ti_present ==> forall|n: u8, i: int, j: int|
        1 <= n <= 6 && #[trigger] fingerprint::first_in(a.slots, n, i)
            && #[trigger] fingerprint::first_in(b.slots, n, j) ==> {
            &&& a.slots[i].wpid == b.slots[j].wpid
            &&& a.slots[i].serial == b.slots[j].serial
            &&& a.slots[i].record == b.slots[j].record
        }
}

/// A fingerprint is handed out after the second of two reads in a row that agree on everything that
/// counts, within three reads; a read that fails ends it, and three reads without two that agree are
/// refused.
pub proof fn law_two_reads_agree(reads: spec_fn(int) -> Result<FingerprintView, FpErrorView>)
    requires
        forall|k: int| 0 <= k < 3 ==> (#[trigger] reads(k) matches Ok(f) ==> in_order(f)),
    ensures
        collected(reads, None, 0) == match (reads(0), reads(1), reads(2)) {
            (Ok(a), Ok(b), third) => if agree(a, b) {
                Ok(b)
            } else {
                match third {
                    Ok(c) => if agree(b, c) {
                        Ok(c)
                    } else {
                        Err(FpErrorView::Unstable)
                    },
                    Err(e) => Err(e),
                }
            },
            (Ok(_), Err(e), _) => Err(e),
            (Err(e), _, _) => Err(e),
        },
{
    reveal_with_fuel(collected, 4);
    if let (Ok(a), Ok(b)) = (reads(0), reads(1)) {
        lemma_agree(a, b);
        if let Ok(c) = reads(2) {
            lemma_agree(b, c);
        }
    }
}

/// What is handed out was read right after another read that agrees with it.
pub proof fn law_handed_out_was_confirmed(
    reads: spec_fn(int) -> Result<FingerprintView, FpErrorView>,
    fp: FingerprintView,
)
    requires
        forall|k: int| 0 <= k < 3 ==> (#[trigger] reads(k) matches Ok(f) ==> in_order(f)),
        collected(reads, None, 0) == Ok::<FingerprintView, FpErrorView>(fp),
    ensures
        exists|k: int|
            0 <= k < 2 && (#[trigger] reads(k)) is Ok && reads(k + 1) == Ok::<
                FingerprintView,
                FpErrorView,
            >(fp) && agree(reads(k)->Ok_0, fp),
{
    law_two_reads_agree(reads);
    assert(reads(0) is Ok);
    assert(reads(0int + 1) is Ok);
    if !agree(reads(0)->Ok_0, reads(1)->Ok_0) {
        assert(reads(1int + 1) is Ok);
    }
}

/// Two reads that are in order give the same material exactly if they agree.
proof fn lemma_agree(a: FingerprintView, b: FingerprintView)
    requires
        in_order(a),
        in_order(b),
    ensures
        agree(a, b) <==> full_material(a) == full_material(b),
{
    let (p, q) = (a.plugged(), b.plugged());
    let (m, o) = (fingerprint::mask_of(a.slots), fingerprint::mask_of(b.slots));
    lemma_has_material(a);
    lemma_has_material(b);
    lemma_masks(a.slots, b.slots);
    if agree(a, b) {
        assert forall|n: u8| 1 <= n <= 6 && label::binds(m, n as int) && a.ti_present implies
            #[trigger] fingerprint::same_device(a, b, n) by {
            fingerprint::law_found_device(a.slots, n);
            fingerprint::law_found_device(b.slots, n);
            assert(fingerprint::has_device(a.slots, n) == fingerprint::has_device(b.slots, n));
        }
        lemma_bits(p, a.ti_present, a.nano_present);
        fingerprint::law_material_ignores_the_rest(a, b, p, m);
    } else if full_material(a) == full_material(b) {
        fingerprint::law_material_tells_all(a, b, p, m, q, o);
        lemma_bits(p, a.ti_present, a.nano_present);
        lemma_bits(q, b.ti_present, b.nano_present);
        if a.ti_present {
            assert forall|n: u8, i: int, j: int|
                1 <= n <= 6 && #[trigger] fingerprint::first_in(a.slots, n, i)
                    && #[trigger] fingerprint::first_in(b.slots, n, j) implies {
                &&& a.slots[i].wpid == b.slots[j].wpid
                &&& a.slots[i].serial == b.slots[j].serial
                &&& a.slots[i].record == b.slots[j].record
            } by {
                assert(fingerprint::has_device(a.slots, n));
                fingerprint::law_occupied_slots(a.slots, n);
                fingerprint::law_material_tells_devices(a, b, p, m, n, i, j);
            }
        }
        assert(agree(a, b));
    }
}

proof fn lemma_bits(mask: u8, ti: bool, nano: bool)
    requires
        mask == match (ti, nano) {
            (true, true) => 3u8,
            (true, false) => 1u8,
            (false, true) => 2u8,
            (false, false) => 0u8,
        },
    ensures
        mask & 1 != 0 <==> ti,
        mask & 2 != 0 <==> nano,
{
    assert(3u8 & 1 != 0 && 3u8 & 2 != 0 && 1u8 & 1 != 0 && 1u8 & 2 == 0 && 2u8 & 1 == 0 && 2u8 & 2
        != 0 && 0u8 & 1 == 0 && 0u8 & 2 == 0) by (bit_vector);
}

/// There is material for everything plugged and every occupied slot.
proof fn lemma_has_material(f: FingerprintView)
    requires
        in_order(f),
    ensures
        f.material(f.plugged(), fingerprint::mask_of(f.slots)) is Ok,
{
    lemma_bits(f.plugged(), f.ti_present, f.nano_present);
    let m = fingerprint::mask_of(f.slots);
    fingerprint::law_material_refused(f, f.plugged(), m);
    assert forall|n: u8| 1 <= n <= 6 && m & (1u8 << ((n - 1) as u8)) != 0 implies
        #[trigger] fingerprint::has_device(f.slots, n) by {
        fingerprint::law_occupied_slots(f.slots, n);
    }
}

/// Two masks of occupied slots are the same exactly if the slots are.
proof fn lemma_masks(a: Seq<SlotInfoView>, b: Seq<SlotInfoView>)
    requires
        forall|i: int| 0 <= i < a.len() ==> 1 <= (#[trigger] a[i]).slot <= 8,
        forall|i: int| 0 <= i < b.len() ==> 1 <= (#[trigger] b[i]).slot <= 8,
    ensures
        fingerprint::mask_of(a) == fingerprint::mask_of(b) <==> forall|n: u8|
            1 <= n <= 8 ==> #[trigger] fingerprint::has_device(a, n) == fingerprint::has_device(
                b,
                n,
            ),
{
    let (m, o) = (fingerprint::mask_of(a), fingerprint::mask_of(b));
    assert forall|n: u8| 1 <= n <= 8 implies {
        &&& m & (1u8 << ((n - 1) as u8)) != 0 <==> #[trigger] fingerprint::has_device(a, n)
        &&& o & (1u8 << ((n - 1) as u8)) != 0 <==> fingerprint::has_device(b, n)
    } by {
        fingerprint::law_occupied_slots(a, n);
        fingerprint::law_occupied_slots(b, n);
    }
    if forall|n: u8|
        1 <= n <= 8 ==> #[trigger] fingerprint::has_device(a, n) == fingerprint::has_device(b, n) {
        assert forall|k: u8| k < 8 implies (#[trigger] (m & (1u8 << k)) != 0 <==> o & (1u8 << k)
            != 0) by {
            assert(fingerprint::has_device(a, (k + 1) as u8) == fingerprint::has_device(
                b,
                (k + 1) as u8,
            ));
        }
        fingerprint::lemma_same_bits(m, o);
    }
}

} // verus!
