//! Trying the keyslots of a vault one after the other.

use crate::text;
use crate::vault::error::{self, Error, ErrorView};
use crate::vault::header::Header;
use crate::vault::kind::Kind;
use crate::vault::secret::{Key, Secret};
use crate::vault::slot::{self, DongleSource, Slot, SlotView};
use vstd::prelude::*;

verus! {

/// What trying one keyslot came to.
pub enum Attempt {
    /// The keyslot opened.
    Opened(Key),
    /// It did not open, for this reason; the next one can be tried.
    Refused(String),
}

/// What trying one keyslot came to, with bytes and texts as sequences.
pub enum AttemptView {
    Opened(Seq<u8>),
    Refused(Seq<char>),
}

impl View for Attempt {
    type V = AttemptView;

    open spec fn view(&self) -> AttemptView {
        match self {
            Attempt::Opened(k) => AttemptView::Opened(k@),
            Attempt::Refused(w) => AttemptView::Refused(w@),
        }
    }
}

/// The reason `why` keyslot `i` did not open, as it is listed.
pub open spec fn reason(i: int, s: SlotView, why: Seq<char>) -> Seq<char> {
    "slot "@ + text::decimal_text(i as nat) + " ("@ + s.description() + "): "@ + why
}

/// Why a keyslot whose unwrapping ended in `e` did not open.
pub open spec fn refusal(s: SlotView, e: ErrorView) -> Seq<char> {
    match e {
        ErrorView::WrongKey => if s.kind.wants_pass() {
            "wrong passphrase"@
        } else {
            "dongle material mismatch"@
        },
        _ => e.text(),
    }
}

/// What the outcome of unwrapping keyslot `i` means for the search.
pub open spec fn verdict(i: int, s: SlotView, r: Result<Seq<u8>, ErrorView>) -> AttemptView {
    match r {
        Ok(k) => AttemptView::Opened(k),
        Err(e) => AttemptView::Refused(reason(i, s, refusal(s, e))),
    }
}

/// Whether trying keyslot `i` can come to `a`, where the check against the receivers gave `check`
/// and the user answered `pass`.
pub open spec fn comes_to(
    i: int,
    s: SlotView,
    check: Result<Option<Seq<u8>>, Seq<char>>,
    pass: Option<Seq<u8>>,
    a: AttemptView,
) -> bool {
    match check {
        Err(why) => a == AttemptView::Refused(reason(i, s, why)),
        Ok(material) => if s.kind.wants_pass() && pass is None {
            a == AttemptView::Refused(reason(i, s, "no passphrase given"@))
        } else {
            exists|r: Result<Seq<u8>, ErrorView>|
                a == verdict(i, s, r) && #[trigger] s.yields(material, pass, r)
        },
    }
}

/// The bytes of an optional secret.
pub open spec fn secret_view(s: Option<Secret>) -> Option<Seq<u8>> {
    match s {
        Some(s) => Some(s@),
        None => None,
    }
}

fn because(i: usize, s: &Slot, why: &str) -> (r: String)
    ensures
        r@ == reason(i as int, s@, why@),
{
    let mut r: String = text::glue("slot ", text::decimal(i as u64).as_str());
    r.append(" (");
    r.append(s.describe().as_str());
    r.append("): ");
    r.append(why);
    r
}

impl Slot {
    /// Tries this keyslot, the `i`-th of its vault, with what the receivers and the user gave.
    pub fn attempt(
        &self,
        i: usize,
        check: Result<Option<Secret>, String>,
        pass: Option<Secret>,
    ) -> (a: Attempt)
        ensures
            comes_to(i as int, self@, slot::checked(check), secret_view(pass), a@),
            a matches Attempt::Opened(k) ==> check is Ok && self@.opens(
                slot::checked(check)->Ok_0,
                secret_view(pass),
            ) == Ok::<Seq<u8>, ErrorView>(k@),
    {
        let material: Option<Secret> = match check {
            Ok(m) => m,
            Err(why) => return Attempt::Refused(because(i, self, why.as_str())),
        };
        if self.needs_pass() && pass.is_none() {
            return Attempt::Refused(because(i, self, "no passphrase given"));
        }
        let m: Option<&[u8]> = match &material {
            Some(m) => Some(m.as_slice()),
            None => None,
        };
        let p: Option<&[u8]> = match &pass {
            Some(p) => Some(p.as_slice()),
            None => None,
        };
        let got: Result<Key, Error> = self.unwrap(m, p);
        assert(self@.yields(slot::checked(check)->Ok_0, secret_view(pass), slot::unwrapped(got)));
        match got {
            Ok(k) => Attempt::Opened(k),
            Err(Error::WrongKey) => Attempt::Refused(
                because(
                    i,
                    self,
                    if self.needs_pass() {
                        "wrong passphrase"
                    } else {
                        "dongle material mismatch"
                    },
                ),
            ),
            Err(e) => Attempt::Refused(because(i, self, e.message().as_str())),
        }
    }
}

/// A keyslot that was tried: what the receivers gave, what the user answered, what it came to.
pub struct Try {
    pub check: Result<Option<Seq<u8>>, Seq<char>>,
    pub answer: Option<Seq<u8>>,
    pub outcome: AttemptView,
}

/// Whether `t` can be the record of trying keyslot `i`: the receivers were asked for the material,
/// the user only where the keyslot needs a passphrase and the receivers do not rule it out.
pub open spec fn tried<D: DongleSource + ?Sized, F: FnMut(usize, &Slot) -> Option<Secret>>(
    ask: F,
    slots: Seq<Slot>,
    src: Option<&D>,
    i: int,
    t: Try,
) -> bool {
    &&& slot::checks_to::<D>(slots[i]@, src, t.check)
    &&& if t.check is Ok && slots[i]@.kind.wants_pass() {
        exists|o: Option<Secret>|
            secret_view(o) == t.answer && #[trigger] call_ensures(ask, (i as usize, &slots[i]), o)
    } else {
        t.answer is None
    }
    &&& comes_to(i, slots[i]@, t.check, t.answer, t.outcome)
}

/// Whether `h` can be the record of a search through the keyslots: they were tried in order, and
/// none but the last one tried did anything but refuse.
pub open spec fn searched<D: DongleSource + ?Sized, F: FnMut(usize, &Slot) -> Option<Secret>>(
    ask: F,
    slots: Seq<Slot>,
    src: Option<&D>,
    h: Seq<Try>,
) -> bool {
    &&& h.len() <= slots.len()
    &&& forall|i: int| 0 <= i < h.len() ==> tried::<D, F>(ask, slots, src, i, #[trigger] h[i])
    &&& forall|i: int| 0 <= i < h.len() - 1 ==> (#[trigger] h[i]).outcome is Refused
}

/// Whether a search can come to ask for the passphrase of keyslot `i`: the keyslot needs one, the
/// receivers do not rule it out, and every keyslot before it was tried and can have refused.
pub open spec fn may_ask<D: DongleSource + ?Sized, F: FnMut(usize, &Slot) -> Option<Secret>>(
    ask: F,
    slots: Seq<Slot>,
    src: Option<&D>,
    i: int,
) -> bool {
    &&& 0 <= i < slots.len()
    &&& slots[i]@.kind.wants_pass()
    &&& exists|c: Result<Option<Seq<u8>>, Seq<char>>|
        c is Ok && #[trigger] slot::checks_to::<D>(slots[i]@, src, c)
    &&& exists|h: Seq<Try>|
        h.len() == i && all_refused(h) && #[trigger] searched::<D, F>(ask, slots, src, h)
}

/// Whether every keyslot that was tried refused.
pub open spec fn all_refused(h: Seq<Try>) -> bool {
    forall|j: int| 0 <= j < h.len() ==> (#[trigger] h[j]).outcome is Refused
}

/// The reasons for which keyslots refused, in order.
pub open spec fn reasons_of(h: Seq<Try>) -> Seq<Seq<char>> {
    Seq::new(h.len(), |i: int| h[i].outcome->Refused_0)
}

/// What a search returns.
pub open spec fn search_result(h: Seq<Try>) -> Result<(int, Seq<u8>), ErrorView> {
    if h.len() > 0 && h.last().outcome is Opened {
        Ok((h.len() - 1, h.last().outcome->Opened_0))
    } else {
        Err(ErrorView::NoUsableSlot(reasons_of(h)))
    }
}

/// A search ends at a keyslot that opens, or else with the last keyslot.
pub open spec fn search_ended(n: nat, h: Seq<Try>) -> bool {
    h.len() == n || h.len() > 0 && h.last().outcome is Opened
}

/// A search that reaches a keyslot for which the receivers and the user give what it takes opens
/// it: the search ends there, with the file key that the keyslot opens to. Only where hashing the
/// passphrase fails is the keyslot refused instead, for that reason, and the search goes on.
pub proof fn law_reached_slot_opens<
    D: DongleSource + ?Sized,
    F: FnMut(usize, &Slot) -> Option<Secret>,
>(
    ask: F,
    slots: Seq<Slot>,
    src: Option<&D>,
    h: Seq<Try>,
    i: int,
    material: Option<Seq<u8>>,
    pass: Option<Seq<u8>>,
    fk: Seq<u8>,
)
    requires
        searched::<D, F>(ask, slots, src, h),
        0 <= i < h.len(),
        slots[i]@.kind.wants_dongle() ==> {
            &&& src matches Some(d) && forall|got: Result<Secret, String>| #[trigger]
                call_ensures(D::material, (d, slots[i].dongles, slots[i].bind), got)
                    ==> slot::answered(got) == Ok::<Seq<u8>, Seq<char>>(material->0)
            &&& slot::kid_of(material->0) == slots[i]@.kid
        },
        slots[i]@.kind.wants_pass() ==> forall|o: Option<Secret>| #[trigger]
            call_ensures(ask, (i as usize, &slots[i]), o) ==> secret_view(o) == pass,
        slots[i]@.opens(material, pass) == Ok::<Seq<u8>, ErrorView>(fk),
    ensures
        ({
            ||| h.len() == i + 1 && search_result(h) == Ok::<(int, Seq<u8>), ErrorView>((i, fk))
            ||| slots[i]@.kind.wants_pass() && slot::argon_refused(
                pass->0,
                slots[i]@.salt,
                slots[i]@.argon,
            ) && h[i].outcome == AttemptView::Refused(
                reason(i, slots[i]@, ErrorView::Argon.text()),
            )
        }),
{
    let s = slots[i]@;
    let t = h[i];
    assert(tried::<D, F>(ask, slots, src, i, t));
    assert(t.check is Ok);
    let m = t.check->Ok_0;
    assert(s.kind.wants_dongle() ==> m == material);
    assert(s.kind.wants_pass() ==> t.answer == pass);
    assert(s.opens(m, t.answer) == s.opens(material, pass));
}

/// A keyslot that refuses never ends a search, whatever the reason: behind keyslots that refused
/// the next one is tried, and if it opens, its key is what the search finds.
pub proof fn law_search_tries_all<
    D: DongleSource + ?Sized,
    F: FnMut(usize, &Slot) -> Option<Secret>,
>(ask: F, slots: Seq<Slot>, src: Option<&D>, h: Seq<Try>, i: int)
    requires
        searched::<D, F>(ask, slots, src, h),
        search_ended(slots.len(), h),
        0 <= i < slots.len(),
        forall|j: int| 0 <= j < i && j < h.len() ==> (#[trigger] h[j]).outcome is Refused,
    ensures
        i < h.len(),
        tried::<D, F>(ask, slots, src, i, h[i]),
        h[i].outcome is Opened ==> search_result(h) == Ok::<(int, Seq<u8>), ErrorView>(
            (i, h[i].outcome->Opened_0),
        ),
{
}

/// A search that opened nothing tried every keyslot, and lists the reason of each in order.
pub proof fn law_every_reason_listed<
    D: DongleSource + ?Sized,
    F: FnMut(usize, &Slot) -> Option<Secret>,
>(ask: F, slots: Seq<Slot>, src: Option<&D>, h: Seq<Try>, reasons: Seq<Seq<char>>)
    requires
        searched::<D, F>(ask, slots, src, h),
        search_ended(slots.len(), h),
        search_result(h) == Err::<(int, Seq<u8>), ErrorView>(ErrorView::NoUsableSlot(reasons)),
    ensures
        h.len() == slots.len(),
        reasons.len() == slots.len(),
        forall|i: int|
            0 <= i < reasons.len() ==> (#[trigger] h[i]).outcome == AttemptView::Refused(
                reasons[i],
            ),
{
}

/// What a search returned, with the key as a byte sequence.
pub open spec fn found(r: Result<(usize, Key), Error>) -> Result<(int, Seq<u8>), ErrorView> {
    match r {
        Ok((i, k)) => Ok((i as int, k@)),
        Err(e) => Err(e@),
    }
}

impl Header {
    /// Try every slot in order. `ask` is called for slots that need a passphrase (return `None` to
    /// skip). Errors list why each slot failed. No other call of `ask` has to be possible than that
    /// for a slot of this header which needs a passphrase, which the receivers do not rule out, and
    /// before which no slot opened.
    ///
    /// That `ask` is unchanged is said of it as a value: a closure is a value without state here,
    /// and what its captures do between calls is not described.
    pub fn unlock_any<D: DongleSource + ?Sized, F: FnMut(usize, &Slot) -> Option<Secret>>(
        &self,
        src: Option<&D>,
        ask: &mut F,
    ) -> (r: Result<(usize, Key), Error>)
        requires
            forall|i: usize|
                may_ask::<D, F>(*old(ask), self.slots@, src, i as int) ==> #[trigger] call_requires(
                    *old(ask),
                    (i, &self.slots@[i as int]),
                ),
        ensures
            *final(ask) == *old(ask),
            exists|h: Seq<Try>|
                #[trigger] searched::<D, F>(*old(ask), self.slots@, src, h) && search_ended(
                    self.slots@.len(),
                    h,
                ) && found(r) == search_result(h),
            match r {
                Ok((i, k)) => i < self.slots@.len() && exists|h: Seq<Try>| #[trigger]
                    searched::<D, F>(*old(ask), self.slots@, src, h) && h.len() == i + 1
                        && h.last().outcome == AttemptView::Opened(k@),
                Err(e) => e matches Error::NoUsableSlot(reasons) && reasons@.len()
                    == self.slots@.len(),
            },
    {
        let mut reasons: Vec<String> = Vec::new();
        let ghost mut h: Seq<Try> = Seq::empty();
        assert(error::texts(reasons@) =~= reasons_of(h));
        let mut i: usize = 0;
        while i < self.slots.len()
            invariant
                i <= self.slots@.len(),
                h.len() == i,
                forall|i: usize|
                    may_ask::<D, F>(*old(ask), self.slots@, src, i as int)
                        ==> #[trigger] call_requires(*old(ask), (i, &self.slots@[i as int])),
                *ask == *old(ask),
                searched::<D, F>(*old(ask), self.slots@, src, h),
                forall|j: int| 0 <= j < i ==> (#[trigger] h[j]).outcome is Refused,
                error::texts(reasons@) == reasons_of(h),
            decreases self.slots@.len() - i,
        {
            let s: &Slot = &self.slots[i];
            let check: Result<Option<Secret>, String> = s.check_dongle(src);
            let ghost c = slot::checked(check);
            assert(slot::checks_to::<D>(self.slots@[i as int]@, src, c));
            assert(check is Ok && s@.kind.wants_pass() ==> may_ask::<D, F>(
                *old(ask),
                self.slots@,
                src,
                i as int,
            ));
            let pass: Option<Secret> = if check.is_ok() && s.needs_pass() {
                ask(i, s)
            } else {
                None
            };
            let ghost p = secret_view(pass);
            let a: Attempt = s.attempt(i, check, pass);
            let ghost t = Try { check: c, answer: p, outcome: a@ };
            let ghost longer = h.push(t);
            assert(tried::<D, F>(*old(ask), self.slots@, src, i as int, t));
            assert(searched::<D, F>(*old(ask), self.slots@, src, longer)) by {
                assert forall|j: int| 0 <= j < longer.len() implies tried::<D, F>(
                    *old(ask),
                    self.slots@,
                    src,
                    j,
                    #[trigger] longer[j],
                ) by {
                    if j < i {
                        assert(longer[j] == h[j]);
                    }
                }
            }
            let ghost shorter = h;
            proof {
                h = longer;
            }
            match a {
                Attempt::Opened(k) => {
                    return Ok((i, k));
                },
                Attempt::Refused(why) => {
                    let ghost before = reasons@;
                    reasons.push(why);
                    assert(error::texts(reasons@) =~= error::texts(before).push(why@));
                    assert(reasons_of(h) =~= reasons_of(h.drop_last()).push(why@));
                    assert(h.drop_last() =~= shorter);
                },
            }
            i = i + 1;
        }
        Err(Error::NoUsableSlot(reasons))
    }
}

/// What trying a keyslot comes to: where the receivers rule it out, their reason; where a passphrase
/// is asked for and none is given, that; else what unwrapping gives, and if the key is wrong, which
/// factor is. A reason starts with the number of the keyslot and its description.
pub proof fn law_attempt(
    i: int,
    s: SlotView,
    check: Result<Option<Seq<u8>>, Seq<char>>,
    pass: Option<Seq<u8>>,
    a: AttemptView,
)
    requires
        comes_to(i, s, check, pass, a),
    ensures
        ({
            let refused = |why: Seq<char>|
                AttemptView::Refused(
                    "slot "@ + text::decimal_text(i as nat) + " ("@ + s.description() + "): "@
                        + why,
                );
            match check {
                Err(why) => a == refused(why),
                Ok(material) => if s.kind != Kind::Dongle && pass is None {
                    a == refused("no passphrase given"@)
                } else {
                    exists|r: Result<Seq<u8>, ErrorView>| #[trigger]
                        s.yields(material, pass, r) && match r {
                            Ok(k) => a == AttemptView::Opened(k),
                            Err(ErrorView::WrongKey) => a == refused(
                                if s.kind == Kind::Dongle {
                                    "dongle material mismatch"@
                                } else {
                                    "wrong passphrase"@
                                },
                            ),
                            Err(e) => a == refused(e.text()),
                        }
                },
            }
        }),
{
}

/// A search goes through the keyslots from the first one on, without leaving any out, and stops at
/// the first that opens. Each is tried with what the receivers give for it, and with what the user
/// answers for it where it takes a passphrase and the receivers do not rule it out. What is found is
/// the keyslot that opened and its key; if none did, the reasons of all of them in order.
pub proof fn law_search<D: DongleSource + ?Sized, F: FnMut(usize, &Slot) -> Option<Secret>>(
    ask: F,
    slots: Seq<Slot>,
    src: Option<&D>,
    h: Seq<Try>,
)
    requires
        searched::<D, F>(ask, slots, src, h),
        search_ended(slots.len(), h),
    ensures
        forall|i: int|
            #![trigger h[i]]
            0 <= i < h.len() ==> {
                &&& slot::checks_to::<D>(slots[i]@, src, h[i].check)
                &&& h[i].check is Ok && slots[i].kind != Kind::Dongle ==> exists|o: Option<Secret>|
                    #[trigger]
                    call_ensures(ask, (i as usize, &slots[i]), o) && match o {
                        Some(p) => h[i].answer == Some(p@),
                        None => h[i].answer is None,
                    }
                &&& h[i].check is Err || slots[i].kind == Kind::Dongle ==> h[i].answer is None
                &&& comes_to(i, slots[i]@, h[i].check, h[i].answer, h[i].outcome)
            },
        match search_result(h) {
            Ok((i, k)) => {
                &&& 0 <= i < slots.len()
                &&& h.len() == i + 1
                &&& h[i].outcome == AttemptView::Opened(k)
                &&& forall|j: int| 0 <= j < i ==> (#[trigger] h[j]).outcome is Refused
            },
            Err(e) => {
                &&& h.len() == slots.len()
                &&& e matches ErrorView::NoUsableSlot(reasons) && reasons.len() == slots.len()
                    && forall|j: int|
                    0 <= j < h.len() ==> (#[trigger] h[j]).outcome == AttemptView::Refused(
                        reasons[j],
                    )
            },
        },
{
    assert forall|i: int|
        #![trigger h[i]]
        0 <= i < h.len() && h[i].check is Ok && slots[i].kind != Kind::Dongle implies exists|
        o: Option<Secret>,
    | #[trigger]
        call_ensures(ask, (i as usize, &slots[i]), o) && match o {
            Some(p) => h[i].answer == Some(p@),
            None => h[i].answer is None,
        } by {
        assert(tried::<D, F>(ask, slots, src, i, h[i]));
        let o = choose|o: Option<Secret>|
            secret_view(o) == h[i].answer && #[trigger] call_ensures(
                ask,
                (i as usize, &slots[i]),
                o,
            );
        assert(call_ensures(ask, (i as usize, &slots[i]), o));
    }
}

} // verus!
