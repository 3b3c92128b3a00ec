//! What the window writes and paints, apart from colours and fonts.

use crate::fingerprint::{self, FingerprintView, SlotInfoView};
use crate::fsio::Hasher;
use crate::gui::app::App;
use crate::gui::status::{self, Status};
use crate::gui::{Level, Mode};
use crate::text;
use crate::vault::crypto;
use crate::vault::label;
use crate::vault::slot::{self, SlotView};
use vstd::prelude::*;
use vstd::string::*;

verus! {

/// The picture of a public key id: five rows of five cells, the right half mirroring the left.
pub struct Identicon {
    /// How light the cells are.
    pub shade: u8,
    pub cells: [[bool; 5]; 5],
}

/// Whether a cell is filled, by the digest of the key id.
pub open spec fn cell_filled(digest: Seq<u8>, row: int, col: int) -> bool {
    let c = if col < 3 {
        col
    } else {
        4 - col
    };
    digest[3 + (row * 3 + c) % 29] % 2 == 0
}

/// The picture is the same when it is mirrored.
pub proof fn law_identicon_mirrored(digest: Seq<u8>, row: int, col: int)
    requires
        0 <= col < 5,
    ensures
        cell_filled(digest, row, col) == cell_filled(digest, row, 4 - col),
{
}

/// The picture of a key id.
pub fn identicon(kid: &[u8; 8]) -> (p: Identicon)
    ensures
        p.shade == 150 + crypto::sha256_output(kid@)[0] % 60,
        forall|row: int, col: int|
            0 <= row < 5 && 0 <= col < 5 ==> (#[trigger] p.cells@[row]@[col]) == cell_filled(
                crypto::sha256_output(kid@),
                row,
                col,
            ),
{
    let mut hasher: Hasher = Hasher::new();
    hasher.update(kid.as_slice());
    assert(hasher@ =~= kid@);
    let h: [u8; 32] = hasher.digest();
    identicon_of(&h)
}

/// The picture of a digest.
pub fn identicon_of(h: &[u8; 32]) -> (p: Identicon)
    ensures
        p.shade == 150 + h@[0] % 60,
        forall|row: int, col: int|
            0 <= row < 5 && 0 <= col < 5 ==> (#[trigger] p.cells@[row]@[col]) == cell_filled(
                h@,
                row,
                col,
            ),
{
    let mut cells: [[bool; 5]; 5] = [[false; 5]; 5];
    let mut row: usize = 0;
    while row < 5
        invariant
            row <= 5,
            forall|r: int, c: int|
                0 <= r < row && 0 <= c < 5 ==> (#[trigger] cells@[r]@[c]) == cell_filled(h@, r, c),
        decreases 5 - row,
    {
        let mut line: [bool; 5] = [false; 5];
        let mut col: usize = 0;
        while col < 5
            invariant
                row < 5,
                col <= 5,
                forall|c: int| 0 <= c < col ==> #[trigger] line@[c] == cell_filled(h@, row as int, c),
            decreases 5 - col,
        {
            let c: usize = if col < 3 { col } else { 4 - col };
            line[col] = h[3 + (row * 3 + c) % 29] % 2 == 0;
            col = col + 1;
        }
        cells[row] = line;
        row = row + 1;
    }
    Identicon { shade: 150 + h[0] % 60, cells }
}

/// What the pill in the corner says.
pub fn pill(app: &App) -> (s: &'static str)
    ensures
        s@ == if app.busy {
            "working…"@
        } else if app.status.ok {
            "receiver ready"@
        } else {
            "no receiver"@
        },
{
    if app.busy {
        "working…"
    } else if app.status.ok {
        "receiver ready"
    } else {
        "no receiver"
    }
}

/// What the fingerprint rests on, in short.
pub open spec fn grade_text(strong: bool, nkeys: u8) -> Seq<char> {
    if strong {
        "records ×"@ + text::decimal_text(nkeys as nat)
    } else {
        "serials only"@
    }
}

/// What the fingerprint rests on, in short.
pub fn grade(strong: bool, nkeys: u8) -> (s: String)
    ensures
        s@ == grade_text(strong, nkeys),
{
    if strong {
        text::glue("records ×", text::decimal(nkeys as u64).as_str())
    } else {
        text::owned("serials only")
    }
}

/// The serial number and the key id, or in private dots of the same length.
pub open spec fn kid_text(serial: Seq<char>, kid: Seq<u8>, private: bool) -> Seq<char> {
    if private {
        "serial ········ · kid ················"@
    } else {
        serial + " · kid "@ + text::hex_text(kid)
    }
}

/// The serial number and the key id, or in private dots of the same length.
pub fn kid_line(serial: &str, kid: &[u8; 8], private: bool) -> (s: String)
    ensures
        s@ == kid_text(serial@, kid@, private),
{
    if private {
        text::owned("serial ········ · kid ················")
    } else {
        let mut s: String = text::glue(serial, " · kid ");
        s.append(text::hex(kid.as_slice()).as_str());
        s
    }
}

/// The key id that the picture is made of; in private one that says nothing.
pub open spec fn shown_id(kid: Seq<u8>, private: bool) -> Seq<u8> {
    if private {
        Seq::new(8, |i: int| 0x55u8)
    } else {
        kid
    }
}

/// The key id that the picture is made of.
pub fn shown_kid(kid: [u8; 8], private: bool) -> (k: [u8; 8])
    ensures
        k@ == shown_id(kid@, private),
{
    if private {
        let k: [u8; 8] = [0x55u8; 8];
        assert(k@ =~= shown_id(kid@, private));
        k
    } else {
        kid
    }
}

/// The line about the Nano receiver; in private without its serial number.
pub open spec fn nano_text(nano: Option<Seq<char>>, private: bool) -> Seq<char> {
    match nano {
        None => "Nano absent"@,
        Some(n) => if private {
            "Nano C52F ········"@
        } else {
            n
        },
    }
}

/// The line about the Nano receiver.
pub fn nano_line(nano: &Option<String>, private: bool) -> (s: String)
    ensures
        s@ == nano_text(status::opt_text(*nano), private),
{
    match nano {
        None => text::owned("Nano absent"),
        Some(n) => {
            if private {
                text::owned("Nano C52F ········")
            } else {
                n.clone()
            }
        },
    }
}

/// Where the last `" · "` of a text ends, at `upto` at most; 0 if there is none.
pub open spec fn last_dot_end(s: Seq<char>, upto: int) -> int
    decreases upto,
{
    if upto < 3 {
        0
    } else if upto <= s.len() && s.subrange(upto - 3, upto) == " · "@ {
        upto
    } else {
        last_dot_end(s, upto - 1)
    }
}

/// The part of a device label behind the name: its kind.
pub open spec fn kind_part(label: Seq<char>) -> Seq<char> {
    label.skip(last_dot_end(label, label.len() as int))
}

/// What a device chip says: the label, in private without the name, and whether there is a record.
pub open spec fn chip_text(label: Seq<char>, record: bool, slot: u8, private: bool) -> Seq<char> {
    (if private {
        "device "@ + text::decimal_text(slot as nat) + " · "@ + kind_part(label)
    } else {
        label
    }) + (if record {
        " · rec"@
    } else {
        Seq::empty()
    })
}

fn find_kind(label: &str) -> (s: &str)
    ensures
        s@ == kind_part(label@),
{
    let len: usize = label.unicode_len();
    let mut upto: usize = len;
    while upto >= 3
        invariant
            upto <= len == label@.len(),
            last_dot_end(label@, len as int) == last_dot_end(label@, upto as int),
        decreases upto,
    {
        if text::same(label.substring_char(upto - 3, upto), " · ") {
            assert(label@.skip(upto as int) =~= label@.subrange(upto as int, len as int));
            return label.substring_char(upto, len);
        }
        upto = upto - 1;
    }
    assert(label@.skip(0) =~= label@.subrange(0, len as int));
    label.substring_char(0, len)
}

/// What a device chip says.
pub fn chip_label(label: &str, record: bool, slot: u8, private: bool) -> (s: String)
    ensures
        s@ == chip_text(label@, record, slot, private),
{
    let mut s: String = if private {
        let mut p: String = text::glue("device ", text::decimal(slot as u64).as_str());
        p.append(" · ");
        p.append(find_kind(label));
        p
    } else {
        text::owned(label)
    };
    if record {
        s.append(" · rec");
    }
    assert(s@ =~= chip_text(label@, record, slot, private));
    s
}

/// Where the last `" · "` of a text ends does not depend on what stands before the first one.
proof fn lemma_last_dot(name: Seq<char>, t: Seq<char>, upto: int)
    requires
        3 <= upto <= t.len(),
        t.take(3) == " · "@,
    ensures
        last_dot_end(name + t, name.len() + upto) == name.len() + last_dot_end(t, upto),
        3 <= last_dot_end(t, upto) <= upto,
    decreases upto,
{
    let all = name + t;
    let n = name.len() as int;
    assert(all.subrange(n + upto - 3, n + upto) =~= t.subrange(upto - 3, upto));
    if upto == 3 {
        assert(t.subrange(0, 3) =~= t.take(3));
    } else if t.subrange(upto - 3, upto) != " · "@ {
        lemma_last_dot(name, t, upto - 1);
    }
}

/// In private a device chip says nothing of the name of the device.
pub proof fn law_names_hidden(
    name: Seq<char>,
    other: Seq<char>,
    kind: Seq<char>,
    record: bool,
    slot: u8,
)
    ensures
        chip_text(name + " · "@ + kind, record, slot, true) == chip_text(
            other + " · "@ + kind,
            record,
            slot,
            true,
        ),
{
    lemma_kind_part(name, kind);
    lemma_kind_part(other, kind);
}

/// The part of a label behind the name depends on the kind alone.
proof fn lemma_kind_part(name: Seq<char>, kind: Seq<char>)
    ensures
        kind_part(name + " · "@ + kind) == kind_part(" · "@ + kind),
{
    reveal_strlit(" · ");
    let t = " · "@ + kind;
    let all = name + " · "@ + kind;
    assert(all =~= name + t);
    assert(t.take(3) =~= " · "@);
    lemma_last_dot(name, t, t.len() as int);
    assert(kind_part(all) =~= kind_part(t));
}

/// In private a device chip still says the slot and the kind, and whether there is a record.
pub proof fn law_private_chip(name: Seq<char>, kind: Seq<char>, record: bool, slot: u8)
    requires
        !kind.contains('·'),
    ensures
        chip_text(name + " · "@ + kind, record, slot, true) == "device "@ + text::decimal_text(
            slot as nat,
        ) + " · "@ + kind + (if record {
            " · rec"@
        } else {
            seq![]
        }),
        chip_text(name + " · "@ + kind, record, slot, false) == name + " · "@ + kind + (if record {
            " · rec"@
        } else {
            seq![]
        }),
{
    lemma_kind_part(name, kind);
    reveal_strlit(" · ");
    let t = " · "@ + kind;
    assert(t.take(3) =~= " · "@);
    assert forall|i: int| 3 <= i < t.len() implies t[i] != '·' by {
        assert(t[i] == kind[i - 3]);
    }
    lemma_only_dot(t, t.len() as int);
    assert(t.skip(3) =~= kind);
}

proof fn lemma_only_dot(t: Seq<char>, upto: int)
    requires
        3 <= upto <= t.len(),
        t.take(3) == " · "@,
        forall|i: int| 3 <= i < t.len() ==> t[i] != '·',
    ensures
        last_dot_end(t, upto) == 3,
    decreases upto,
{
    reveal_strlit(" · ");
    let part = t.subrange(upto - 3, upto);
    if upto == 3 {
        assert(part =~= t.take(3));
    } else {
        assert(part != " · "@) by {
            assert(part[1] == t[upto - 2]);
            if upto == 4 {
                assert(t.take(3)[2] == t[2]);
            }
        }
        lemma_only_dot(t, upto - 1);
    }
}

/// Whether two fingerprints differ in serial numbers, names, product ids and the contents of records
/// at most.
pub open spec fn alike(a: FingerprintView, b: FingerprintView) -> bool {
    &&& a.ti_present == b.ti_present
    &&& a.nano_present == b.nano_present
    &&& a.firmware == b.firmware
    &&& a.d4_open == b.d4_open
    &&& a.slots.len() == b.slots.len()
    &&& forall|i: int|
        0 <= i < a.slots.len() ==> {
            let (s, t) = (#[trigger] a.slots[i], b.slots[i]);
            &&& s.slot == t.slot
            &&& s.kind == t.kind
            &&& s.record is Some == t.record is Some
        }
}

proof fn lemma_records_alike(a: Seq<SlotInfoView>, b: Seq<SlotInfoView>)
    requires
        a.len() == b.len(),
        forall|i: int|
            0 <= i < a.len() ==> (#[trigger] a[i]).record is Some == b[i].record is Some,
    ensures
        fingerprint::records(a) == fingerprint::records(b),
    decreases a.len(),
{
    if a.len() > 0 {
        let (x, y) = (a.drop_last(), b.drop_last());
        assert forall|i: int| 0 <= i < x.len() implies (#[trigger] x[i]).record is Some
            == y[i].record is Some by {
            assert(x[i] == a[i]);
        }
        assert(a.last() == a[a.len() - 1]);
        lemma_records_alike(x, y);
    }
}

/// In private the receiver card tells nothing of serial numbers, key ids and device names: whatever
/// they are, it shows the same texts, the same picture and the same chips.
pub proof fn law_private_card(a: FingerprintView, b: FingerprintView, x: Status, y: Status)
    requires
        alike(a, b),
        x.shows(a),
        y.shows(b),
    ensures
        x.name@ == y.name@,
        x.line@ == y.line@,
        x.detail@ == y.detail@,
        grade_text(x.strong, x.nkeys) == grade_text(y.strong, y.nkeys),
        kid_text(x.serial@, a.kid(), true) == kid_text(y.serial@, b.kid(), true),
        shown_id(a.kid(), true) == shown_id(b.kid(), true),
        nano_text(status::opt_text(x.nano), true) == nano_text(status::opt_text(y.nano), true),
        x.devices@.len() == y.devices@.len(),
        forall|i: int|
            0 <= i < x.devices@.len() ==> {
                let (d, e) = (#[trigger] x.devices@[i], y.devices@[i]);
                &&& d.slot == e.slot
                &&& chip_text(d.label@, d.record, d.slot, true) == chip_text(
                    e.label@,
                    e.record,
                    e.slot,
                    true,
                )
            },
{
    lemma_records_alike(a.slots, b.slots);
    assert forall|i: int| 0 <= i < x.devices@.len() implies ({
        let (d, e) = (#[trigger] x.devices@[i], y.devices@[i]);
        &&& d.slot == e.slot
        &&& chip_text(d.label@, d.record, d.slot, true) == chip_text(
            e.label@,
            e.record,
            e.slot,
            true,
        )
    }) by {
        let (s, t) = (a.slots[i], b.slots[i]);
        assert(status::shows(x.devices@[i], s));
        assert(status::shows(y.devices@[i], t));
        law_names_hidden(
            status::device_name(s),
            status::device_name(t),
            s.kind,
            s.record is Some,
            s.slot,
        );
    }
}

/// Whether none of the letters b, m and s stands in a text.
spec fn plain(s: Seq<char>) -> bool {
    forall|i: int| 0 <= i < s.len() ==> #[trigger] s[i] != 'b' && s[i] != 'm' && s[i] != 's'
}

proof fn lemma_plain_hex(b: Seq<u8>)
    ensures
        plain(text::hex_text(b)),
{
    let s = text::hex_text(b);
    assert forall|i: int| 0 <= i < s.len() implies #[trigger] s[i] != 'b' && s[i] != 'm' && s[i]
        != 's' by {
        let v = b[i / 2] as int;
        assert(0 <= v / 16 < 16 && 0 <= v % 16 < 16);
    }
}

proof fn lemma_plain_dongles(mask: u8)
    ensures
        plain(label::dongles_text(mask)),
{
    reveal_strlit("TI+Nano");
    reveal_strlit("TI");
    reveal_strlit("Nano");
    reveal_strlit("none");
}

proof fn lemma_not_in_plain(s: Seq<char>, part: Seq<char>, k: int)
    requires
        plain(s),
        0 <= k < part.len(),
        part[k] == 'b' || part[k] == 'm' || part[k] == 's',
    ensures
        !text::occurs(s, part),
{
    if text::occurs(s, part) {
        let i = choose|i: int|
            0 <= i <= s.len() - part.len() && #[trigger] s.subrange(i, i + part.len()) == part;
        assert(s.subrange(i, i + part.len())[k] == s[i + k]);
    }
}

/// A keyslot whose key id is not that of the receivers is always shown as a mismatch.
pub proof fn law_other_id_is_mismatch(s: SlotView, m: Seq<u8>)
    requires
        slot::kid_of(m) != s.kid,
    ensures
        status::state_of(s, s.accepts(Ok(m))) == ("kid mismatch"@, Level::Bad),
{
    let why = s.accepts(Ok(m))->Err_0;
    assert(plain(why)) by {
        reveal_strlit("dongle ");
        reveal_strlit(" kid ");
        reveal_strlit(" expected, got ");
        reveal_strlit(" (device re-paired?)");
        lemma_plain_dongles(s.dongles);
        lemma_plain_hex(s.kid);
        lemma_plain_hex(slot::kid_of(m));
    }
    reveal_strlit("none readable");
    reveal_strlit("missing");
    reveal_strlit("needs dongle");
    lemma_not_in_plain(why, "none readable"@, 10);
    lemma_not_in_plain(why, "missing"@, 0);
    lemma_not_in_plain(why, "needs dongle"@, 4);
}

/// The list of keyslots tells nothing of key ids: what is shown of a keyslot is the same for
/// another key id in it and another one read, as long as both match or neither does.
pub proof fn law_keyslots_tell_no_ids(s: SlotView, kid: Seq<u8>, m: Seq<u8>, n: Seq<u8>)
    requires
        slot::kid_of(m) == s.kid <==> slot::kid_of(n) == kid,
    ensures
        s.description() == (SlotView { kid, ..s }).description(),
        status::state_of(s, s.accepts(Ok(m))) == status::state_of(
            SlotView { kid, ..s },
            (SlotView { kid, ..s }).accepts(Ok(n)),
        ),
{
    if slot::kid_of(m) != s.kid {
        law_other_id_is_mismatch(s, m);
        law_other_id_is_mismatch(SlotView { kid, ..s }, n);
    }
}

pub open spec fn is_hex(c: char) -> bool {
    '0' <= c <= '9' || 'A' <= c <= 'F'
}

/// Whether as many hexadecimal digits as a key id has stand from `a` on.
pub open spec fn id_at(s: Seq<char>, a: int) -> bool {
    &&& 0 <= a
    &&& a + 16 <= s.len()
    &&& forall|j: int| a <= j < a + 16 ==> is_hex(#[trigger] s[j])
}

/// Whether character `i` can belong to a key id.
pub open spec fn in_id(s: Seq<char>, i: int) -> bool {
    exists|a: int| i - 16 < a <= i && #[trigger] id_at(s, a)
}

/// A message with dots in place of key ids.
pub open spec fn without_ids(s: Seq<char>) -> Seq<char> {
    Seq::new(
        s.len(),
        |i: int|
            if in_id(s, i) {
                '·'
            } else {
                s[i]
            },
    )
}

/// No digit of a key id is left in a message, wherever it stands.
pub proof fn law_ids_hidden(before: Seq<char>, kid: Seq<u8>, after: Seq<char>, i: int)
    requires
        kid.len() == 8,
        0 <= i < 16,
    ensures
        without_ids(before + text::hex_text(kid) + after)[before.len() + i] == '·',
{
    let s = before + text::hex_text(kid) + after;
    let a = before.len() as int;
    assert forall|j: int| a <= j < a + 16 implies is_hex(#[trigger] s[j]) by {
        assert(s[j] == text::hex_text(kid)[j - a]);
    }
    assert(id_at(s, a));
    assert(in_id(s, a + i));
}

/// What is shown of a message in private holds no key id at all.
pub proof fn law_no_id_shown(s: Seq<char>, kid: Seq<u8>)
    requires
        kid.len() == 8,
    ensures
        !text::occurs(without_ids(s), text::hex_text(kid)),
{
    let (shown, id) = (without_ids(s), text::hex_text(kid));
    if text::occurs(shown, id) {
        let a = choose|a: int|
            0 <= a <= shown.len() - id.len() && #[trigger] shown.subrange(a, a + id.len()) == id;
        assert forall|j: int| a <= j < a + 16 implies is_hex(#[trigger] s[j]) by {
            assert(shown.subrange(a, a + id.len())[j - a] == shown[j]);
            assert(is_hex(id[j - a]));
        }
        assert(id_at(s, a));
        assert(in_id(s, a));
        assert(shown.subrange(a, a + id.len())[0] == shown[a]);
        assert(is_hex(id[0]));
    }
}

/// Nothing but key ids is hidden: a message stays as long as it is, every character stays or becomes
/// a dot, and a message without as many hexadecimal digits in a row as a key id has stays as it is.
pub proof fn law_only_ids_hidden(s: Seq<char>)
    ensures
        without_ids(s).len() == s.len(),
        forall|i: int|
            0 <= i < s.len() ==> (#[trigger] without_ids(s)[i]) == s[i] || without_ids(s)[i] == '·',
        (forall|a: int| 0 <= a <= s.len() - 16 ==> !#[trigger] digits_from(s, a)) ==> without_ids(s)
            == s,
{
    if forall|a: int| 0 <= a <= s.len() - 16 ==> !#[trigger] digits_from(s, a) {
        assert forall|i: int| 0 <= i < s.len() implies !in_id(s, i) by {
            assert forall|a: int| i - 16 < a <= i implies !#[trigger] id_at(s, a) by {
                if id_at(s, a) {
                    assert forall|j: int| a <= j < a + 16 implies '0' <= #[trigger] s[j] <= '9'
                        || 'A' <= s[j] <= 'F' by {
                        assert(is_hex(s[j]));
                    }
                    assert(digits_from(s, a));
                }
            }
        }
        assert(without_ids(s) =~= s);
    }
}

/// Whether sixteen upper-case hexadecimal digits stand from `a` on.
pub open spec fn digits_from(s: Seq<char>, a: int) -> bool {
    forall|j: int| a <= j < a + 16 ==> '0' <= #[trigger] s[j] <= '9' || 'A' <= s[j] <= 'F'
}

fn hex_digit(c: char) -> (r: bool)
    ensures
        r == is_hex(c),
{
    ('0' <= c && c <= '9') || ('A' <= c && c <= 'F')
}

/// Whether a key id can stand from `a` on.
fn finds_id(v: &Vec<char>, a: usize) -> (r: bool)
    requires
        a < v@.len(),
    ensures
        r == id_at(v@, a as int),
{
    if v.len() - a < 16 {
        return false;
    }
    let end: usize = a + 16;
    let mut j: usize = a;
    while j < end
        invariant
            a <= j <= end == a + 16,
            end <= v@.len(),
            forall|k: int| a <= k < j ==> is_hex(#[trigger] v@[k]),
        decreases end - j,
    {
        if !hex_digit(v[j]) {
            return false;
        }
        j = j + 1;
    }
    true
}

/// A message as it is shown; in private with dots in place of key ids, which are the only ids that
/// a message can hold.
pub fn log_text(s: &str, private: bool) -> (r: String)
    ensures
        r@ == if private {
            without_ids(s@)
        } else {
            s@
        },
{
    if !private {
        return text::owned(s);
    }
    proof {
        reveal_strlit("·");
    }
    let len: usize = s.unicode_len();
    let mut v: Vec<char> = Vec::new();
    while v.len() < len
        invariant
            v@.len() <= len == s@.len(),
            v@ =~= s@.take(v@.len() as int),
        decreases len - v@.len(),
    {
        v.push(s.get_char(v.len()));
    }
    assert(v@ =~= s@);
    let mut r: String = String::new();
    // How many characters from `i` on belong to a key id that starts before `i`.
    let mut left: usize = 0;
    let mut i: usize = 0;
    while i < len
        invariant
            i <= len == s@.len(),
            v@ == s@,
            "·"@ == seq!['·'],
            left < 16,
            left > 0 ==> id_at(s@, i + left - 16),
            forall|a: int| i + left - 16 < a < i ==> !#[trigger] id_at(s@, a),
            r@ =~= without_ids(s@).take(i as int),
        decreases len - i,
    {
        if finds_id(&v, i) {
            left = 16;
        }
        assert(left > 0 ==> id_at(s@, i + left - 16) && in_id(s@, i as int));
        assert(left == 0 ==> !in_id(s@, i as int));
        assert(without_ids(s@).take(i + 1) =~= without_ids(s@).take(i as int).push(
            without_ids(s@)[i as int],
        ));
        if left > 0 {
            r.append("·");
            left = left - 1;
        } else {
            assert(s@.subrange(i as int, i + 1) =~= seq![s@[i as int]]);
            r.append(s.substring_char(i, i + 1));
        }
        i = i + 1;
    }
    assert(without_ids(s@).take(i as int) =~= without_ids(s@));
    r
}

/// The label of the passphrase field.
pub fn pass_label(app: &App) -> (s: &'static str)
    ensures
        s@ == if app.slots is Some {
            "passphrase / PIN"@
        } else if app.mode == Mode::DonglePin {
            "PIN"@
        } else {
            "recovery passphrase"@
        },
{
    if app.is_vault() {
        "passphrase / PIN"
    } else if matches!(app.mode, Mode::DonglePin) {
        "PIN"
    } else {
        "recovery passphrase"
    }
}

/// Bullets in place of a passphrase of `n` characters, 48 at most.
pub fn masked(n: usize) -> (s: String)
    ensures
        s@.len() == if n < 48 {
            n as int
        } else {
            48
        },
        forall|i: int| 0 <= i < s@.len() ==> s@[i] == '•',
{
    proof {
        reveal_strlit("•");
    }
    let count: usize = if n < 48 { n } else { 48 };
    let mut s: String = String::new();
    let mut i: usize = 0;
    while i < count
        invariant
            i <= count,
            s@.len() == i,
            "•"@ == seq!['•'],
            forall|j: int| 0 <= j < i ==> s@[j] == '•',
        decreases count - i,
    {
        s.append("•");
        i = i + 1;
    }
    s
}

/// A text shortened to its first `n` characters and an ellipsis.
pub open spec fn shortened(s: Seq<char>, n: int) -> Seq<char> {
    s.take(n) + "…"@
}

/// A text as it fits: whole, or else shortened as little as possible but to one character at least;
/// nothing, if even that does not fit. `fits` tells what does.
///
/// That `fits` is unchanged is said of it as a value: a closure is a value without state here, and
/// what its captures do between calls is not described.
pub fn clip<F: FnMut(&str) -> bool>(s: &str, fits: &mut F) -> (r: Option<String>)
    requires
        forall|t: &str| #[trigger] call_requires(*old(fits), (t,)),
    ensures
        *final(fits) == *old(fits),
        match r {
            Some(t) => {
                &&& t@ == s@ || exists|n: int| 1 <= n < s@.len() && t@ == #[trigger] shortened(s@, n)
                &&& exists|shown: &str|
                    shown@ == t@ && #[trigger] call_ensures(*old(fits), (shown,), true)
            },
            None => {
                &&& exists|shown: &str|
                    shown@ == s@ && #[trigger] call_ensures(*old(fits), (shown,), false)
                &&& forall|n: int|
                    1 <= n < s@.len() ==> #[trigger] misfit(*old(fits), shortened(s@, n))
            },
        },
        r matches Some(t) ==> t@ != s@ ==> forall|n: int|
            t@.len() <= n < s@.len() ==> #[trigger] misfit(*old(fits), shortened(s@, n)),
{
    if fits(s) {
        return Some(text::owned(s));
    }
    let mut n: usize = s.unicode_len();
    while n > 1
        invariant
            n <= s@.len(),
            forall|t: &str| #[trigger] call_requires(*fits, (t,)),
            *fits == *old(fits),
            exists|shown: &str| shown@ == s@ && #[trigger] call_ensures(*old(fits), (shown,), false),
            forall|k: int| n <= k < s@.len() && 1 <= k ==> #[trigger] misfit(*old(fits), shortened(s@, k)),
        decreases n,
    {
        n = n - 1;
        let t: String = text::glue(s.substring_char(0, n), "…");
        assert(s@.subrange(0, n as int) =~= s@.take(n as int));
        let shown: &str = t.as_str();
        if fits(shown) {
            proof {
                reveal_strlit("…");
                assert(t@ == shortened(s@, n as int));
                assert(t@.len() == n + 1);
            }
            return Some(t);
        }
        assert(misfit(*old(fits), shortened(s@, n as int)));
    }
    None
}

/// Whether the question if a text fits can be answered with no.
pub open spec fn misfit<F: FnMut(&str) -> bool>(fits: F, t: Seq<char>) -> bool {
    exists|shown: &str| shown@ == t && #[trigger] call_ensures(fits, (shown,), false)
}

/// The left half of the picture shows fifteen bytes of the digest, from the fourth on, row by row: a
/// cell is filled where its byte is even.
pub proof fn law_picture_shows_digest(digest: Seq<u8>, row: int, col: int)
    requires
        0 <= row < 5,
        0 <= col < 3,
    ensures
        cell_filled(digest, row, col) <==> digest[3 + 3 * row + col] % 2 == 0,
{
}

/// What is shown openly: the serial number, the key id and the picture made of it, and the line of
/// the Nano receiver, or that it is absent.
pub proof fn law_shown_openly(serial: Seq<char>, kid: Seq<u8>, nano: Option<Seq<char>>, n: u8)
    ensures
        kid_text(serial, kid, false) == serial + " · kid "@ + text::hex_text(kid),
        shown_id(kid, false) == kid,
        nano matches Some(line) ==> nano_text(nano, false) == line,
        nano is None ==> nano_text(nano, false) == "Nano absent"@ && nano_text(nano, true)
            == "Nano absent"@,
        grade_text(true, n) == "records ×"@ + text::decimal_text(n as nat),
        grade_text(false, n) == "serials only"@,
{
}

/// A shortened text starts like the whole one and ends with an ellipsis.
pub proof fn law_shortened(s: Seq<char>, n: int)
    requires
        0 <= n <= s.len(),
    ensures
        shortened(s, n).len() == n + 1,
        shortened(s, n).take(n) == s.take(n),
        shortened(s, n).last() == '…',
{
    reveal_strlit("…");
    assert(shortened(s, n).take(n) =~= s.take(n));
}

} // verus!
