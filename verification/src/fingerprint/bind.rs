//! Parsing of the receiver slots to bind.

use crate::text;
use crate::vault::label;
use vstd::prelude::*;
use vstd::string::*;

verus! {

/// The characters with the White_Space property.
pub open spec fn is_space(c: char) -> bool {
    let n = c as u32;
    ||| 0x09 <= n <= 0x0D
    ||| n == 0x20
    ||| n == 0x85
    ||| n == 0xA0
    ||| n == 0x1680
    ||| 0x2000 <= n <= 0x200A
    ||| n == 0x2028
    ||| n == 0x2029
    ||| n == 0x202F
    ||| n == 0x205F
    ||| n == 0x3000
}

/// A text without the white space it starts with.
pub open spec fn trim_start(s: Seq<char>) -> Seq<char>
    decreases s.len(),
{
    if s.len() > 0 && is_space(s[0]) {
        trim_start(s.skip(1))
    } else {
        s
    }
}

/// A text without the white space it ends with.
pub open spec fn trim_end(s: Seq<char>) -> Seq<char>
    decreases s.len(),
{
    if s.len() > 0 && is_space(s.last()) {
        trim_end(s.drop_last())
    } else {
        s
    }
}

/// A text without the white space around it.
pub open spec fn trimmed(s: Seq<char>) -> Seq<char> {
    trim_end(trim_start(s))
}

pub open spec fn is_digit(c: char) -> bool {
    '0' <= c <= '9'
}

/// The number that decimal digits spell.
pub open spec fn digits_value(s: Seq<char>) -> nat
    decreases s.len(),
{
    if s.len() == 0 {
        0
    } else {
        digits_value(s.drop_last()) * 10 + (s.last() as nat - '0' as nat) as nat
    }
}

/// The number below 256 that decimal digits spell.
pub open spec fn plain_number(d: Seq<char>) -> Option<u8> {
    if d.len() > 0 && (forall|i: int| 0 <= i < d.len() ==> is_digit(#[trigger] d[i]))
        && digits_value(d) <= 255 {
        Some(digits_value(d) as u8)
    } else {
        None
    }
}

/// The number below 256 that a text spells: decimal digits, possibly with a plus sign before them.
pub open spec fn number(s: Seq<char>) -> Option<u8> {
    if s.len() > 0 && s[0] == '+' {
        plain_number(s.skip(1))
    } else {
        plain_number(s)
    }
}

/// Where the next comma stands, from `from` on, or else the end.
pub open spec fn comma_from(s: Seq<char>, from: int) -> int
    decreases s.len() - from,
{
    if from >= s.len() {
        s.len() as int
    } else if s[from] == ',' {
        from
    } else {
        comma_from(s, from + 1)
    }
}

/// The parts of a text between its commas.
pub open spec fn split(s: Seq<char>) -> Seq<Seq<char>>
    decreases s.len(),
{
    let k = comma_from(s, 0);
    if k < 0 || k >= s.len() {
        seq![s]
    } else {
        seq![s.take(k)] + split(s.skip(k + 1))
    }
}

/// The mask bit of the receiver slot that a part of the list names, or what is wrong with it.
pub open spec fn part_bit(part: Seq<char>) -> Result<u8, Seq<char>> {
    match number(trimmed(part)) {
        None => Err("bad slot '"@ + part + "' (expected 1-6)"@),
        Some(n) => if 1 <= n <= 6 {
            Ok(1u8 << ((n - 1) as u8))
        } else {
            Err("slot "@ + text::decimal_text(n as nat) + " out of range 1-6"@)
        },
    }
}

/// The mask of a list of receiver slots, or what is wrong with its first bad part.
pub open spec fn parts_mask(parts: Seq<Seq<char>>, before: u8) -> Result<u8, Seq<char>>
    decreases parts.len(),
{
    if parts.len() == 0 {
        Ok(before)
    } else {
        match part_bit(parts[0]) {
            Err(why) => Err(why),
            Ok(bit) => parts_mask(parts.skip(1), before | bit),
        }
    }
}

/// What a `--bind` argument selects: every occupied slot, or the slots of a mask.
pub open spec fn bind_of(s: Seq<char>) -> Result<Option<u8>, Seq<char>> {
    let t = trimmed(s);
    if t == "all"@ || t == ""@ {
        Ok(None)
    } else if t == "receiver"@ || t == "none"@ {
        Ok(Some(0))
    } else {
        match parts_mask(split(t), 0) {
            Err(why) => Err(why),
            Ok(mask) => Ok(Some(mask)),
        }
    }
}

/// Whether a character is white space.
pub fn whitespace(c: char) -> (r: bool)
    ensures
        r == is_space(c),
{
    let n: u32 = c as u32;
    (0x09 <= n && n <= 0x0D) || n == 0x20 || n == 0x85 || n == 0xA0 || n == 0x1680 || (0x2000 <= n
        && n <= 0x200A) || n == 0x2028 || n == 0x2029 || n == 0x202F || n == 0x205F || n == 0x3000
}

/// `s` without the white space around it.
pub fn trim(s: &str) -> (t: &str)
    ensures
        t@ == trimmed(s@),
{
    let len: usize = s.unicode_len();
    let mut a: usize = 0;
    assert(s@.skip(0) =~= s@);
    while a < len && whitespace(s.get_char(a))
        invariant
            a <= len == s@.len(),
            trim_start(s@) == trim_start(s@.skip(a as int)),
        decreases len - a,
    {
        assert(s@.skip(a as int).skip(1) =~= s@.skip(a + 1));
        a = a + 1;
    }
    assert(trim_start(s@) == s@.skip(a as int));
    let mut b: usize = len;
    assert(s@.subrange(a as int, b as int) =~= s@.skip(a as int));
    while a < b && whitespace(s.get_char(b - 1))
        invariant
            a <= b <= len == s@.len(),
            trimmed(s@) == trim_end(s@.subrange(a as int, b as int)),
        decreases b,
    {
        assert(s@.subrange(a as int, b as int).drop_last() =~= s@.subrange(a as int, b - 1));
        b = b - 1;
    }
    s.substring_char(a, b)
}

/// The number below 256 that a text spells.
fn parse_number(s: &str) -> (r: Option<u8>)
    ensures
        r == number(s@),
{
    let len: usize = s.unicode_len();
    let start: usize = if len > 0 && s.get_char(0) == '+' { 1 } else { 0 };
    let ghost d = if start == 1 { s@.skip(1) } else { s@ };
    assert(d =~= s@.skip(start as int));
    if start == len {
        return None;
    }
    let mut v: u32 = 0;
    let mut i: usize = start;
    while i < len
        invariant
            start <= i <= len == s@.len(),
            d == s@.skip(start as int),
            d.len() > 0,
            number(s@) == plain_number(d),
            v <= 255,
            v == digits_value(d.take(i - start)),
            forall|j: int| 0 <= j < i - start ==> is_digit(#[trigger] d[j]),
        decreases len - i,
    {
        let c: char = s.get_char(i);
        assert(c == d[i - start]);
        if !('0' <= c && c <= '9') {
            return None;
        }
        assert(d.take(i + 1 - start).drop_last() =~= d.take(i - start));
        v = v * 10 + (c as u32 - '0' as u32);
        i = i + 1;
        if v > 255 {
            proof {
                lemma_digits_grow(d, i - start, d.len() as int);
                assert(d.take(d.len() as int) =~= d);
            }
            return None;
        }
    }
    assert(d.take(d.len() as int) =~= d);
    Some(v as u8)
}

/// More digits do not make a smaller number.
proof fn lemma_digits_grow(d: Seq<char>, a: int, b: int)
    requires
        0 <= a <= b <= d.len(),
    ensures
        digits_value(d.take(a)) <= digits_value(d.take(b)),
    decreases b,
{
    if a < b {
        lemma_digits_grow(d, a, b - 1);
        assert(d.take(b).drop_last() =~= d.take(b - 1));
    }
}

/// Where the next comma stands, from `from` on, or else the end.
fn find_comma(s: &str, from: usize) -> (k: usize)
    requires
        from <= s@.len(),
    ensures
        k == comma_from(s@, from as int),
        from <= k <= s@.len(),
{
    let len: usize = s.unicode_len();
    let mut k: usize = from;
    while k < len
        invariant
            from <= k <= len == s@.len(),
            comma_from(s@, from as int) == comma_from(s@, k as int),
        decreases len - k,
    {
        if s.get_char(k) == ',' {
            return k;
        }
        k = k + 1;
    }
    k
}

/// Skipping what stands before does not move a comma.
proof fn lemma_comma_skip(s: Seq<char>, a: int, from: int)
    requires
        0 <= a <= from <= s.len(),
    ensures
        comma_from(s.skip(a), from - a) == comma_from(s, from) - a,
    decreases s.len() - from,
{
    if from < s.len() && s[from] != ',' {
        lemma_comma_skip(s, a, from + 1);
    }
}

fn parse_part(part: &str) -> (r: Result<u8, String>)
    ensures
        match r {
            Ok(bit) => part_bit(part@) == Ok::<u8, Seq<char>>(bit),
            Err(why) => part_bit(part@) == Err::<u8, Seq<char>>(why@),
        },
{
    match parse_number(trim(part)) {
        None => {
            let mut why: String = text::glue("bad slot '", part);
            why.append("' (expected 1-6)");
            Err(why)
        },
        Some(n) => {
            if 1 <= n && n <= 6 {
                Ok(1u8 << (n - 1))
            } else {
                let mut why: String = text::glue("slot ", text::decimal(n as u64).as_str());
                why.append(" out of range 1-6");
                Err(why)
            }
        },
    }
}

/// A `--bind` argument selects none but the receiver slots 1 to 6.
pub proof fn law_bind_in_range(s: Seq<char>)
    ensures
        bind_of(s) matches Ok(Some(mask)) ==> mask < 64,
{
    lemma_parts_in_range(split(trimmed(s)), 0);
}

proof fn lemma_parts_in_range(parts: Seq<Seq<char>>, before: u8)
    requires
        before < 64,
    ensures
        parts_mask(parts, before) matches Ok(mask) ==> mask < 64,
    decreases parts.len(),
{
    if parts.len() > 0 {
        if let Ok(bit) = part_bit(parts[0]) {
            let n = (number(trimmed(parts[0]))->0 - 1) as u8;
            assert(n < 6 && before < 64 ==> before | (1u8 << n) < 64) by (bit_vector);
            lemma_parts_in_range(parts.skip(1), before | bit);
        }
    }
}

/// The first comma of a text is the first comma of what it starts with, if there is one; or else it
/// is the comma that follows.
proof fn lemma_comma_concat(a: Seq<char>, b: Seq<char>, from: int)
    requires
        0 <= from <= a.len(),
    ensures
        from <= comma_from(a, from) <= a.len(),
        comma_from(a + seq![','] + b, from) == comma_from(a, from),
    decreases a.len() - from,
{
    let all = a + seq![','] + b;
    if from < a.len() {
        assert(all[from] == a[from]);
        if a[from] != ',' {
            lemma_comma_concat(a, b, from + 1);
        }
    } else {
        assert(all[from] == ',');
    }
}

/// Two texts with a comma between them are split into the parts of both.
proof fn lemma_split_concat(a: Seq<char>, b: Seq<char>)
    ensures
        split(a + seq![','] + b) == split(a) + split(b),
    decreases a.len(),
{
    let all = a + seq![','] + b;
    lemma_comma_concat(a, b, 0);
    let k = comma_from(a, 0);
    assert(all.take(k) =~= a.take(k));
    if k < a.len() {
        lemma_split_concat(a.skip(k + 1), b);
        assert(all.skip(k + 1) =~= a.skip(k + 1) + seq![','] + b);
        assert(split(all) =~= split(a) + split(b));
    } else {
        assert(a.take(k) =~= a);
        assert(all.skip(k + 1) =~= b);
        assert(split(all) =~= split(a) + split(b));
    }
}

/// One more part adds its bit to the mask.
proof fn lemma_parts_push(parts: Seq<Seq<char>>, before: u8, part: Seq<char>, mask: u8, bit: u8)
    requires
        parts_mask(parts, before) == Ok::<u8, Seq<char>>(mask),
        part_bit(part) == Ok::<u8, Seq<char>>(bit),
    ensures
        parts_mask(parts.push(part), before) == Ok::<u8, Seq<char>>(mask | bit),
    decreases parts.len(),
{
    let more = parts.push(part);
    if parts.len() == 0 {
        reveal_with_fuel(parts_mask, 2);
        assert(more.skip(1) =~= Seq::empty());
    } else {
        let first = part_bit(parts[0])->Ok_0;
        lemma_parts_push(parts.skip(1), before | first, part, mask, bit);
        assert(more.skip(1) =~= parts.skip(1).push(part));
    }
}

/// A slot number names its slot.
proof fn lemma_digit_part(slot: int)
    requires
        1 <= slot <= 6,
    ensures
        part_bit(seq![text::digit(slot)]) == Ok::<u8, Seq<char>>(1u8 << ((slot - 1) as u8)),
        split(seq![text::digit(slot)]) == seq![seq![text::digit(slot)]],
        !is_space(text::digit(slot)),
        is_digit(text::digit(slot)),
{
    let c = text::digit(slot);
    let s = seq![c];
    reveal_with_fuel(digits_value, 2);
    reveal_with_fuel(comma_from, 2);
    assert(s.drop_last() =~= Seq::empty());
    assert(digits_value(s) == slot);
    assert(trimmed(s) == s);
    assert(forall|i: int| 0 <= i < s.len() ==> is_digit(#[trigger] s[i]));
}

/// The lowest `n` bits.
spec fn low_bits(n: int) -> u8
    decreases n,
{
    if n <= 0 {
        0
    } else {
        low_bits(n - 1) | (1u8 << ((n - 1) as u8))
    }
}

/// The list of the slots of a mask up to `upto` parses to these bits of the mask, and neither
/// starts nor ends with white space.
proof fn lemma_list_parses(m: u8, upto: int)
    requires
        0 <= upto <= 6,
    ensures
        ({
            let list = label::slot_list(m, upto);
            if list.len() == 0 {
                m & low_bits(upto) == 0
            } else {
                &&& parts_mask(split(list), 0) == Ok::<u8, Seq<char>>(m & low_bits(upto))
                &&& is_digit(list[0])
                &&& is_digit(list.last())
            }
        }),
    decreases upto,
{
    if upto == 0 {
        assert(m & 0 == 0) by (bit_vector);
    } else {
        lemma_list_parses(m, upto - 1);
        lemma_digit_part(upto);
        let before = label::slot_list(m, upto - 1);
        let list = label::slot_list(m, upto);
        let low = low_bits(upto - 1);
        let at = (upto - 1) as u8;
        let bit = 1u8 << at;
        assert(m & bit == 0 ==> m & (low | bit) == m & low) by (bit_vector);
        assert(m & bit != 0 ==> m & (low | bit) == (m & low) | bit) by (bit_vector)
            requires
                bit == 1u8 << at,
                at < 8,
        ;
        if label::binds(m, upto) {
            let one = seq![text::digit(upto)];
            if before.len() == 0 {
                reveal_with_fuel(parts_mask, 2);
                assert(split(list).skip(1) =~= Seq::empty());
                assert(0u8 | bit == bit) by (bit_vector);
            } else {
                reveal_strlit(",");
                assert(","@ =~= seq![',']);
                lemma_split_concat(before, one);
                assert(split(before) + seq![one] =~= split(before).push(one));
                lemma_parts_push(split(before), 0, one, m & low, bit);
            }
        }
    }
}

/// The label of a mask parses back to the mask: what is shown of a binding can be typed again.
pub proof fn law_label_parses_back(m: u8)
    requires
        1 <= m < 64,
    ensures
        label::bind_text(m) == "slots "@ + label::slot_list(m, 6),
        bind_of(label::slot_list(m, 6)) == Ok::<Option<u8>, Seq<char>>(Some(m)),
{
    let list = label::slot_list(m, 6);
    lemma_list_parses(m, 6);
    assert(low_bits(6) == 63) by {
        reveal_with_fuel(low_bits, 7);
        assert(0u8 | (1u8 << 0u8) | (1u8 << 1u8) | (1u8 << 2u8) | (1u8 << 3u8) | (1u8 << 4u8) | (
        1u8 << 5u8) == 63) by (bit_vector);
    }
    assert(m & 63 == m) by (bit_vector)
        requires
            m < 64,
    ;
    assert(trimmed(list) == list);
    reveal_strlit("all");
    reveal_strlit("");
    reveal_strlit("receiver");
    reveal_strlit("none");
    assert("all"@[0] == 'a' && "receiver"@[0] == 'r' && "none"@[0] == 'n');
}

/// What parsing a `--bind` argument gave, with its text as a character sequence.
pub open spec fn bind_view(r: Result<Option<u8>, String>) -> Result<Option<u8>, Seq<char>> {
    match r {
        Ok(b) => Ok(b),
        Err(why) => Err(why@),
    }
}

/// Parse `--bind`: `all`, `receiver`, or a list of receiver slots `1,3`.
pub fn parse_bind(s: &str) -> (r: Result<Option<u8>, String>)
    ensures
        bind_view(r) == bind_of(s@),
        match r {
            Ok(b) => bind_of(s@) == Ok::<Option<u8>, Seq<char>>(b),
            Err(why) => bind_of(s@) == Err::<Option<u8>, Seq<char>>(why@),
        },
{
    let t: &str = trim(s);
    if text::same(t, "all") || text::same(t, "") {
        return Ok(None);
    }
    if text::same(t, "receiver") || text::same(t, "none") {
        return Ok(Some(0));
    }
    let len: usize = t.unicode_len();
    let mut mask: u8 = 0;
    let mut a: usize = 0;
    assert(t@.skip(0) =~= t@);
    loop
        invariant
            a <= len == t@.len(),
            parts_mask(split(t@), 0) == parts_mask(split(t@.skip(a as int)), mask),
            bind_of(s@) == match parts_mask(split(t@), 0) {
                Err(why) => Err::<Option<u8>, Seq<char>>(why),
                Ok(mask) => Ok(Some(mask)),
            },
        decreases len - a,
    {
        let k: usize = find_comma(t, a);
        let part: &str = t.substring_char(a, k);
        let ghost rest = t@.skip(a as int);
        proof {
            lemma_comma_skip(t@, a as int, a as int);
            assert(k < len ==> part@ =~= rest.take(k - a));
            assert(k == len ==> part@ =~= rest);
            assert(k < len ==> rest.skip(k - a + 1) =~= t@.skip(k + 1));
            assert(split(rest)[0] =~= part@);
            assert(split(rest).skip(1) =~= if k < len {
                split(t@.skip(k + 1))
            } else {
                Seq::empty()
            });
        }
        match parse_part(part) {
            Err(why) => {
                return Err(why);
            },
            Ok(bit) => {
                mask = mask | bit;
            },
        }
        if k == len {
            assert(parts_mask(Seq::<Seq<char>>::empty(), mask) == Ok::<u8, Seq<char>>(mask));
            return Ok(Some(mask));
        }
        a = k + 1;
    }
}

/// White space is what Unicode calls so.
pub proof fn law_white_space(c: char)
    ensures
        is_space(c) <==> seq![
            '\u{9}',
            '\u{A}',
            '\u{B}',
            '\u{C}',
            '\u{D}',
            ' ',
            '\u{85}',
            '\u{A0}',
            '\u{1680}',
            '\u{2000}',
            '\u{2001}',
            '\u{2002}',
            '\u{2003}',
            '\u{2004}',
            '\u{2005}',
            '\u{2006}',
            '\u{2007}',
            '\u{2008}',
            '\u{2009}',
            '\u{200A}',
            '\u{2028}',
            '\u{2029}',
            '\u{202F}',
            '\u{205F}',
            '\u{3000}',
        ].contains(c),
{
    let all = seq![
        '\u{9}',
        '\u{A}',
        '\u{B}',
        '\u{C}',
        '\u{D}',
        ' ',
        '\u{85}',
        '\u{A0}',
        '\u{1680}',
        '\u{2000}',
        '\u{2001}',
        '\u{2002}',
        '\u{2003}',
        '\u{2004}',
        '\u{2005}',
        '\u{2006}',
        '\u{2007}',
        '\u{2008}',
        '\u{2009}',
        '\u{200A}',
        '\u{2028}',
        '\u{2029}',
        '\u{202F}',
        '\u{205F}',
        '\u{3000}',
    ];
    let n = c as u32;
    if is_space(c) {
        let i: int = if n <= 0x0D {
            n - 9
        } else if n == 0x20 {
            5
        } else if n == 0x85 {
            6
        } else if n == 0xA0 {
            7
        } else if n == 0x1680 {
            8
        } else if n <= 0x200A {
            9 + (n - 0x2000)
        } else if n == 0x2028 {
            20
        } else if n == 0x2029 {
            21
        } else if n == 0x202F {
            22
        } else if n == 0x205F {
            23
        } else {
            24
        };
        assert(all[i] == c);
    }
}

/// Trimming takes white space off both ends, all of it and nothing else.
pub proof fn law_trimmed(s: Seq<char>)
    ensures
        exists|a: int, b: int|
            {
                &&& 0 <= a <= b <= s.len()
                &&& #[trigger] s.subrange(a, b) == trimmed(s)
                &&& forall|i: int| 0 <= i < a || b <= i < s.len() ==> is_space(#[trigger] s[i])
            },
        trimmed(s).len() > 0 ==> !is_space(trimmed(s)[0]) && !is_space(trimmed(s).last()),
{
    let t = trim_start(s);
    lemma_trim_start(s);
    lemma_trim_end(t);
    let a = s.len() - t.len();
    let b = a + trim_end(t).len();
    assert(s.subrange(a, b) =~= trimmed(s)) by {
        assert(t =~= s.skip(a));
    }
    assert forall|i: int| 0 <= i < a || b <= i < s.len() implies is_space(#[trigger] s[i]) by {
        if i >= b {
            assert(t[i - a] == s[i]);
        }
    }
}

proof fn lemma_trim_start(s: Seq<char>)
    ensures
        trim_start(s).len() <= s.len(),
        trim_start(s) == s.skip(s.len() - trim_start(s).len()),
        forall|i: int| 0 <= i < s.len() - trim_start(s).len() ==> is_space(#[trigger] s[i]),
        trim_start(s).len() > 0 ==> !is_space(trim_start(s)[0]),
    decreases s.len(),
{
    if s.len() > 0 && is_space(s[0]) {
        let rest = s.skip(1);
        lemma_trim_start(rest);
        let n = trim_start(s).len();
        assert(trim_start(s) =~= s.skip(s.len() - n));
        assert forall|i: int| 0 <= i < s.len() - n implies is_space(#[trigger] s[i]) by {
            if i > 0 {
                assert(rest[i - 1] == s[i]);
            }
        }
    } else {
        assert(s.skip(0) =~= s);
    }
}

proof fn lemma_trim_end(s: Seq<char>)
    ensures
        trim_end(s).len() <= s.len(),
        trim_end(s) == s.take(trim_end(s).len() as int),
        forall|i: int| trim_end(s).len() <= i < s.len() ==> is_space(#[trigger] s[i]),
        trim_end(s).len() > 0 ==> !is_space(trim_end(s).last()) && trim_end(s)[0] == s[0],
    decreases s.len(),
{
    if s.len() > 0 && is_space(s.last()) {
        let init = s.drop_last();
        lemma_trim_end(init);
        assert(trim_end(s) =~= s.take(trim_end(s).len() as int));
        assert forall|i: int| trim_end(s).len() <= i < s.len() implies is_space(
            #[trigger] s[i],
        ) by {
            if i < s.len() - 1 {
                assert(init[i] == s[i]);
            }
        }
    } else {
        assert(s.take(s.len() as int) =~= s);
    }
}

/// A text is split at its commas, all of them.
pub proof fn law_split(a: Seq<char>, b: Seq<char>)
    ensures
        split(a + seq![','] + b) == split(a) + split(b),
        !a.contains(',') ==> split(a) == seq![a],
{
    lemma_split_concat(a, b);
    if !a.contains(',') {
        lemma_no_comma(a, 0);
    }
}

proof fn lemma_no_comma(a: Seq<char>, from: int)
    requires
        0 <= from <= a.len(),
        !a.contains(','),
    ensures
        comma_from(a, from) == a.len(),
    decreases a.len() - from,
{
    if from < a.len() {
        assert(a[from] != ',');
        lemma_no_comma(a, from + 1);
    }
}

/// Whether decimal digits, at least one, spell `n`.
pub open spec fn spells(d: Seq<char>, n: int) -> bool {
    &&& d.len() > 0
    &&& forall|i: int| 0 <= i < d.len() ==> '0' <= #[trigger] d[i] <= '9'
    &&& text::spelled(d, 10) == n
}

/// A number is spelled by decimal digits, at least one, possibly with a plus sign before them, and
/// is below 256.
pub proof fn law_number(s: Seq<char>, n: u8)
    ensures
        s.len() > 0 && s[0] == '+' ==> (number(s) == Some(n) <==> spells(s.skip(1), n as int)),
        s.len() == 0 || s[0] != '+' ==> (number(s) == Some(n) <==> spells(s, n as int)),
{
    lemma_spells(s, n);
    lemma_spells(s.skip(1), n);
}

proof fn lemma_spells(d: Seq<char>, n: u8)
    ensures
        plain_number(d) == Some(n) <==> spells(d, n as int),
{
    if forall|i: int| 0 <= i < d.len() ==> '0' <= #[trigger] d[i] <= '9' {
        lemma_value(d);
        assert forall|i: int| 0 <= i < d.len() implies is_digit(#[trigger] d[i]) by {
        }
    }
    if plain_number(d) is Some {
        assert forall|i: int| 0 <= i < d.len() implies '0' <= #[trigger] d[i] <= '9' by {
            assert(is_digit(d[i]));
        }
    }
}

proof fn lemma_value(d: Seq<char>)
    requires
        forall|i: int| 0 <= i < d.len() ==> '0' <= #[trigger] d[i] <= '9',
    ensures
        digits_value(d) == text::spelled(d, 10),
    decreases d.len(),
{
    if d.len() > 0 {
        let init = d.drop_last();
        assert forall|i: int| 0 <= i < init.len() implies '0' <= #[trigger] init[i] <= '9' by {
            assert(init[i] == d[i]);
        }
        lemma_value(init);
        assert(d.last() == d[d.len() - 1]);
    }
}

/// Whether a part of a list names receiver slot `n`.
pub open spec fn names(part: Seq<char>, n: int) -> bool {
    number(trimmed(part)) == Some(n as u8) && 1 <= n <= 6
}

/// Whether a part of a list names a receiver slot.
pub open spec fn names_one(part: Seq<char>) -> bool {
    exists|n: int| names(part, n)
}

/// What a `--bind` argument selects: `all` and nothing every occupied slot, `receiver` and `none` no
/// slot, a list exactly the slots that its parts name. A list with a part that names none of the
/// slots 1 to 6 is refused, for the first such part.
pub proof fn law_bind(s: Seq<char>)
    ensures
        ({
            let t = trimmed(s);
            let parts = split(t);
            let word = t == "all"@ || t.len() == 0 || t == "receiver"@ || t == "none"@;
            &&& t == "all"@ || t.len() == 0 ==> bind_of(s) == Ok::<Option<u8>, Seq<char>>(None)
            &&& t == "receiver"@ || t == "none"@ ==> bind_of(s) == Ok::<Option<u8>, Seq<char>>(
                Some(0),
            )
            &&& !word ==> match bind_of(s) {
                Ok(None) => false,
                Ok(Some(mask)) => {
                    &&& forall|j: int|
                        0 <= j < parts.len() ==> names_one(#[trigger] parts[j])
                    &&& forall|n: int|
                        1 <= n <= 6 ==> (#[trigger] named(mask, n) <==> exists|j: int|
                            0 <= j < parts.len() && names(#[trigger] parts[j], n))
                    &&& mask < 64
                },
                Err(why) => exists|j: int|
                    {
                        &&& 0 <= j < parts.len()
                        &&& refuses(#[trigger] parts[j], why)
                        &&& forall|i: int|
                            0 <= i < j ==> names_one(#[trigger] parts[i])
                    },
            }
        }),
{
    reveal_strlit("");
    reveal_strlit("all");
    reveal_strlit("receiver");
    reveal_strlit("none");
    let t = trimmed(s);
    assert(t.len() == 0 ==> t =~= ""@);
    law_bind_in_range(s);
    lemma_parts_named(split(t), 0);
    assert forall|n: int| 1 <= n <= 6 implies !#[trigger] named(0, n) by {
        let k = (n - 1) as u8;
        assert(0u8 & (1u8 << k) == 0) by (bit_vector);
    }
}

/// Whether a mask holds receiver slot `n`.
pub open spec fn named(mask: u8, n: int) -> bool {
    mask & (1u8 << ((n - 1) as u8)) != 0
}

/// Whether a part names no receiver slot, and `why` says so.
pub open spec fn refuses(part: Seq<char>, why: Seq<char>) -> bool {
    match number(trimmed(part)) {
        None => why == "bad slot '"@ + part + "' (expected 1-6)"@,
        Some(n) => (n == 0 || n > 6) && why == "slot "@ + text::decimal_text(n as nat)
            + " out of range 1-6"@,
    }
}

proof fn lemma_parts_named(parts: Seq<Seq<char>>, before: u8)
    ensures
        match parts_mask(parts, before) {
            Ok(mask) => {
                &&& forall|j: int|
                    0 <= j < parts.len() ==> names_one(#[trigger] parts[j])
                &&& forall|n: int|
                    1 <= n <= 6 ==> (#[trigger] named(mask, n) <==> named(before, n) || exists|
                        j: int,
                    |
                        0 <= j < parts.len() && names(#[trigger] parts[j], n))
            },
            Err(why) => exists|j: int|
                {
                    &&& 0 <= j < parts.len()
                    &&& refuses(#[trigger] parts[j], why)
                    &&& forall|i: int| 0 <= i < j ==> names_one(#[trigger] parts[i])
                },
        },
    decreases parts.len(),
{
    if parts.len() > 0 {
        let rest = parts.skip(1);
        match part_bit(parts[0]) {
            Err(why) => {
                assert(refuses(parts[0], why));
            },
            Ok(bit) => {
                let m = number(trimmed(parts[0]))->0 as int;
                assert(names(parts[0], m));
                assert(names_one(parts[0]));
                lemma_parts_named(rest, before | bit);
                assert forall|j: int| 0 <= j < rest.len() implies #[trigger] rest[j] == parts[j
                    + 1] by {
                }
                assert forall|j: int| 1 <= j < parts.len() implies #[trigger] parts[j] == rest[j
                    - 1] by {
                }
                match parts_mask(rest, before | bit) {
                    Ok(mask) => {
                        assert forall|n: int| 1 <= n <= 6 implies (#[trigger] named(mask, n)
                            <==> named(before, n) || exists|j: int|
                            0 <= j < parts.len() && names(#[trigger] parts[j], n)) by {
                            let (x, y) = ((m - 1) as u8, (n - 1) as u8);
                            assert(x < 8 && y < 8 ==> ((before | (1u8 << x)) & (1u8 << y) != 0
                                <==> before & (1u8 << y) != 0 || x == y)) by (bit_vector);
                            assert(named(before | bit, n) <==> named(before, n) || m == n);
                            if exists|j: int| 0 <= j < rest.len() && names(#[trigger] rest[j], n) {
                                let j = choose|j: int|
                                    0 <= j < rest.len() && names(#[trigger] rest[j], n);
                                assert(names(parts[j + 1], n));
                            }
                            if exists|j: int|
                                0 <= j < parts.len() && names(#[trigger] parts[j], n) {
                                let j = choose|j: int|
                                    0 <= j < parts.len() && names(#[trigger] parts[j], n);
                                if j > 0 {
                                    assert(names(rest[j - 1], n));
                                }
                            }
                        }
                    },
                    Err(why) => {
                        let j = choose|j: int|
                            {
                                &&& 0 <= j < rest.len()
                                &&& refuses(#[trigger] rest[j], why)
                                &&& forall|i: int|
                                    0 <= i < j ==> names_one(#[trigger] rest[i])
                            };
                        assert(refuses(parts[j + 1], why));
                        assert forall|i: int| 0 <= i < j + 1 implies names_one(#[trigger] parts[i]) by {
                            if i > 0 {
                                assert(names_one(rest[i - 1]));
                            }
                        }
                    },
                }
            },
        }
    }
}

} // verus!
