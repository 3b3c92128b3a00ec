//! Text building: decimal and hexadecimal numbers, character by character.

use vstd::prelude::*;
use vstd::string::*;

verus! {

/// The digit that stands for `n` (0 to 15) in upper-case hexadecimal.
pub open spec fn digit(n: int) -> char {
    if n < 10 {
        ('0' as u32 + n) as char
    } else {
        ('A' as u32 + n - 10) as char
    }
}

/// `n` in decimal, without leading zeros.
pub open spec fn decimal_text(n: nat) -> Seq<char>
    decreases n,
{
    if n < 10 {
        seq![digit(n as int)]
    } else {
        decimal_text(n / 10).push(digit((n % 10) as int))
    }
}

/// Two upper-case hexadecimal digits for every byte.
pub open spec fn hex_text(b: Seq<u8>) -> Seq<char> {
    Seq::new(
        2 * b.len(),
        |i: int| digit(if i % 2 == 0 { b[i / 2] as int / 16 } else { b[i / 2] as int % 16 }),
    )
}

/// An owned copy of `s`.
pub fn owned(s: &str) -> (r: String)
    ensures
        r@ == s@,
{
    String::from_str(s)
}

/// `a` followed by `b`.
pub fn glue(a: &str, b: &str) -> (r: String)
    ensures
        r@ == a@ + b@,
{
    let mut r: String = String::from_str(a);
    r.append(b);
    r
}

/// Whether two texts are equal.
pub fn same(a: &str, b: &str) -> (r: bool)
    ensures
        r == (a@ == b@),
{
    let len: usize = a.unicode_len();
    if len != b.unicode_len() {
        return false;
    }
    let mut i: usize = 0;
    while i < len
        invariant
            i <= len,
            len == a@.len(),
            len == b@.len(),
            forall|j: int| 0 <= j < i ==> a@[j] == b@[j],
        decreases len - i,
    {
        if a.get_char(i) != b.get_char(i) {
            return false;
        }
        i = i + 1;
    }
    assert(a@ =~= b@);
    true
}

/// Appends one digit.
pub fn push_digit(s: &mut String, n: u8)
    requires
        n < 16,
    ensures
        final(s)@ == old(s)@.push(digit(n as int)),
{
    proof {
        reveal_strlit("0");
        reveal_strlit("1");
        reveal_strlit("2");
        reveal_strlit("3");
        reveal_strlit("4");
        reveal_strlit("5");
        reveal_strlit("6");
        reveal_strlit("7");
        reveal_strlit("8");
        reveal_strlit("9");
        reveal_strlit("A");
        reveal_strlit("B");
        reveal_strlit("C");
        reveal_strlit("D");
        reveal_strlit("E");
        reveal_strlit("F");
    }
    let d: &str = match n {
        0 => "0",
        1 => "1",
        2 => "2",
        3 => "3",
        4 => "4",
        5 => "5",
        6 => "6",
        7 => "7",
        8 => "8",
        9 => "9",
        10 => "A",
        11 => "B",
        12 => "C",
        13 => "D",
        14 => "E",
        _ => "F",
    };
    assert(d@ =~= seq![digit(n as int)]);
    s.append(d);
    assert(s@ =~= old(s)@.push(digit(n as int)));
}

/// `n` in decimal.
pub fn decimal(n: u64) -> (s: String)
    ensures
        s@ == decimal_text(n as nat),
    decreases n,
{
    let mut s: String = if n < 10 {
        String::new()
    } else {
        decimal(n / 10)
    };
    push_digit(&mut s, (n % 10) as u8);
    assert(s@ =~= decimal_text(n as nat));
    s
}

/// `b` in upper-case hexadecimal.
pub fn hex(b: &[u8]) -> (s: String)
    ensures
        s@ == hex_text(b@),
{
    let mut s: String = String::new();
    let mut i: usize = 0;
    while i < b.len()
        invariant
            i <= b@.len(),
            s@ =~= hex_text(b@.take(i as int)),
        decreases b@.len() - i,
    {
        push_digit(&mut s, b[i] / 16);
        push_digit(&mut s, b[i] % 16);
        i = i + 1;
    }
    assert(b@.take(i as int) =~= b@);
    s
}

/// Whether `part` stands somewhere in `s`.
pub open spec fn occurs(s: Seq<char>, part: Seq<char>) -> bool {
    exists|i: int|
        0 <= i <= s.len() - part.len() && #[trigger] s.subrange(i, i + part.len()) == part
}

/// Whether `part` stands somewhere in `s`.
pub fn contains(s: &str, part: &str) -> (r: bool)
    ensures
        r == occurs(s@, part@),
{
    let len: usize = s.unicode_len();
    let n: usize = part.unicode_len();
    if n > len {
        return false;
    }
    let mut i: usize = 0;
    loop
        invariant
            n <= len,
            len == s@.len(),
            n == part@.len(),
            i <= len - n,
            forall|j: int| 0 <= j < i ==> #[trigger] s@.subrange(j, j + n) != part@,
        decreases len - i,
    {
        if same(s.substring_char(i, i + n), part) {
            assert(s@.subrange(i as int, i + part@.len()) == part@);
            return true;
        }
        if i == len - n {
            return false;
        }
        i = i + 1;
    }
}

/// Where the first line of `s` ends.
pub open spec fn line_end(s: Seq<char>, from: int) -> int
    decreases s.len() - from,
{
    if from >= s.len() {
        s.len() as int
    } else if s[from] == '\n' {
        from
    } else {
        line_end(s, from + 1)
    }
}

/// The first line of a text, without the line break and a carriage return before it.
pub open spec fn first_line_of(s: Seq<char>) -> Seq<char> {
    let k = line_end(s, 0);
    if 0 < k < s.len() && s[k - 1] == '\r' {
        s.take(k - 1)
    } else {
        s.take(k)
    }
}

/// The first line of `s`.
pub fn first_line(s: &str) -> (r: String)
    ensures
        r@ == first_line_of(s@),
{
    let len: usize = s.unicode_len();
    let mut k: usize = 0;
    while k < len && s.get_char(k) != '\n'
        invariant
            k <= len == s@.len(),
            line_end(s@, 0) == line_end(s@, k as int),
        decreases len - k,
    {
        k = k + 1;
    }
    let end: usize = if 0 < k && k < len && s.get_char(k - 1) == '\r' { k - 1 } else { k };
    assert(s@.take(end as int) =~= s@.subrange(0, end as int));
    owned(s.substring_char(0, end))
}

/// A text with a bar in place of every line break.
pub open spec fn on_one_line(s: Seq<char>) -> Seq<char>
    decreases s.len(),
{
    if s.len() == 0 {
        Seq::empty()
    } else {
        on_one_line(s.drop_last()) + if s.last() == '\n' {
            " |"@
        } else {
            seq![s.last()]
        }
    }
}

/// `s` with a bar in place of every line break.
pub fn one_line(s: &str) -> (r: String)
    ensures
        r@ == on_one_line(s@),
{
    let len: usize = s.unicode_len();
    let mut r: String = String::new();
    let mut i: usize = 0;
    assert(s@.take(0) =~= Seq::empty());
    while i < len
        invariant
            i <= len == s@.len(),
            r@ =~= on_one_line(s@.take(i as int)),
        decreases len - i,
    {
        assert(s@.take(i + 1).drop_last() =~= s@.take(i as int));
        if s.get_char(i) == '\n' {
            r.append(" |");
        } else {
            assert(s@.subrange(i as int, i + 1) =~= seq![s@[i as int]]);
            r.append(s.substring_char(i, i + 1));
        }
        i = i + 1;
    }
    assert(s@.take(i as int) =~= s@);
    r
}

/// Two decimal digits.
pub open spec fn two_digits(n: int) -> Seq<char> {
    seq![digit(n / 10), digit(n % 10)]
}

/// Appends two decimal digits.
pub fn push_two_digits(s: &mut String, n: u8)
    requires
        n < 100,
    ensures
        final(s)@ == old(s)@ + two_digits(n as int),
{
    push_digit(s, n / 10);
    push_digit(s, n % 10);
    assert(s@ =~= old(s)@ + two_digits(n as int));
}

/// The number that a digit stands for: 0 to 9, and A to F for 10 to 15.
pub open spec fn digit_value(c: char) -> int {
    if '0' <= c <= '9' {
        c as u32 - '0' as u32
    } else {
        c as u32 - 'A' as u32 + 10
    }
}

/// The number that digits spell to a base.
pub open spec fn spelled(s: Seq<char>, base: int) -> int
    decreases s.len(),
{
    if s.len() == 0 {
        0
    } else {
        spelled(s.drop_last(), base) * base + digit_value(s.last())
    }
}

/// A number in decimal spells the number, in decimal digits, without a zero before others.
pub proof fn law_decimal(n: nat)
    ensures
        spelled(decimal_text(n), 10) == n,
        decimal_text(n).len() > 0,
        forall|i: int|
            0 <= i < decimal_text(n).len() ==> '0' <= (#[trigger] decimal_text(n)[i]) <= '9',
        decimal_text(n)[0] == '0' ==> n == 0,
    decreases n,
{
    reveal_with_fuel(spelled, 2);
    if n >= 10 {
        law_decimal(n / 10);
        let s = decimal_text(n);
        assert(s.drop_last() =~= decimal_text(n / 10));
        assert forall|i: int| 0 <= i < s.len() implies '0' <= (#[trigger] s[i]) <= '9' by {
            if i < s.len() - 1 {
                assert(s[i] == decimal_text(n / 10)[i]);
            }
        }
        assert(s[0] == decimal_text(n / 10)[0]);
    }
}

/// Bytes in hexadecimal: two digits for each, upper-case, which spell it.
pub proof fn law_hex(b: Seq<u8>, i: int)
    requires
        0 <= i < b.len(),
    ensures
        hex_text(b).len() == 2 * b.len(),
        spelled(hex_text(b).subrange(2 * i, 2 * i + 2), 16) == b[i],
        forall|j: int|
            0 <= j < hex_text(b).len() ==> '0' <= (#[trigger] hex_text(b)[j]) <= '9' || 'A'
                <= hex_text(b)[j] <= 'F',
{
    let s = hex_text(b).subrange(2 * i, 2 * i + 2);
    reveal_with_fuel(spelled, 3);
    let v = b[i] as int;
    assert(s[0] == hex_text(b)[2 * i]);
    assert(s[1] == hex_text(b)[2 * i + 1]);
    assert((2 * i) / 2 == i && (2 * i + 1) / 2 == i && (2 * i) % 2 == 0 && (2 * i + 1) % 2 == 1);
    assert(s[0] == digit(v / 16) && s[1] == digit(v % 16));
    assert(0 <= v / 16 < 16 && 0 <= v % 16 < 16);
    assert(digit_value(digit(v / 16)) == v / 16);
    assert(digit_value(digit(v % 16)) == v % 16);
    assert(s.drop_last().last() == s[0]);
    assert(s.drop_last().drop_last().len() == 0);
    assert forall|j: int| 0 <= j < hex_text(b).len() implies '0' <= (#[trigger] hex_text(b)[j])
        <= '9' || 'A' <= hex_text(b)[j] <= 'F' by {
        let w = b[j / 2] as int;
        assert(0 <= w / 16 < 16 && 0 <= w % 16 < 16);
    }
}

/// Two digits spell a number below a hundred.
pub proof fn law_two_digits(n: int)
    requires
        0 <= n < 100,
    ensures
        two_digits(n).len() == 2,
        spelled(two_digits(n), 10) == n,
{
    reveal_with_fuel(spelled, 3);
    let s = two_digits(n);
    assert(s.drop_last().last() == s[0]);
    assert(s.drop_last().drop_last().len() == 0);
}

/// The first line of a text holds no line break, and behind it the text ends or a line break
/// follows, possibly with a carriage return before it.
pub proof fn law_first_line(s: Seq<char>)
    ensures
        !first_line_of(s).contains('\n'),
        ({
            let rest = s.skip(first_line_of(s).len() as int);
            &&& first_line_of(s).len() <= s.len()
            &&& s == first_line_of(s) + rest
            &&& rest.len() == 0 || rest[0] == '\n' || rest.len() > 1 && rest[0] == '\r' && rest[1]
                == '\n'
            &&& rest.len() > 0 && rest[0] == '\n' ==> first_line_of(s).len() == 0
                || first_line_of(s).last() != '\r'
        }),
{
    lemma_line_end(s, 0);
    let line = first_line_of(s);
    let rest = s.skip(line.len() as int);
    assert(s =~= line + rest);
    assert forall|i: int| 0 <= i < line.len() implies line[i] != '\n' by {
        assert(line[i] == s[i]);
    }
}

proof fn lemma_line_end(s: Seq<char>, from: int)
    requires
        0 <= from <= s.len(),
    ensures
        from <= line_end(s, from) <= s.len(),
        forall|i: int| from <= i < line_end(s, from) ==> s[i] != '\n',
        line_end(s, from) < s.len() ==> s[line_end(s, from)] == '\n',
    decreases s.len() - from,
{
    if from < s.len() && s[from] != '\n' {
        lemma_line_end(s, from + 1);
    }
}

/// On one line, a text without line breaks stays as it is, and a line break becomes a bar.
pub proof fn law_on_one_line(a: Seq<char>, b: Seq<char>)
    ensures
        !a.contains('\n') ==> on_one_line(a) == a,
        on_one_line(a + seq!['\n'] + b) == on_one_line(a) + " |"@ + on_one_line(b),
    decreases a.len() + b.len(),
{
    lemma_without_breaks(a);
    lemma_one_line_concat(a + seq!['\n'], b);
    let t = a + seq!['\n'];
    assert(t.drop_last() =~= a);
    assert(on_one_line(t) == on_one_line(a) + " |"@);
}

proof fn lemma_without_breaks(a: Seq<char>)
    ensures
        !a.contains('\n') ==> on_one_line(a) == a,
    decreases a.len(),
{
    if a.len() > 0 && !a.contains('\n') {
        let init = a.drop_last();
        assert(!init.contains('\n')) by {
            if init.contains('\n') {
                let i = choose|i: int| 0 <= i < init.len() && init[i] == '\n';
                assert(a[i] == '\n');
            }
        }
        lemma_without_breaks(init);
        assert(a.last() == a[a.len() - 1]);
        assert(on_one_line(a) =~= a);
    }
}

proof fn lemma_one_line_concat(a: Seq<char>, b: Seq<char>)
    ensures
        on_one_line(a + b) == on_one_line(a) + on_one_line(b),
    decreases b.len(),
{
    if b.len() == 0 {
        assert(a + b =~= a);
        assert(on_one_line(a) + on_one_line(b) =~= on_one_line(a));
    } else {
        let init = b.drop_last();
        lemma_one_line_concat(a, init);
        assert((a + b).drop_last() =~= a + init);
        assert(on_one_line(a + b) =~= on_one_line(a) + on_one_line(b));
    }
}

/// A text occurs in every text that it is put into, and in no other.
pub proof fn law_occurs(a: Seq<char>, part: Seq<char>, b: Seq<char>, s: Seq<char>)
    ensures
        occurs(a + part + b, part),
        occurs(s, part) <==> exists|x: Seq<char>, y: Seq<char>| s == #[trigger] around(x, part, y),
{
    let all = a + part + b;
    assert(all.subrange(a.len() as int, a.len() + part.len() as int) =~= part);
    if occurs(s, part) {
        let i = choose|i: int|
            0 <= i <= s.len() - part.len() && #[trigger] s.subrange(i, i + part.len()) == part;
        let (x, y) = (s.take(i), s.skip(i + part.len()));
        assert(s =~= around(x, part, y));
    }
    if exists|x: Seq<char>, y: Seq<char>| s == #[trigger] around(x, part, y) {
        let (x, y) = choose|x: Seq<char>, y: Seq<char>| s == #[trigger] around(x, part, y);
        assert(s.subrange(x.len() as int, x.len() + part.len() as int) =~= part);
    }
}

/// A text with others before and behind it.
pub open spec fn around(x: Seq<char>, part: Seq<char>, y: Seq<char>) -> Seq<char> {
    x + part + y
}

} // verus!
