//! Small helpers on text: decimal numbers, ASCII case, prefixes, bytes as UTF-8.
use vstd::prelude::*;
use vstd::string::*;
use vstd::utf8;

verus! {

/// What `String::from_utf8_lossy` makes of a byte string.
pub uninterp spec fn utf8_lossy(bytes: Seq<u8>) -> Seq<char>;

/// Calls `String::from_utf8_lossy`. Bytes that are UTF-8 come out as the text that they encode;
/// what stands for the invalid ones is a function of the bytes and is not spelled out.
#[verifier::external_body]
pub(crate) fn from_utf8_lossy(bytes: &[u8]) -> (r: String)
    ensures
        r@ == utf8_lossy(bytes@),
        utf8::valid_utf8(bytes@) ==> r@ == utf8::decode_utf8(bytes@),
{
    String::from_utf8_lossy(bytes).into_owned()
}

/// Calls `core::str::from_utf8`: the text that the bytes encode, where they are UTF-8.
#[verifier::external_body]
pub(crate) fn from_utf8(bytes: &[u8]) -> (r: Option<&str>)
    ensures
        r is Some <==> utf8::valid_utf8(bytes@),
        r matches Some(s) ==> utf8::encode_utf8(s@) == bytes@,
{
    core::str::from_utf8(bytes).ok()
}

/// The characters of a text.
pub(crate) fn characters(s: &str) -> (r: Vec<char>)
    ensures
        r@ == s@,
{
    let mut r: Vec<char> = Vec::new();
    for c in iter: s.chars()
        invariant
            r@ == iter.seq().take(iter.index() as int),
            iter.seq() == s@,
    {
        r.push(c);
    }
    r
}

/// The decimal digit with this value.
pub open spec fn digit(d: nat) -> char {
    (('0' as nat + d) as u32) as char
}

/// A number in decimal, without leading zeros.
pub open spec fn decimal(n: nat) -> Seq<char>
    decreases n,
{
    if n < 10 {
        seq![digit(n)]
    } else {
        decimal(n / 10).push(digit(n % 10))
    }
}

fn digit_text(d: u64) -> (r: &'static str)
    requires
        d < 10,
    ensures
        r@ == seq![digit(d as nat)],
{
    proof {
        reveal_strlit("0");
        reveal_strlit("1");
        reveal_strlit("2");
        reveal_strlit("3");
        reveal_strlit("4");
        reveal_strlit("5");
        reveal_strlit("6");
        reveal_strlit("7");
        reveal_strlit("8");
        reveal_strlit("9");
    }
    match d {
        0 => "0",
        1 => "1",
        2 => "2",
        3 => "3",
        4 => "4",
        5 => "5",
        6 => "6",
        7 => "7",
        8 => "8",
        _ => "9",
    }
}

/// Appends a number in decimal.
pub(crate) fn append_decimal(out: &mut String, n: u64)
    ensures
        final(out)@ == old(out)@ + decimal(n as nat),
    decreases n,
{
    if n < 10 {
        out.append(digit_text(n));
    } else {
        append_decimal(out, n / 10);
        out.append(digit_text(n % 10));
        proof {
            let d = seq![digit((n % 10) as nat)];
            assert(old(out)@ + decimal((n / 10) as nat) + d =~= old(out)@ + decimal(n as nat));
        }
    }
}

/// A signed number in decimal.
pub open spec fn signed_decimal(n: int) -> Seq<char> {
    if n < 0 {
        seq!['-'] + decimal((-n) as nat)
    } else {
        decimal(n as nat)
    }
}

/// Appends a signed number in decimal.
pub(crate) fn append_signed(out: &mut String, n: i64)
    ensures
        final(out)@ == old(out)@ + signed_decimal(n as int),
{
    if n < 0 {
        proof {
            reveal_strlit("-");
            assert("-"@ =~= seq!['-']);
        }
        out.append("-");
        append_decimal(out, (-(n as i128)) as u64);
        proof {
            let d = decimal((-n) as nat);
            assert(old(out)@ + "-"@ + d =~= old(out)@ + (seq!['-'] + d));
        }
    } else {
        append_decimal(out, n as u64);
    }
}

/// The hexadecimal digit with this value, in lower case.
pub open spec fn hex_digit(d: nat) -> char {
    if d < 10 {
        digit(d)
    } else {
        (('a' as nat + d - 10) as u32) as char
    }
}

/// A number in hexadecimal, without leading zeros.
pub open spec fn hexadecimal(n: nat) -> Seq<char>
    decreases n,
{
    if n < 16 {
        seq![hex_digit(n)]
    } else {
        hexadecimal(n / 16).push(hex_digit(n % 16))
    }
}

fn hex_digit_text(d: u64) -> (r: &'static str)
    requires
        d < 16,
    ensures
        r@ == seq![hex_digit(d as nat)],
{
    if d < 10 {
        return digit_text(d);
    }
    proof {
        reveal_strlit("a");
        reveal_strlit("b");
        reveal_strlit("c");
        reveal_strlit("d");
        reveal_strlit("e");
        reveal_strlit("f");
    }
    match d {
        10 => "a",
        11 => "b",
        12 => "c",
        13 => "d",
        14 => "e",
        _ => "f",
    }
}

/// Appends a number in hexadecimal.
pub(crate) fn append_hexadecimal(out: &mut String, n: u64)
    ensures
        final(out)@ == old(out)@ + hexadecimal(n as nat),
    decreases n,
{
    if n < 16 {
        out.append(hex_digit_text(n));
    } else {
        append_hexadecimal(out, n / 16);
        out.append(hex_digit_text(n % 16));
        proof {
            let d = seq![hex_digit((n % 16) as nat)];
            assert(old(out)@ + hexadecimal((n / 16) as nat) + d =~= old(out)@ + hexadecimal(
                n as nat,
            ));
        }
    }
}

/// A letter in lower case, if it is an ASCII letter.
pub open spec fn lower(c: char) -> char {
    if 'A' <= c <= 'Z' {
        ((c as u32 + 32) as u32) as char
    } else {
        c
    }
}

fn lower_case(c: char) -> (r: char)
    ensures
        r == lower(c),
{
    if 'A' <= c && c <= 'Z' {
        ((c as u8) + 32) as char
    } else {
        c
    }
}

/// `text` begins with `head`, ASCII case aside.
pub open spec fn begins_with(text: Seq<char>, head: Seq<char>) -> bool {
    &&& head.len() <= text.len()
    &&& forall|i: int| 0 <= i < head.len() ==> lower(#[trigger] text[i]) == lower(head[i])
}

/// `a` and `b` are the same text, ASCII case aside.
pub open spec fn same_text(a: Seq<char>, b: Seq<char>) -> bool {
    a.len() == b.len() && begins_with(a, b)
}

pub(crate) fn begins(text: &Vec<char>, head: &Vec<char>) -> (r: bool)
    ensures
        r == begins_with(text@, head@),
{
    if head.len() > text.len() {
        return false;
    }
    let mut i: usize = 0;
    while i < head.len()
        invariant
            i <= head.len() <= text.len(),
            forall|j: int| 0 <= j < i ==> lower(#[trigger] text[j]) == lower(head[j]),
        decreases head.len() - i,
    {
        if lower_case(text[i]) != lower_case(head[i]) {
            return false;
        }
        i = i + 1;
    }
    true
}

/// Whether two texts are the same, ASCII case aside.
pub(crate) fn equal_ignoring_case(a: &str, b: &str) -> (r: bool)
    ensures
        r == same_text(a@, b@),
{
    let (x, y) = (characters(a), characters(b));
    x.len() == y.len() && begins(&x, &y)
}

/// The value of a digit, `radix` or more for what is none.
pub open spec fn digit_value(c: char) -> nat {
    if '0' <= c <= '9' {
        (c as nat - '0' as nat) as nat
    } else if 'a' <= c <= 'z' {
        (c as nat - 'a' as nat + 10) as nat
    } else if 'A' <= c <= 'Z' {
        (c as nat - 'A' as nat + 10) as nat
    } else {
        36
    }
}

/// Every character is a digit of the radix.
pub open spec fn all_digits(s: Seq<char>, radix: nat) -> bool {
    forall|i: int| 0 <= i < s.len() ==> digit_value(#[trigger] s[i]) < radix
}

/// What a row of digits is worth.
pub open spec fn worth(s: Seq<char>, radix: nat) -> nat
    decreases s.len(),
{
    if s.len() == 0 {
        0
    } else {
        worth(s.drop_last(), radix) * radix + digit_value(s.last())
    }
}

/// The digits of a number, without the plus sign that may precede them.
pub open spec fn without_plus(s: Seq<char>) -> Seq<char> {
    if s.len() > 0 && s[0] == '+' {
        s.skip(1)
    } else {
        s
    }
}

/// The number that a text spells: an optional plus sign and then digits only, at least one, and
/// no more than 32 bits hold.
pub open spec fn number(s: Seq<char>, radix: nat) -> Option<u32> {
    let digits = without_plus(s);
    if digits.len() > 0 && all_digits(digits, radix) && worth(digits, radix) <= u32::MAX {
        Some(worth(digits, radix) as u32)
    } else {
        None
    }
}

fn digit_of(c: char) -> (r: u64)
    ensures
        r == digit_value(c),
{
    if '0' <= c && c <= '9' {
        ((c as u32) - 48) as u64
    } else if 'a' <= c && c <= 'z' {
        ((c as u32) - 97 + 10) as u64
    } else if 'A' <= c && c <= 'Z' {
        ((c as u32) - 65 + 10) as u64
    } else {
        36
    }
}

/// Reads the number that the characters from `start` on spell.
pub(crate) fn parse(s: &Vec<char>, start: usize, radix: u64) -> (r: Option<u32>)
    requires
        start <= s.len(),
        2 <= radix <= 36,
    ensures
        r == number(s@.skip(start as int), radix as nat),
{
    let ghost whole = s@.skip(start as int);
    let mut first: usize = start;
    if start < s.len() && s[start] == '+' {
        first = start + 1;
    }
    let ghost digits = without_plus(whole);
    proof {
        assert(digits =~= s@.skip(first as int));
    }
    if first == s.len() {
        return None;
    }
    let mut i: usize = first;
    let mut acc: u64 = 0;
    let mut over: bool = false;
    proof {
        assert(digits.take(0) =~= Seq::empty());
    }
    while i < s.len()
        invariant
            first <= i <= s.len(),
            2 <= radix <= 36,
            digits == s@.skip(first as int),
            digits == without_plus(s@.skip(start as int)),
            forall|j: int| 0 <= j < i - first ==> digit_value(#[trigger] digits[j]) < radix,
            acc <= u32::MAX,
            over ==> worth(digits.take(i - first), radix as nat) > u32::MAX,
            !over ==> acc == worth(digits.take(i - first), radix as nat),
        decreases s.len() - i,
    {
        let d: u64 = digit_of(s[i]);
        proof {
            assert(s[i as int] == digits[i - first]);
        }
        if d >= radix {
            proof {
                assert(!all_digits(digits, radix as nat));
            }
            return None;
        }
        proof {
            let (before, after) = (digits.take(i - first), digits.take(i + 1 - first));
            assert(after.drop_last() =~= before);
            let (w, x) = (worth(before, radix as nat), radix as nat);
            assert(w * x >= w) by (nonlinear_arith)
                requires
                    x >= 1,
                    w >= 0,
            ;
            assert(acc * radix <= 0xffff_ffff * 36) by (nonlinear_arith)
                requires
                    acc <= 0xffff_ffff,
                    radix <= 36,
            ;
        }
        if !over {
            let next: u64 = acc * radix + d;
            if next > 0xffff_ffff {
                over = true;
            } else {
                acc = next;
            }
        }
        i = i + 1;
    }
    proof {
        assert(digits.take(s.len() - first) =~= digits);
    }
    if over {
        None
    } else {
        Some(acc as u32)
    }
}

/// A number that is written in decimal reads back as that number.
pub proof fn a_decimal_reads_back(n: nat)
    ensures
        decimal(n).len() > 0,
        all_digits(decimal(n), 10),
        worth(decimal(n), 10) == n,
        '0' <= decimal(n)[0] <= '9',
        n <= u32::MAX ==> number(decimal(n), 10) == Some(n as u32),
    decreases n,
{
    let s = decimal(n);
    let last = digit(n % 10);
    assert(digit_value(last) == n % 10);
    assert(s.last() == last);
    if n < 10 {
        assert(s.drop_last() =~= Seq::empty());
        assert(worth(s.drop_last(), 10) == 0);
    } else {
        a_decimal_reads_back(n / 10);
        assert(s.drop_last() =~= decimal(n / 10));
        assert(s[0] == decimal(n / 10)[0]);
        assert forall|i: int| 0 <= i < s.len() implies digit_value(#[trigger] s[i]) < 10 by {
            if i < s.len() - 1 {
                assert(s[i] == decimal(n / 10)[i]);
            }
        }
    }
    assert(worth(s, 10) == worth(s.drop_last(), 10) * 10 + digit_value(last));
    assert(without_plus(s) == s);
}

/// A number that is written in hexadecimal reads back as that number.
pub proof fn a_hexadecimal_reads_back(n: nat)
    ensures
        hexadecimal(n).len() > 0,
        all_digits(hexadecimal(n), 16),
        worth(hexadecimal(n), 16) == n,
        hexadecimal(n)[0] != '+',
        n <= u32::MAX ==> number(hexadecimal(n), 16) == Some(n as u32),
    decreases n,
{
    let s = hexadecimal(n);
    let last = hex_digit(n % 16);
    assert(digit_value(last) == n % 16 && last != '+');
    assert(s.last() == last);
    if n < 16 {
        assert(s.drop_last() =~= Seq::empty());
        assert(worth(s.drop_last(), 16) == 0);
    } else {
        a_hexadecimal_reads_back(n / 16);
        assert(s.drop_last() =~= hexadecimal(n / 16));
        assert(s[0] == hexadecimal(n / 16)[0]);
        assert forall|i: int| 0 <= i < s.len() implies digit_value(#[trigger] s[i]) < 16 by {
            if i < s.len() - 1 {
                assert(s[i] == hexadecimal(n / 16)[i]);
            }
        }
    }
    assert(worth(s, 16) == worth(s.drop_last(), 16) * 16 + digit_value(last));
    assert(without_plus(s) == s);
}

/// A digit may be a decimal digit or a letter of either case, and counts as many as come before it.
pub proof fn what_a_digit_is_worth(c: char)
    ensures
        '0' <= c <= '9' ==> digit_value(c) == c as int - 48,
        'a' <= c <= 'f' ==> digit_value(c) == c as int - 87,
        'A' <= c <= 'F' ==> digit_value(c) == c as int - 55,
        digit_value(c) < 16 ==> ('0' <= c <= '9') || ('a' <= c <= 'f') || ('A' <= c <= 'F'),
        digit_value(c) < 10 ==> '0' <= c <= '9',
{
}

/// A text that is empty, or has anything but digits behind an optional plus sign, is no number; nor
/// is one that 32 bits do not hold. A plus sign changes nothing.
pub proof fn what_is_no_number(s: Seq<char>, radix: nat, i: int)
    ensures
        number(Seq::<char>::empty(), radix) is None,
        0 < i < s.len() && digit_value(s[i]) >= radix ==> number(s, radix) is None,
        s.len() > 0 && s[0] != '+' && digit_value(s[0]) >= radix ==> number(s, radix) is None,
        s.len() > 0 && s[0] != '+' ==> number(seq!['+'] + s, radix) == number(s, radix),
        s.len() > 0 && s[0] != '+' && worth(s, radix) > u32::MAX ==> number(s, radix) is None,
{
    if s.len() > 0 && s[0] != '+' {
        assert((seq!['+'] + s).skip(1) =~= s);
    }
    let digits = without_plus(s);
    if 0 < i < s.len() && digit_value(s[i]) >= radix {
        let k = if s[0] == '+' {
            i - 1
        } else {
            i
        };
        assert(digits[k] == s[i]);
        assert(!all_digits(digits, radix));
    }
    if s.len() > 0 && s[0] != '+' && digit_value(s[0]) >= radix {
        assert(!all_digits(s, radix));
    }
}

/// Letters are the same in either case, and nothing else is the same as anything but itself.
pub proof fn letters_are_the_same_in_either_case(a: char, b: char)
    ensures
        a == b ==> lower(a) == lower(b),
        'a' <= a <= 'z' && b as int == a as int - 32 ==> lower(a) == lower(b),
        lower(a) == lower(b) ==> a == b || ('a' <= a <= 'z' && b as int == a as int - 32) || ('a'
            <= b <= 'z' && a as int == b as int - 32),
{
}

/// A text begins with another if each character of that is at its place, in either case.
pub proof fn a_text_begins_with_its_head(text: Seq<char>, head: Seq<char>, i: int)
    ensures
        begins_with(text, text),
        head.is_prefix_of(text) ==> begins_with(text, head),
        begins_with(text, head) ==> head.len() <= text.len(),
        begins_with(text, head) && 0 <= i < head.len() ==> lower(text[i]) == lower(head[i]),
        same_text(text, head) <==> begins_with(text, head) && begins_with(head, text),
{
    if head.is_prefix_of(text) {
        assert forall|k: int| 0 <= k < head.len() implies lower(#[trigger] text[k]) == lower(
            head[k],
        ) by {
            assert(text.subrange(0, head.len() as int)[k] == text[k]);
        }
    }
}

/// Hexadecimal digits are written small.
pub proof fn hexadecimal_is_written_small(n: nat, i: int)
    requires
        0 <= i < hexadecimal(n).len(),
    ensures
        '0' <= hexadecimal(n)[i] <= '9' || 'a' <= hexadecimal(n)[i] <= 'f',
    decreases n,
{
    if n >= 16 && i < hexadecimal(n).len() - 1 {
        hexadecimal_is_written_small(n / 16, i);
    }
}

/// A number below zero has a minus sign and then what it has above; others have none.
pub proof fn a_minus_sign_comes_first(n: nat)
    ensures
        signed_decimal(n as int) == decimal(n),
        n > 0 ==> signed_decimal(-n) == seq!['-'] + decimal(n),
        signed_decimal(n as int)[0] != '-',
{
    a_decimal_reads_back(n);
}

} // verus!
