//! Digits and numerals.
//!
//! The spec functions of this module say what decimal and hexadecimal text
//! means as numbers, and which text a number is written as. The executable
//! functions read and write such text and are proved against those meanings.

use vstd::prelude::*;
use vstd::string::*;

verus! {

/// Whether `c` is one of the ten decimal digits.
pub open spec fn is_dec_digit(c: char) -> bool {
    '0' <= c && c <= '9'
}

/// Whether `c` is a hexadecimal digit, in either case.
pub open spec fn is_hex_digit(c: char) -> bool {
    ('0' <= c && c <= '9') || ('a' <= c && c <= 'f') || ('A' <= c && c <= 'F')
}

/// The number that the digit `c` stands for; 0 for any other character.
pub open spec fn digit_value(c: char) -> nat {
    if '0' <= c && c <= '9' {
        (c as int - '0' as int) as nat
    } else if 'a' <= c && c <= 'f' {
        (c as int - 'a' as int + 10) as nat
    } else if 'A' <= c && c <= 'F' {
        (c as int - 'A' as int + 10) as nat
    } else {
        0
    }
}

/// The digit that stands for `d`, in lower case, for `d` below 16.
pub open spec fn digit_char(d: nat) -> char {
    if d < 10 {
        ('0' as int + d) as char
    } else {
        ('a' as int + d - 10) as char
    }
}

/// Whether every character of `t` is a decimal digit.
pub open spec fn all_dec_digits(t: Seq<char>) -> bool {
    forall|i: int| 0 <= i < t.len() ==> is_dec_digit(#[trigger] t[i])
}

/// Whether every character of `t` is a hexadecimal digit.
pub open spec fn all_hex_digits(t: Seq<char>) -> bool {
    forall|i: int| 0 <= i < t.len() ==> is_hex_digit(#[trigger] t[i])
}

/// The number that `t` denotes when read as decimal digits, most significant
/// digit first.
pub open spec fn dec_value(t: Seq<char>) -> nat
    decreases t.len(),
{
    if t.len() == 0 {
        0
    } else {
        dec_value(t.drop_last()) * 10 + digit_value(t.last())
    }
}

/// The number that `t` denotes when read as hexadecimal digits, most
/// significant digit first.
pub open spec fn hex_value(t: Seq<char>) -> nat
    decreases t.len(),
{
    if t.len() == 0 {
        0
    } else {
        hex_value(t.drop_last()) * 16 + digit_value(t.last())
    }
}

/// The decimal numeral of `n`: no sign, no leading zero, `0` for zero.
pub open spec fn dec_text(n: nat) -> Seq<char>
    decreases n,
{
    if n < 10 {
        seq![digit_char(n)]
    } else {
        dec_text(n / 10).push(digit_char(n % 10))
    }
}

/// The hexadecimal numeral of `n`: lower case, no prefix, no leading zero,
/// `0` for zero.
pub open spec fn hex_text(n: nat) -> Seq<char>
    decreases n,
{
    if n < 16 {
        seq![digit_char(n)]
    } else {
        hex_text(n / 16).push(digit_char(n % 16))
    }
}

/// The number that a field of a dotted address denotes: one to three decimal
/// digits without a leading zero, worth at most 255. `None` for any other
/// text.
pub open spec fn octet_of(f: Seq<char>) -> Option<u8> {
    if 1 <= f.len() <= 3 && all_dec_digits(f) && (f.len() == 1 || f[0] != '0') && dec_value(f)
        <= 255 {
        Some(dec_value(f) as u8)
    } else {
        None
    }
}

/// The number that a field of a colon-separated address denotes: one to four
/// hexadecimal digits in either case. `None` for any other text.
pub open spec fn hex_group_of(f: Seq<char>) -> Option<u16> {
    if 1 <= f.len() <= 4 && all_hex_digits(f) {
        Some(hex_value(f) as u16)
    } else {
        None
    }
}

/// Reading one more digit multiplies what was read by ten and adds the digit.
pub proof fn lemma_dec_value_step(t: Seq<char>, k: int)
    requires
        0 <= k < t.len(),
    ensures
        dec_value(t.take(k + 1)) == dec_value(t.take(k)) * 10 + digit_value(t[k]),
{
    assert(t.take(k + 1).drop_last() =~= t.take(k));
}

/// Reading one more digit multiplies what was read by sixteen and adds the
/// digit.
pub proof fn lemma_hex_value_step(t: Seq<char>, k: int)
    requires
        0 <= k < t.len(),
    ensures
        hex_value(t.take(k + 1)) == hex_value(t.take(k)) * 16 + digit_value(t[k]),
{
    assert(t.take(k + 1).drop_last() =~= t.take(k));
}

/// The characters of `s`, in a vector that can be read by position.
pub(crate) fn chars_of(s: &str) -> (v: Vec<char>)
    ensures
        v@ == s@,
{
    let mut v: Vec<char> = Vec::new();
    for c in it: s.chars()
        invariant
            v@ == it.seq().take(it.index() as int),
    {
        v.push(c);
    }
    v
}

/// The value of `c` as a decimal digit, if it is one.
pub(crate) fn dec_digit_of(c: char) -> (r: Option<u8>)
    ensures
        r is Some <==> is_dec_digit(c),
        r matches Some(d) ==> d == digit_value(c) && d < 10,
{
    if '0' <= c && c <= '9' {
        Some(c as u8 - '0' as u8)
    } else {
        None
    }
}

/// The value of `c` as a hexadecimal digit, if it is one.
pub(crate) fn hex_digit_of(c: char) -> (r: Option<u8>)
    ensures
        r is Some <==> is_hex_digit(c),
        r matches Some(d) ==> d == digit_value(c) && d < 16,
{
    if '0' <= c && c <= '9' {
        Some(c as u8 - '0' as u8)
    } else if 'a' <= c && c <= 'f' {
        Some(c as u8 - 'a' as u8 + 10)
    } else if 'A' <= c && c <= 'F' {
        Some(c as u8 - 'A' as u8 + 10)
    } else {
        None
    }
}

/// Reads the characters of `t` from `a` up to `b` as one field of a dotted
/// address.
pub(crate) fn read_octet(t: &Vec<char>, a: usize, b: usize) -> (r: Option<u8>)
    requires
        a <= b <= t.len(),
    ensures
        r == octet_of(t@.subrange(a as int, b as int)),
{
    let ghost f = t@.subrange(a as int, b as int);
    let n: usize = b - a;
    if n == 0 || n > 3 {
        return None;
    }
    if n > 1 && t[a] == '0' {
        assert(f[0] == '0');
        return None;
    }
    let mut v: u32 = 0;
    let mut i: usize = a;
    while i < b
        invariant
            a <= i <= b <= t.len(),
            b - a <= 3,
            f == t@.subrange(a as int, b as int),
            v == dec_value(f.take(i - a)),
            all_dec_digits(f.take(i - a)),
            i - a == 0 ==> v == 0,
            i - a == 1 ==> v < 10,
            i - a == 2 ==> v < 100,
            i - a == 3 ==> v < 1000,
        decreases b - i,
    {
        let c: char = t[i];
        assert(c == f[i - a]);
        match dec_digit_of(c) {
            None => {
                return None;
            },
            Some(d) => {
                proof {
                    lemma_dec_value_step(f, i - a);
                    assert forall|j: int| 0 <= j < i - a + 1 implies is_dec_digit(
                        #[trigger] f.take(i - a + 1)[j],
                    ) by {
                        if j < i - a {
                            assert(f.take(i - a + 1)[j] == f.take(i - a)[j]);
                        }
                    }
                }
                v = v * 10 + d as u32;
            },
        }
        i += 1;
    }
    assert(f.take(i - a) =~= f);
    if v > 255 {
        None
    } else {
        Some(v as u8)
    }
}

/// Reads the characters of `t` from `a` up to `b` as one field of a
/// colon-separated address.
pub(crate) fn read_hex_group(t: &Vec<char>, a: usize, b: usize) -> (r: Option<u16>)
    requires
        a <= b <= t.len(),
    ensures
        r == hex_group_of(t@.subrange(a as int, b as int)),
{
    let ghost f = t@.subrange(a as int, b as int);
    let n: usize = b - a;
    if n == 0 || n > 4 {
        return None;
    }
    let mut v: u32 = 0;
    let mut i: usize = a;
    while i < b
        invariant
            a <= i <= b <= t.len(),
            b - a <= 4,
            f == t@.subrange(a as int, b as int),
            v == hex_value(f.take(i - a)),
            all_hex_digits(f.take(i - a)),
            i - a == 0 ==> v == 0,
            i - a == 1 ==> v < 0x10,
            i - a == 2 ==> v < 0x100,
            i - a == 3 ==> v < 0x1000,
            i - a == 4 ==> v < 0x10000,
        decreases b - i,
    {
        let c: char = t[i];
        assert(c == f[i - a]);
        match hex_digit_of(c) {
            None => {
                return None;
            },
            Some(d) => {
                proof {
                    lemma_hex_value_step(f, i - a);
                    assert forall|j: int| 0 <= j < i - a + 1 implies is_hex_digit(
                        #[trigger] f.take(i - a + 1)[j],
                    ) by {
                        if j < i - a {
                            assert(f.take(i - a + 1)[j] == f.take(i - a)[j]);
                        }
                    }
                }
                v = v * 16 + d as u32;
            },
        }
        i += 1;
    }
    assert(f.take(i - a) =~= f);
    Some(v as u16)
}

/// Appends to `s` the lower-case digit that stands for `d`.
pub(crate) fn push_digit(s: &mut String, d: u8)
    requires
        d < 16,
    ensures
        final(s)@ == old(s)@.push(digit_char(d as nat)),
{
    proof {
        reveal_strlit("0");
        reveal_strlit("1");
        reveal_strlit("2");
        reveal_strlit("3");
        reveal_strlit("4");
        reveal_strlit("5");
        reveal_strlit("6");
        reveal_strlit("7");
        reveal_strlit("8");
        reveal_strlit("9");
        reveal_strlit("a");
        reveal_strlit("b");
        reveal_strlit("c");
        reveal_strlit("d");
        reveal_strlit("e");
        reveal_strlit("f");
    }
    let lit: &str = if d == 0 {
        "0"
    } else if d == 1 {
        "1"
    } else if d == 2 {
        "2"
    } else if d == 3 {
        "3"
    } else if d == 4 {
        "4"
    } else if d == 5 {
        "5"
    } else if d == 6 {
        "6"
    } else if d == 7 {
        "7"
    } else if d == 8 {
        "8"
    } else if d == 9 {
        "9"
    } else if d == 10 {
        "a"
    } else if d == 11 {
        "b"
    } else if d == 12 {
        "c"
    } else if d == 13 {
        "d"
    } else if d == 14 {
        "e"
    } else {
        "f"
    };
    assert(lit@ =~= seq![digit_char(d as nat)]);
    s.append(lit);
    assert(s@ =~= old(s)@.push(digit_char(d as nat)));
}

/// Appends to `s` the decimal numeral of `n`.
pub(crate) fn push_dec(s: &mut String, n: u64)
    ensures
        final(s)@ == old(s)@ + dec_text(n as nat),
    decreases n,
{
    if n >= 10 {
        push_dec(s, n / 10);
    }
    push_digit(s, (n % 10) as u8);
    assert(s@ =~= old(s)@ + dec_text(n as nat));
}

/// Appends to `s` the hexadecimal numeral of `n`.
pub(crate) fn push_hex(s: &mut String, n: u16)
    ensures
        final(s)@ == old(s)@ + hex_text(n as nat),
    decreases n,
{
    if n >= 16 {
        push_hex(s, n / 16);
    }
    push_digit(s, (n % 16) as u8);
    assert(s@ =~= old(s)@ + hex_text(n as nat));
}

} // verus!
