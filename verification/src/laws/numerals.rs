//! Numerals denote the numbers that they are written for.

use crate::addr::{all_address_chars, is_address_char};
use crate::fields::free_of;
use crate::text::{
    all_dec_digits, all_hex_digits, dec_text, dec_value, digit_char, digit_value, hex_group_of,
    hex_text, hex_value, is_dec_digit, is_hex_digit, octet_of,
};
use vstd::prelude::*;

verus! {

/// The decimal numeral of a number is made of decimal digits, starts with a
/// zero for zero only, is as long as the number is large, and denotes the
/// number.
pub proof fn lemma_dec_text(n: nat)
    ensures
        dec_text(n).len() >= 1,
        all_dec_digits(dec_text(n)),
        n > 0 ==> dec_text(n)[0] != '0',
        dec_value(dec_text(n)) == n,
        n < 10 ==> dec_text(n).len() == 1,
        n < 100 ==> dec_text(n).len() <= 2,
        n < 1000 ==> dec_text(n).len() <= 3,
    decreases n,
{
    if n < 10 {
        let t = dec_text(n);
        assert(t.drop_last() =~= Seq::<char>::empty());
        assert(dec_value(t.drop_last()) == 0);
    } else {
        lemma_dec_text(n / 10);
        let t = dec_text(n / 10);
        let c = digit_char(n % 10);
        assert(t.push(c).drop_last() =~= t);
        assert(t.push(c)[0] == t[0]);
    }
}

/// A numeral that starts with a digit other than zero denotes a number
/// other than zero.
pub proof fn lemma_dec_value_positive(t: Seq<char>)
    requires
        t.len() >= 1,
        all_dec_digits(t),
        t[0] != '0',
    ensures
        dec_value(t) >= 1,
    decreases t.len(),
{
    if t.len() == 1 {
        assert(t.drop_last() =~= Seq::<char>::empty());
        assert(dec_value(t.drop_last()) == 0);
        assert(is_dec_digit(t[0]));
    } else {
        let init = t.drop_last();
        assert forall|i: int| 0 <= i < init.len() implies is_dec_digit(#[trigger] init[i]) by {
            assert(init[i] == t[i]);
        }
        lemma_dec_value_positive(init);
    }
}

/// A text of decimal digits without a leading zero is the decimal numeral of
/// the number that it denotes.
pub proof fn lemma_dec_canonical(t: Seq<char>)
    requires
        t.len() >= 1,
        all_dec_digits(t),
        t.len() == 1 || t[0] != '0',
    ensures
        dec_text(dec_value(t)) == t,
    decreases t.len(),
{
    let init = t.drop_last();
    let c = t.last();
    assert(is_dec_digit(c));
    if t.len() == 1 {
        assert(init =~= Seq::<char>::empty());
        assert(dec_value(init) == 0);
        assert(dec_text(dec_value(t)) =~= t);
    } else {
        assert forall|i: int| 0 <= i < init.len() implies is_dec_digit(#[trigger] init[i]) by {
            assert(init[i] == t[i]);
        }
        assert(init[0] == t[0]);
        lemma_dec_canonical(init);
        lemma_dec_value_positive(init);
        let v = dec_value(init);
        let d = digit_value(c);
        assert(dec_value(t) == v * 10 + d);
        assert((v * 10 + d) / 10 == v);
        assert((v * 10 + d) % 10 == d);
        assert(digit_char(d) == c);
        assert(init.push(c) =~= t);
    }
}

/// A decimal numeral holds no character that is not a digit.
pub proof fn lemma_dec_text_free(n: nat, sep: char)
    requires
        !is_dec_digit(sep),
    ensures
        free_of(dec_text(n), sep),
{
    lemma_dec_text(n);
    assert forall|i: int| 0 <= i < dec_text(n).len() implies #[trigger] dec_text(n)[i] != sep by {
        assert(is_dec_digit(dec_text(n)[i]));
    }
}

/// The decimal numeral of an octet reads as that octet.
pub proof fn lemma_octet_round_trip(v: u8)
    ensures
        octet_of(dec_text(v as nat)) == Some(v),
{
    lemma_dec_text(v as nat);
}

/// A text that reads as an octet is the decimal numeral of that octet.
pub proof fn lemma_octet_canonical(f: Seq<char>)
    requires
        octet_of(f) is Some,
    ensures
        f == dec_text(octet_of(f).unwrap() as nat),
{
    lemma_dec_canonical(f);
}

/// The hexadecimal numeral of a number is made of lower-case hexadecimal
/// digits, is as long as the number is large, and denotes the number.
pub proof fn lemma_hex_text(n: nat)
    ensures
        hex_text(n).len() >= 1,
        all_hex_digits(hex_text(n)),
        all_address_chars(hex_text(n)),
        free_of(hex_text(n), ':'),
        free_of(hex_text(n), '.'),
        hex_value(hex_text(n)) == n,
        n < 0x10 ==> hex_text(n).len() == 1,
        n < 0x100 ==> hex_text(n).len() <= 2,
        n < 0x1000 ==> hex_text(n).len() <= 3,
        n < 0x10000 ==> hex_text(n).len() <= 4,
    decreases n,
{
    let c = digit_char(n % 16);
    assert(is_hex_digit(c) && is_address_char(c) && c != ':' && c != '.');
    if n < 16 {
        let t = hex_text(n);
        assert(t.drop_last() =~= Seq::<char>::empty());
        assert(hex_value(t.drop_last()) == 0);
    } else {
        lemma_hex_text(n / 16);
        let t = hex_text(n / 16);
        assert(t.push(c).drop_last() =~= t);
        assert forall|i: int| 0 <= i < t.push(c).len() implies {
            &&& is_hex_digit(#[trigger] t.push(c)[i])
            &&& is_address_char(t.push(c)[i])
            &&& t.push(c)[i] != ':'
            &&& t.push(c)[i] != '.'
        } by {
            if i < t.len() {
                assert(t.push(c)[i] == t[i]);
            }
        }
    }
}

/// The hexadecimal numeral of a group reads as that group.
pub proof fn lemma_hex_group_round_trip(v: u16)
    ensures
        hex_group_of(hex_text(v as nat)) == Some(v),
{
    lemma_hex_text(v as nat);
}

} // verus!
