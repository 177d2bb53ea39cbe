//! The dotted form of a version 4 address: a text is the dotted form of
//! four octets exactly if it reads as them.

use crate::addr::ipv4_text;
use crate::fields::{free_of, join, lemma_join_split, lemma_split_join, split};
use crate::laws::numerals::{
    lemma_dec_text, lemma_dec_text_free, lemma_octet_canonical, lemma_octet_round_trip,
};
use crate::parse::{octets_of, parse_ipv4_text};
use crate::text::{dec_text, is_dec_digit, octet_of};
use vstd::prelude::*;

verus! {

/// The dotted form of four octets reads as those octets.
pub proof fn lemma_ipv4_round_trip(o: Seq<u8>)
    requires
        o.len() == 4,
    ensures
        parse_ipv4_text(ipv4_text(o)) == Some(o),
{
    let fs = seq![
        dec_text(o[0] as nat),
        dec_text(o[1] as nat),
        dec_text(o[2] as nat),
        dec_text(o[3] as nat),
    ];
    assert forall|i: int| 0 <= i < fs.len() implies free_of(#[trigger] fs[i], '.') by {
        lemma_dec_text_free(o[i] as nat, '.');
    }
    lemma_split_join(fs, '.');
    assert forall|i: int| 0 <= i < fs.len() implies #[trigger] octet_of(fs[i]) == Some(o[i]) by {
        lemma_octet_round_trip(o[i]);
    }
    assert(octets_of(fs).unwrap() =~= o);
}

/// A text that reads as four octets is the dotted form of those octets.
pub proof fn lemma_ipv4_canonical(s: Seq<char>)
    requires
        parse_ipv4_text(s) is Some,
    ensures
        s == ipv4_text(parse_ipv4_text(s).unwrap()),
{
    let fs = split(s, '.');
    let o = parse_ipv4_text(s).unwrap();
    lemma_join_split(s, '.');
    assert(fs.len() == 4);
    let gs = seq![
        dec_text(o[0] as nat),
        dec_text(o[1] as nat),
        dec_text(o[2] as nat),
        dec_text(o[3] as nat),
    ];
    assert forall|i: int| 0 <= i < 4 implies fs[i] == gs[i] by {
        assert(octet_of(fs[i]) is Some);
        lemma_octet_canonical(fs[i]);
    }
    assert(fs =~= gs);
}

/// A text is the dotted form of four octets exactly if it reads as them.
pub proof fn lemma_ipv4_text_iff(s: Seq<char>, o: Seq<u8>)
    requires
        o.len() == 4,
    ensures
        parse_ipv4_text(s) == Some(o) <==> s == ipv4_text(o),
{
    if s == ipv4_text(o) {
        lemma_ipv4_round_trip(o);
    }
    if parse_ipv4_text(s) == Some(o) {
        lemma_ipv4_canonical(s);
    }
}

/// Two version 4 addresses with the same dotted form are the same address.
pub proof fn lemma_ipv4_text_injective(a: Seq<u8>, b: Seq<u8>)
    requires
        a.len() == 4,
        b.len() == 4,
        ipv4_text(a) == ipv4_text(b),
    ensures
        a == b,
{
    lemma_ipv4_round_trip(a);
    lemma_ipv4_round_trip(b);
}

/// The dotted form of four octets is made of digits and dots.
pub proof fn lemma_ipv4_text_chars(o: Seq<u8>)
    requires
        o.len() == 4,
    ensures
        forall|i: int|
            0 <= i < ipv4_text(o).len() ==> is_dec_digit(#[trigger] ipv4_text(o)[i]) || ipv4_text(
                o,
            )[i] == '.',
        ipv4_text(o).len() >= 7,
{
    let fs = seq![
        dec_text(o[0] as nat),
        dec_text(o[1] as nat),
        dec_text(o[2] as nat),
        dec_text(o[3] as nat),
    ];
    lemma_dec_text(o[0] as nat);
    lemma_dec_text(o[1] as nat);
    lemma_dec_text(o[2] as nat);
    lemma_dec_text(o[3] as nat);
    let f3 = fs.drop_last();
    let f2 = f3.drop_last();
    let f1 = f2.drop_last();
    assert(join(f1, '.') == fs[0]);
    assert(join(f2, '.') == join(f1, '.').push('.') + fs[1]);
    assert(join(f3, '.') == join(f2, '.').push('.') + fs[2]);
    assert(join(fs, '.') == join(f3, '.').push('.') + fs[3]);
    let t = ipv4_text(o);
    assert(t =~= fs[0].push('.') + fs[1].push('.') + fs[2].push('.') + fs[3]);
    assert forall|i: int| 0 <= i < t.len() implies is_dec_digit(#[trigger] t[i]) || t[i]
        == '.' by {
        let l0 = fs[0].len() as int;
        let l1 = fs[1].len() as int;
        let l2 = fs[2].len() as int;
        if i < l0 {
            assert(t[i] == fs[0][i]);
        } else if i == l0 {
        } else if i < l0 + 1 + l1 {
            assert(t[i] == fs[1][i - l0 - 1]);
        } else if i == l0 + 1 + l1 {
        } else if i < l0 + 1 + l1 + 1 + l2 {
            assert(t[i] == fs[2][i - l0 - l1 - 2]);
        } else if i == l0 + 1 + l1 + 1 + l2 {
        } else {
            assert(t[i] == fs[3][i - l0 - l1 - l2 - 3]);
        }
    }
}

} // verus!
