//! The written form of a version 6 address, and of an address of either
//! version: the text of an address reads as that address, so that two
//! addresses with one text are one address.

use crate::addr::{
    all_address_chars, all_zero, elision, hex_fields, hex_join, ipv4_text, ipv6_text,
    is_address_char, is_elision, is_v4_mapped, mapped_prefix, octets_of_groups, Address,
};
use crate::fields::{
    all_free_of, free_of, join, lemma_split_append, lemma_split_free, lemma_split_join, split,
};
use crate::laws::dotted::{lemma_ipv4_canonical, lemma_ipv4_round_trip, lemma_ipv4_text_chars};
use crate::laws::numerals::{lemma_hex_group_round_trip, lemma_hex_text};
use crate::parse::{
    first_double_colon, groups, groups_of_octets, head_groups, is_double_colon,
    is_first_double_colon, lemma_first_double_colon_is, parse_ip_text, parse_ipv4_text,
    parse_ipv6_text, plain_groups, tail_groups, zero_groups,
};
use crate::text::{hex_group_of, hex_text, is_dec_digit};
use vstd::prelude::*;

verus! {

/// Whether no two colons stand side by side in `t`.
pub open spec fn no_double_colon(t: Seq<char>) -> bool {
    forall|q: int| !is_double_colon(t, q)
}

/// The hexadecimal numeral of a group does not read as a dotted address.
pub proof fn lemma_hex_text_is_no_quad(v: u16)
    ensures
        parse_ipv4_text(hex_text(v as nat)) is None,
{
    lemma_hex_text(v as nat);
    lemma_split_free(hex_text(v as nat), '.');
}

/// The numerals of some groups read as those groups, whether or not the
/// last field may be a dotted address.
pub proof fn lemma_hex_fields(g: Seq<u16>)
    ensures
        hex_fields(g).len() == g.len(),
        all_free_of(hex_fields(g), ':'),
        forall|i: int| 0 <= i < g.len() ==> (#[trigger] hex_fields(g)[i]).len() >= 1,
        forall|i: int| 0 <= i < g.len() ==> all_address_chars(#[trigger] hex_fields(g)[i]),
        plain_groups(hex_fields(g)) == Some(g),
        groups(hex_fields(g)) == Some(g),
{
    let fs = hex_fields(g);
    assert forall|i: int| 0 <= i < g.len() implies {
        &&& free_of(#[trigger] fs[i], ':')
        &&& fs[i].len() >= 1
        &&& all_address_chars(fs[i])
        &&& hex_group_of(fs[i]) == Some(g[i])
    } by {
        lemma_hex_text(g[i] as nat);
    }
    assert(plain_groups(fs).unwrap() =~= g);
    if g.len() >= 1 {
        lemma_hex_text_is_no_quad(g.last());
    }
}

/// What the join of one or more fields looks like, where no field is empty
/// or holds the separator: it is not empty, neither starts nor ends with the
/// separator, and holds no two separators side by side.
pub proof fn lemma_join_shape(fs: Seq<Seq<char>>, sep: char)
    requires
        fs.len() >= 1,
        all_free_of(fs, sep),
        forall|i: int| 0 <= i < fs.len() ==> (#[trigger] fs[i]).len() >= 1,
    ensures
        join(fs, sep).len() >= 1,
        join(fs, sep)[0] != sep,
        join(fs, sep).last() != sep,
        forall|q: int|
            0 <= q && q + 1 < join(fs, sep).len() ==> !(#[trigger] join(fs, sep)[q] == sep && join(
                fs,
                sep,
            )[q + 1] == sep),
        fs.len() >= 2 ==> exists|q: int| 0 <= q < join(fs, sep).len() && join(fs, sep)[q] == sep,
    decreases fs.len(),
{
    let j = join(fs, sep);
    if fs.len() == 1 {
        assert(free_of(fs[0], sep));
    } else {
        let init = fs.drop_last();
        let last = fs.last();
        assert(free_of(last, sep));
        assert forall|i: int| 0 <= i < init.len() implies free_of(#[trigger] init[i], sep)
            && init[i].len() >= 1 by {
            assert(init[i] == fs[i]);
        }
        lemma_join_shape(init, sep);
        let ji = join(init, sep);
        let n = ji.len() as int;
        assert(j == ji.push(sep) + last);
        assert(j[n] == sep);
        assert forall|q: int| 0 <= q && q + 1 < j.len() implies !(#[trigger] j[q] == sep && j[q
            + 1] == sep) by {
            if q + 1 < n {
                assert(j[q] == ji[q] && j[q + 1] == ji[q + 1]);
            } else if q + 1 == n {
                assert(j[q] == ji.last());
            } else if q == n {
                assert(j[q + 1] == last[0]);
            } else {
                assert(j[q] == last[q - n - 1]);
            }
        }
        assert(j[0] == ji[0]);
        assert(j.last() == last.last());
    }
}

/// The characters of a join are the separator and the characters of the
/// fields.
pub proof fn lemma_join_chars(fs: Seq<Seq<char>>, sep: char)
    requires
        is_address_char(sep),
        forall|i: int| 0 <= i < fs.len() ==> all_address_chars(#[trigger] fs[i]),
    ensures
        all_address_chars(join(fs, sep)),
    decreases fs.len(),
{
    if fs.len() >= 2 {
        let init = fs.drop_last();
        let last = fs.last();
        assert(all_address_chars(last));
        assert forall|i: int| 0 <= i < init.len() implies all_address_chars(#[trigger] init[i]) by {
            assert(init[i] == fs[i]);
        }
        lemma_join_chars(init, sep);
        let ji = join(init, sep);
        let j = join(fs, sep);
        assert forall|i: int| 0 <= i < j.len() implies is_address_char(#[trigger] j[i]) by {
            if i < ji.len() {
                assert(j[i] == ji[i]);
            } else if i > ji.len() {
                assert(j[i] == last[i - ji.len() - 1]);
            }
        }
    } else if fs.len() == 1 {
        assert(all_address_chars(fs[0]));
    }
}

/// The colon-separated numerals of some groups hold no two colons side by
/// side, and neither start nor end with a colon.
pub proof fn lemma_hex_join_shape(g: Seq<u16>)
    ensures
        no_double_colon(hex_join(g)),
        all_address_chars(hex_join(g)),
        g.len() == 0 ==> hex_join(g).len() == 0,
        g.len() >= 1 ==> hex_join(g).len() >= 1 && hex_join(g).last() != ':' && hex_join(g)[0]
            != ':',
        g.len() >= 2 ==> exists|q: int| 0 <= q < hex_join(g).len() && hex_join(g)[q] == ':',
{
    lemma_hex_fields(g);
    lemma_join_chars(hex_fields(g), ':');
    if g.len() >= 1 {
        lemma_join_shape(hex_fields(g), ':');
        let j = hex_join(g);
        assert forall|q: int| !is_double_colon(j, q) by {
            if 0 <= q && q + 1 < j.len() {
                assert(!(j[q] == ':' && j[q + 1] == ':'));
            }
        }
    } else {
        assert forall|q: int| !is_double_colon(hex_join(g), q) by {}
    }
}

/// The colon-separated numerals of some groups read as those groups.
pub proof fn lemma_hex_join_groups(g: Seq<u16>)
    ensures
        head_groups(hex_join(g)) == Some(g),
        tail_groups(hex_join(g)) == Some(g),
        g.len() >= 1 ==> groups(split(hex_join(g), ':')) == Some(g),
{
    lemma_hex_fields(g);
    lemma_hex_join_shape(g);
    if g.len() >= 1 {
        lemma_split_join(hex_fields(g), ':');
    } else {
        assert(g =~= Seq::<u16>::empty());
    }
}

/// A text without two colons side by side has no place where they stand.
pub proof fn lemma_no_double_colon(s: Seq<char>)
    requires
        no_double_colon(s),
    ensures
        first_double_colon(s) is None,
{
    assert forall|p: int| !is_first_double_colon(s, p) by {
        assert(!is_double_colon(s, p));
    }
}

/// Where `::` comes first in a text that is put together of a head without
/// it, `::` and a tail.
pub proof fn lemma_first_double_colon(head: Seq<char>, tail: Seq<char>)
    requires
        no_double_colon(head),
        head.len() == 0 || head.last() != ':',
    ensures
        first_double_colon(head + seq![':', ':'] + tail) == Some(head.len() as int),
        (head + seq![':', ':'] + tail).take(head.len() as int) == head,
        (head + seq![':', ':'] + tail).skip(head.len() as int + 2) == tail,
{
    let s = head + seq![':', ':'] + tail;
    let n = head.len() as int;
    assert(s[n] == ':' && s[n + 1] == ':');
    assert forall|q: int| 0 <= q < n implies !is_double_colon(s, q) by {
        if q + 1 < n {
            assert(s[q] == head[q] && s[q + 1] == head[q + 1]);
            assert(!is_double_colon(head, q));
        } else {
            assert(s[q] == head.last());
        }
    }
    lemma_first_double_colon_is(s, n);
    assert(s.take(n) =~= head);
    assert(s.skip(n + 2) =~= tail);
}

/// The written form of a mapped version 4 address reads as that address.
proof fn lemma_mapped_round_trip(g: Seq<u16>)
    requires
        is_v4_mapped(g),
    ensures
        parse_ipv6_text(ipv6_text(g)) == Some(g),
{
    let q = octets_of_groups(g[6], g[7]);
    let quad = ipv4_text(q);
    let ffff = seq!['f', 'f', 'f', 'f'];
    let tail = ffff.push(':') + quad;
    let s = ipv6_text(g);
    let none = Seq::<char>::empty();
    assert(s =~= none + seq![':', ':'] + tail);
    assert(no_double_colon(none)) by {
        assert forall|p: int| !is_double_colon(none, p) by {}
    }
    lemma_first_double_colon(none, tail);
    lemma_ipv4_round_trip(q);
    lemma_ipv4_text_chars(q);
    assert(free_of(quad, ':')) by {
        assert forall|i: int| 0 <= i < quad.len() implies #[trigger] quad[i] != ':' by {
            assert(is_dec_digit(quad[i]) || quad[i] == '.');
        }
    }
    assert(free_of(ffff, ':'));
    lemma_split_free(ffff, ':');
    lemma_split_append(ffff, quad, ':');
    let fs = split(tail, ':');
    assert(fs =~= seq![ffff, quad]);
    assert(fs.drop_last() =~= seq![ffff]);
    assert(hex_text(0xffff) =~= ffff) by {
        reveal_with_fuel(hex_text, 4);
    }
    lemma_hex_group_round_trip(0xffff);
    assert(plain_groups(seq![ffff]).unwrap() =~= seq![0xffffu16]);
    assert(groups_of_octets(q) =~= seq![g[6], g[7]]);
    let t = seq![0xffffu16] + seq![g[6], g[7]];
    assert(tail_groups(tail) == Some(t));
    assert(head_groups(none) == Some(Seq::<u16>::empty()));
    assert(Seq::<u16>::empty() + zero_groups(5) + t =~= g);
}

/// The written form of eight groups reads as those groups.
pub proof fn lemma_ipv6_round_trip(g: Seq<u16>)
    requires
        g.len() == 8,
    ensures
        parse_ipv6_text(ipv6_text(g)) == Some(g),
{
    if is_v4_mapped(g) {
        lemma_mapped_round_trip(g);
    } else {
        match elision(g) {
            Some((start, n)) => {
                assert(is_elision(g, start, n));
                assert(all_zero(g, start, n));
                let h = g.take(start);
                let t = g.skip(start + n);
                lemma_hex_join_shape(h);
                lemma_hex_join_groups(h);
                lemma_hex_join_groups(t);
                lemma_first_double_colon(hex_join(h), hex_join(t));
                assert(h + zero_groups(8 - h.len() - t.len()) + t =~= g);
            },
            None => {
                lemma_hex_join_shape(g);
                lemma_hex_join_groups(g);
                lemma_no_double_colon(hex_join(g));
            },
        }
    }
}

/// The written form of eight groups holds a colon, and nothing but
/// lower-case hexadecimal digits, colons and dots.
pub proof fn lemma_ipv6_text_chars(g: Seq<u16>)
    requires
        g.len() == 8,
    ensures
        all_address_chars(ipv6_text(g)),
        exists|q: int| 0 <= q < ipv6_text(g).len() && ipv6_text(g)[q] == ':',
{
    let s = ipv6_text(g);
    if is_v4_mapped(g) {
        let q = octets_of_groups(g[6], g[7]);
        lemma_ipv4_text_chars(q);
        let quad = ipv4_text(q);
        assert forall|i: int| 0 <= i < s.len() implies is_address_char(#[trigger] s[i]) by {
            if i >= 7 {
                assert(s[i] == quad[i - 7]);
                assert(is_dec_digit(quad[i - 7]) || quad[i - 7] == '.');
            } else {
                assert(s[i] == mapped_prefix()[i]);
            }
        }
        assert(s[0] == ':');
    } else {
        match elision(g) {
            Some((start, n)) => {
                let h = hex_join(g.take(start));
                let t = hex_join(g.skip(start + n));
                lemma_hex_join_shape(g.take(start));
                lemma_hex_join_shape(g.skip(start + n));
                assert forall|i: int| 0 <= i < s.len() implies is_address_char(#[trigger] s[i]) by {
                    if i < h.len() {
                        assert(s[i] == h[i]);
                    } else if i >= h.len() + 2 {
                        assert(s[i] == t[i - h.len() - 2]);
                    }
                }
                assert(s[h.len() as int] == ':');
            },
            None => {
                lemma_hex_join_shape(g);
            },
        }
    }
}

/// The text of an address reads as that address.
pub proof fn lemma_ip_round_trip(a: Address)
    requires
        a.wf(),
    ensures
        parse_ip_text(a.text()) == Some(a),
{
    match a {
        Address::V4(o) => {
            lemma_ipv4_round_trip(o);
        },
        Address::V6(g) => {
            lemma_ipv6_round_trip(g);
            lemma_ipv6_text_chars(g);
            let s = ipv6_text(g);
            if parse_ipv4_text(s) is Some {
                let o = parse_ipv4_text(s).unwrap();
                lemma_ipv4_canonical(s);
                assert(o.len() == 4);
                lemma_ipv4_text_chars(o);
                let q = choose|q: int| 0 <= q < s.len() && s[q] == ':';
                assert(is_dec_digit(s[q]) || s[q] == '.');
            }
        },
    }
}

/// What a text denotes is an address with the octets or groups of its
/// version.
pub proof fn lemma_parsed_is_wf(s: Seq<char>)
    requires
        parse_ip_text(s) is Some,
    ensures
        parse_ip_text(s).unwrap().wf(),
{
}

/// Two addresses with the same text are the same address.
pub proof fn lemma_ip_text_injective(a: Address, b: Address)
    requires
        a.wf(),
        b.wf(),
        a.text() == b.text(),
    ensures
        a == b,
{
    lemma_ip_round_trip(a);
    lemma_ip_round_trip(b);
}

/// The text of an address holds nothing but lower-case hexadecimal digits,
/// colons and dots, and is not empty.
pub proof fn lemma_ip_text_chars(a: Address)
    requires
        a.wf(),
    ensures
        all_address_chars(a.text()),
        a.text().len() >= 1,
{
    match a {
        Address::V4(o) => {
            lemma_ipv4_text_chars(o);
            assert forall|i: int| 0 <= i < ipv4_text(o).len() implies is_address_char(
                #[trigger] ipv4_text(o)[i],
            ) by {
                assert(is_dec_digit(ipv4_text(o)[i]) || ipv4_text(o)[i] == '.');
            }
        },
        Address::V6(g) => {
            lemma_ipv6_text_chars(g);
        },
    }
}

} // verus!
