//! Reading an address from text.
//!
//! `parse_ip_text` says which texts stand for an address, and for which one.
//! A version 4 address is four fields between dots, each a decimal octet.
//! A version 6 address is fields between colons, each one to four
//! hexadecimal digits; the last field may be a dotted version 4 address,
//! which stands for two groups; and `::` may stand once for as many zero
//! groups as are missing, at least one.

use crate::addr::{Address, IpAddr, Ipv4Addr, Ipv6Addr};
use crate::fields::{field_ranges, range_texts, ranges_within, split};
use crate::text::{chars_of, hex_group_of, octet_of, read_hex_group, read_octet};
use vstd::prelude::*;

verus! {

/// The octets that the fields `fs` denote, if each of them is a decimal
/// octet.
pub open spec fn octets_of(fs: Seq<Seq<char>>) -> Option<Seq<u8>> {
    if forall|i: int| 0 <= i < fs.len() ==> (#[trigger] octet_of(fs[i])) is Some {
        Some(Seq::new(fs.len(), |i: int| octet_of(fs[i]).unwrap()))
    } else {
        None
    }
}

/// The four octets that the dotted text `s` denotes, if it is the dotted
/// form of a version 4 address.
pub open spec fn parse_ipv4_text(s: Seq<char>) -> Option<Seq<u8>> {
    match octets_of(split(s, '.')) {
        Some(o) => if o.len() == 4 {
            Some(o)
        } else {
            None
        },
        None => None,
    }
}

/// The groups that the fields `fs` denote, if each of them is a hexadecimal
/// group.
pub open spec fn plain_groups(fs: Seq<Seq<char>>) -> Option<Seq<u16>> {
    if forall|i: int| 0 <= i < fs.len() ==> (#[trigger] hex_group_of(fs[i])) is Some {
        Some(Seq::new(fs.len(), |i: int| hex_group_of(fs[i]).unwrap()))
    } else {
        None
    }
}

/// The two groups that hold the four octets `o`.
pub open spec fn groups_of_octets(o: Seq<u8>) -> Seq<u16> {
    seq![(o[0] * 256 + o[1]) as u16, (o[2] * 256 + o[3]) as u16]
}

/// The groups that the fields `fs` denote, where the last field may be a
/// dotted version 4 address and all others are hexadecimal groups.
pub open spec fn groups(fs: Seq<Seq<char>>) -> Option<Seq<u16>> {
    if fs.len() >= 1 && parse_ipv4_text(fs.last()) is Some {
        match plain_groups(fs.drop_last()) {
            Some(g) => Some(g + groups_of_octets(parse_ipv4_text(fs.last()).unwrap())),
            None => None,
        }
    } else {
        plain_groups(fs)
    }
}

/// Whether two colons stand at positions `p` and `p + 1` of `s`.
pub open spec fn is_double_colon(s: Seq<char>, p: int) -> bool {
    0 <= p && p + 1 < s.len() && s[p] == ':' && s[p + 1] == ':'
}

/// Whether `p` is the leftmost position of `s` at which two colons stand.
pub open spec fn is_first_double_colon(s: Seq<char>, p: int) -> bool {
    is_double_colon(s, p) && forall|q: int| 0 <= q < p ==> !is_double_colon(s, q)
}

/// The leftmost position of `s` at which two colons stand, if there is one.
pub open spec fn first_double_colon(s: Seq<char>) -> Option<int> {
    if exists|p: int| is_first_double_colon(s, p) {
        Some(choose|p: int| is_first_double_colon(s, p))
    } else {
        None
    }
}

/// The place where two colons first stand is the only such place.
pub proof fn lemma_first_double_colon_is(s: Seq<char>, p: int)
    requires
        is_first_double_colon(s, p),
    ensures
        first_double_colon(s) == Some(p),
{
    let q = choose|q: int| is_first_double_colon(s, q);
    if q < p {
        assert(!is_double_colon(s, q));
    } else if p < q {
        assert(!is_double_colon(s, p));
    }
}

/// `n` zero groups.
pub open spec fn zero_groups(n: int) -> Seq<u16> {
    Seq::new(n as nat, |i: int| 0u16)
}

/// The groups that the text before a `::` denotes: none where it is empty.
pub open spec fn head_groups(head: Seq<char>) -> Option<Seq<u16>> {
    if head.len() == 0 {
        Some(Seq::<u16>::empty())
    } else {
        plain_groups(split(head, ':'))
    }
}

/// The groups that the text after a `::` denotes: none where it is empty.
pub open spec fn tail_groups(tail: Seq<char>) -> Option<Seq<u16>> {
    if tail.len() == 0 {
        Some(Seq::<u16>::empty())
    } else {
        groups(split(tail, ':'))
    }
}

/// The eight groups that the text `s` denotes, if it is a written form of a
/// version 6 address.
pub open spec fn parse_ipv6_text(s: Seq<char>) -> Option<Seq<u16>> {
    match first_double_colon(s) {
        None => match groups(split(s, ':')) {
            Some(g) => if g.len() == 8 {
                Some(g)
            } else {
                None
            },
            None => None,
        },
        Some(p) => match (head_groups(s.take(p)), tail_groups(s.skip(p + 2))) {
            (Some(h), Some(t)) => if h.len() + t.len() <= 7 {
                Some(h + zero_groups(8 - h.len() - t.len()) + t)
            } else {
                None
            },
            _ => None,
        },
    }
}

/// The address that the text `s` denotes, if it denotes one.
pub open spec fn parse_ip_text(s: Seq<char>) -> Option<Address> {
    match parse_ipv4_text(s) {
        Some(o) => Some(Address::V4(o)),
        None => match parse_ipv6_text(s) {
            Some(g) => Some(Address::V6(g)),
            None => None,
        },
    }
}

/// Whether the text `s` denotes a version 4 address.
pub open spec fn denotes_v4(s: Seq<char>) -> bool {
    parse_ip_text(s) is Some && parse_ip_text(s).unwrap() is V4
}

/// Whether the text `s` denotes a version 6 address.
pub open spec fn denotes_v6(s: Seq<char>) -> bool {
    parse_ip_text(s) is Some && parse_ip_text(s).unwrap() is V6
}

/// Reads the characters of `t` from `lo` up to `hi` as a dotted version 4
/// address.
pub(crate) fn read_quad(t: &Vec<char>, lo: usize, hi: usize) -> (r: Option<[u8; 4]>)
    requires
        lo <= hi <= t.len(),
    ensures
        match r {
            Some(o) => parse_ipv4_text(t@.subrange(lo as int, hi as int)) == Some(o@),
            None => parse_ipv4_text(t@.subrange(lo as int, hi as int)) is None,
        },
{
    let ghost x = t@.subrange(lo as int, hi as int);
    let ghost fs = split(x, '.');
    let ranges = field_ranges(t, lo, hi, '.');
    if ranges.len() != 4 {
        return None;
    }
    let mut o: [u8; 4] = [0u8; 4];
    let mut i: usize = 0;
    while i < 4
        invariant
            i <= 4,
            ranges@.len() == 4,
            ranges_within(ranges@, lo as int, hi as int),
            lo <= hi <= t.len(),
            range_texts(t@, ranges@) == fs,
            fs == split(t@.subrange(lo as int, hi as int), '.'),
            forall|j: int| 0 <= j < i ==> octet_of(fs[j]) == Some(#[trigger] o@[j]),
        decreases 4 - i,
    {
        let (a, b) = ranges[i];
        assert(fs[i as int] == t@.subrange(a as int, b as int)) by {
            assert(range_texts(t@, ranges@)[i as int] == t@.subrange(a as int, b as int));
        }
        match read_octet(t, a, b) {
            None => {
                assert(octet_of(fs[i as int]) is None);
                return None;
            },
            Some(v) => {
                o[i] = v;
            },
        }
        i += 1;
    }
    proof {
        assert forall|j: int| 0 <= j < fs.len() implies (#[trigger] octet_of(fs[j])) is Some by {
            assert(octet_of(fs[j]) == Some(o@[j]));
        }
        assert(octets_of(fs).unwrap() =~= o@) by {
            assert forall|j: int| 0 <= j < 4 implies octets_of(fs).unwrap()[j] == o@[j] by {
                assert(octet_of(fs[j]) == Some(o@[j]));
            }
        }
    }
    Some(o)
}

/// Reads each of the first `to` fields of `t` that `ranges` delimits as a
/// hexadecimal group.
fn read_plain_groups(t: &Vec<char>, ranges: &Vec<(usize, usize)>, to: usize) -> (r: Option<
    Vec<u16>,
>)
    requires
        to <= ranges@.len(),
        ranges_within(ranges@, 0, t@.len() as int),
    ensures
        match r {
            Some(g) => plain_groups(range_texts(t@, ranges@).take(to as int)) == Some(g@),
            None => plain_groups(range_texts(t@, ranges@).take(to as int)) is None,
        },
{
    let ghost fs = range_texts(t@, ranges@).take(to as int);
    let mut g: Vec<u16> = Vec::new();
    let mut i: usize = 0;
    while i < to
        invariant
            i <= to <= ranges@.len(),
            ranges_within(ranges@, 0, t@.len() as int),
            fs == range_texts(t@, ranges@).take(to as int),
            g@.len() == i,
            forall|j: int| 0 <= j < i ==> hex_group_of(fs[j]) == Some(#[trigger] g@[j]),
        decreases to - i,
    {
        let (a, b) = ranges[i];
        assert(fs[i as int] == t@.subrange(a as int, b as int)) by {
            assert(range_texts(t@, ranges@)[i as int] == t@.subrange(a as int, b as int));
        }
        match read_hex_group(t, a, b) {
            None => {
                assert(hex_group_of(fs[i as int]) is None);
                return None;
            },
            Some(v) => {
                g.push(v);
            },
        }
        i += 1;
    }
    proof {
        assert forall|j: int| 0 <= j < fs.len() implies (#[trigger] hex_group_of(fs[j])) is Some by {
            assert(hex_group_of(fs[j]) == Some(g@[j]));
        }
        assert(plain_groups(fs).unwrap() =~= g@) by {
            assert forall|j: int| 0 <= j < fs.len() implies plain_groups(fs).unwrap()[j]
                == g@[j] by {
                assert(hex_group_of(fs[j]) == Some(g@[j]));
            }
        }
    }
    Some(g)
}

/// The groups that the text `x` denotes as fields between colons, where the
/// last field may be a dotted version 4 address if `quad_allowed` says so.
spec fn field_groups(x: Seq<char>, quad_allowed: bool) -> Option<Seq<u16>> {
    if quad_allowed {
        groups(split(x, ':'))
    } else {
        plain_groups(split(x, ':'))
    }
}

/// Reads the characters of `t` from `lo` up to `hi` as fields between
/// colons. With `quad_allowed` the last field may be a dotted version 4
/// address.
fn read_groups(t: &Vec<char>, lo: usize, hi: usize, quad_allowed: bool) -> (r: Option<Vec<u16>>)
    requires
        lo <= hi <= t.len(),
    ensures
        match r {
            Some(g) => field_groups(t@.subrange(lo as int, hi as int), quad_allowed) == Some(g@),
            None => field_groups(t@.subrange(lo as int, hi as int), quad_allowed) is None,
        },
{
    let ghost fs = split(t@.subrange(lo as int, hi as int), ':');
    let ranges = field_ranges(t, lo, hi, ':');
    let n: usize = ranges.len();
    proof {
        crate::fields::lemma_split_fields(t@.subrange(lo as int, hi as int), ':');
        assert(fs.take(n as int) =~= fs);
    }
    if quad_allowed {
        let (a, b) = ranges[n - 1];
        assert(fs.last() == t@.subrange(a as int, b as int)) by {
            assert(range_texts(t@, ranges@)[n - 1] == t@.subrange(a as int, b as int));
        }
        match read_quad(t, a, b) {
            Some(o) => {
                assert(fs.take(n - 1) =~= fs.drop_last());
                match read_plain_groups(t, &ranges, n - 1) {
                    None => None,
                    Some(g) => {
                        let mut g = g;
                        let ghost front = g@;
                        g.push(o[0] as u16 * 256 + o[1] as u16);
                        g.push(o[2] as u16 * 256 + o[3] as u16);
                        assert(g@ =~= front + groups_of_octets(o@));
                        Some(g)
                    },
                }
            },
            None => read_plain_groups(t, &ranges, n),
        }
    } else {
        read_plain_groups(t, &ranges, n)
    }
}

/// Finds the leftmost position of `t` at which two colons stand.
fn find_double_colon(t: &Vec<char>) -> (r: Option<usize>)
    ensures
        match r {
            Some(p) => first_double_colon(t@) == Some(p as int) && p + 2 <= t@.len(),
            None => first_double_colon(t@) is None,
        },
{
    if t.len() < 2 {
        assert forall|p: int| !is_first_double_colon(t@, p) by {}
        return None;
    }
    let mut i: usize = 0;
    while i < t.len() - 1
        invariant
            2 <= t.len(),
            i <= t.len() - 1,
            forall|q: int| 0 <= q < i ==> !is_double_colon(t@, q),
        decreases t.len() - i,
    {
        if t[i] == ':' && t[i + 1] == ':' {
            proof {
                lemma_first_double_colon_is(t@, i as int);
            }
            return Some(i);
        }
        i += 1;
    }
    proof {
        assert forall|p: int| !is_first_double_colon(t@, p) by {
            if is_double_colon(t@, p) {
                assert(p < i);
            }
        }
    }
    None
}

/// Reads the characters of `t` as a written version 6 address.
pub(crate) fn read_ipv6(t: &Vec<char>) -> (r: Option<[u16; 8]>)
    ensures
        match r {
            Some(g) => parse_ipv6_text(t@) == Some(g@),
            None => parse_ipv6_text(t@) is None,
        },
{
    let len: usize = t.len();
    match find_double_colon(t) {
        None => {
            assert(t@.subrange(0, len as int) =~= t@);
            match read_groups(t, 0, len, true) {
                None => None,
                Some(g) => {
                    if g.len() != 8 {
                        return None;
                    }
                    let mut out: [u16; 8] = [0u16; 8];
                    let mut i: usize = 0;
                    while i < 8
                        invariant
                            i <= 8,
                            g@.len() == 8,
                            forall|j: int| 0 <= j < i ==> out@[j] == g@[j],
                        decreases 8 - i,
                    {
                        out[i] = g[i];
                        i += 1;
                    }
                    assert(out@ =~= g@);
                    Some(out)
                },
            }
        },
        Some(p) => {
            assert(t@.subrange(0, p as int) =~= t@.take(p as int));
            assert(t@.subrange(p + 2, len as int) =~= t@.skip(p + 2));
            let head: Vec<u16> = if p == 0 {
                Vec::new()
            } else {
                match read_groups(t, 0, p, false) {
                    None => {
                        return None;
                    },
                    Some(h) => h,
                }
            };
            let tail: Vec<u16> = if p + 2 == len {
                Vec::new()
            } else {
                match read_groups(t, p + 2, len, true) {
                    None => {
                        return None;
                    },
                    Some(x) => x,
                }
            };
            assert(head_groups(t@.take(p as int)) == Some(head@));
            assert(tail_groups(t@.skip(p + 2)) == Some(tail@));
            let hl: usize = head.len();
            let tl: usize = tail.len();
            if hl > 7 || tl > 7 - hl {
                return None;
            }
            let mut out: [u16; 8] = [0u16; 8];
            let mut i: usize = 0;
            while i < hl
                invariant
                    i <= hl,
                    hl == head@.len(),
                    hl <= 7,
                    forall|j: int| 0 <= j < i ==> out@[j] == head@[j],
                    forall|j: int| i <= j < 8 ==> out@[j] == 0,
                decreases hl - i,
            {
                out[i] = head[i];
                i += 1;
            }
            let mut k: usize = 0;
            while k < tl
                invariant
                    k <= tl,
                    tl == tail@.len(),
                    hl == head@.len(),
                    hl + tl <= 7,
                    forall|j: int| 0 <= j < hl ==> out@[j] == head@[j],
                    forall|j: int| hl <= j < 8 - tl ==> out@[j] == 0,
                    forall|j: int| 0 <= j < k ==> out@[8 - tl + j] == tail@[j],
                decreases tl - k,
            {
                out[8 - tl + k] = tail[k];
                k += 1;
            }
            assert(out@ =~= head@ + zero_groups(8 - hl - tl) + tail@);
            Some(out)
        },
    }
}

impl IpAddr {
    /// Reads an address from its text.
    pub fn parse(text: &str) -> (r: Option<IpAddr>)
        ensures
            match r {
                Some(a) => parse_ip_text(text@) == Some(a@),
                None => parse_ip_text(text@) is None,
            },
    {
        let t = chars_of(text);
        assert(t@.subrange(0, t@.len() as int) =~= t@);
        match read_quad(&t, 0, t.len()) {
            Some(o) => Some(IpAddr::V4(Ipv4Addr { octets: o })),
            None => match read_ipv6(&t) {
                Some(g) => Some(IpAddr::V6(Ipv6Addr { segments: g })),
                None => None,
            },
        }
    }
}

} // verus!
