//! Network addresses and the text they are written as.
//!
//! An address is modelled by its octets (version 4) or its eight 16-bit
//! groups (version 6). `Address::text` says which text stands for an
//! address; the writers below produce exactly that text.

use crate::fields::join;
use crate::text::{dec_text, hex_text, push_dec, push_hex};
use vstd::prelude::*;
use vstd::string::*;

verus! {

/// A version 4 address: four octets, the leftmost of the dotted form first.
#[derive(Clone, Copy, Debug, PartialEq, Eq)]
pub struct Ipv4Addr {
    pub octets: [u8; 4],
}

/// A version 6 address: eight groups of 16 bits, the leftmost of the written
/// form first.
#[derive(Clone, Copy, Debug, PartialEq, Eq)]
pub struct Ipv6Addr {
    pub segments: [u16; 8],
}

/// An address of either version.
#[derive(Clone, Copy, Debug, PartialEq, Eq)]
pub enum IpAddr {
    V4(Ipv4Addr),
    V6(Ipv6Addr),
}

/// What an address is, mathematically: the sequence of its octets or of its
/// groups.
pub enum Address {
    V4(Seq<u8>),
    V6(Seq<u16>),
}

impl View for Ipv4Addr {
    type V = Seq<u8>;

    open spec fn view(&self) -> Seq<u8> {
        self.octets@
    }
}

impl View for Ipv6Addr {
    type V = Seq<u16>;

    open spec fn view(&self) -> Seq<u16> {
        self.segments@
    }
}

impl View for IpAddr {
    type V = Address;

    open spec fn view(&self) -> Address {
        match *self {
            IpAddr::V4(a) => Address::V4(a@),
            IpAddr::V6(a) => Address::V6(a@),
        }
    }
}

/// The dotted form of four octets: their decimal numerals with a dot between
/// them.
pub open spec fn ipv4_text(o: Seq<u8>) -> Seq<char> {
    join(
        seq![
            dec_text(o[0] as nat),
            dec_text(o[1] as nat),
            dec_text(o[2] as nat),
            dec_text(o[3] as nat),
        ],
        '.',
    )
}

/// The hexadecimal numerals of the groups `g`, one field for each group.
pub open spec fn hex_fields(g: Seq<u16>) -> Seq<Seq<char>> {
    Seq::new(g.len(), |i: int| hex_text(g[i] as nat))
}

/// The groups `g` written as hexadecimal numerals with a colon between them;
/// the empty text where there is no group.
pub open spec fn hex_join(g: Seq<u16>) -> Seq<char> {
    join(hex_fields(g), ':')
}

/// Whether the `n` groups of `g` from `start` on are all zero.
pub open spec fn all_zero(g: Seq<u16>, start: int, n: int) -> bool {
    &&& 0 <= start
    &&& 0 <= n
    &&& start + n <= g.len()
    &&& forall|j: int| start <= j < start + n ==> g[j] == 0
}

/// Whether the groups `[start, start + n)` are the run of zero groups that
/// the written form leaves out: at least two groups long, as long as any run
/// of zero groups in `g`, and the leftmost of that length.
pub open spec fn is_elision(g: Seq<u16>, start: int, n: int) -> bool {
    &&& n >= 2
    &&& all_zero(g, start, n)
    &&& forall|i: int, m: int| #[trigger] all_zero(g, i, m) ==> m <= n
    &&& forall|i: int| 0 <= i < start ==> !#[trigger] all_zero(g, i, n)
}

/// Where the run that the written form leaves out starts and how long it
/// is, if `g` has such a run.
pub open spec fn elision(g: Seq<u16>) -> Option<(int, int)> {
    if exists|start: int, n: int| is_elision(g, start, n) {
        Some(choose|start: int, n: int| is_elision(g, start, n))
    } else {
        None
    }
}

/// Whether `g` is a version 4 address mapped into version 6: five zero
/// groups, then `ffff`.
pub open spec fn is_v4_mapped(g: Seq<u16>) -> bool {
    &&& g.len() == 8
    &&& g[0] == 0
    &&& g[1] == 0
    &&& g[2] == 0
    &&& g[3] == 0
    &&& g[4] == 0
    &&& g[5] == 0xffff
}

/// The four octets that the two groups `hi` and `lo` hold.
pub open spec fn octets_of_groups(hi: u16, lo: u16) -> Seq<u8> {
    seq![(hi / 256) as u8, (hi % 256) as u8, (lo / 256) as u8, (lo % 256) as u8]
}

/// The text `::ffff:` that starts the written form of a mapped address.
pub open spec fn mapped_prefix() -> Seq<char> {
    seq![':', ':', 'f', 'f', 'f', 'f', ':']
}

/// The written form of eight groups. A mapped version 4 address is written
/// as `::ffff:` and its dotted form. Otherwise the groups are written in
/// lower-case hexadecimal without leading zeros, and the longest run of two
/// or more zero groups, the leftmost if there are several, is written as
/// `::`.
pub open spec fn ipv6_text(g: Seq<u16>) -> Seq<char> {
    if is_v4_mapped(g) {
        mapped_prefix() + ipv4_text(octets_of_groups(g[6], g[7]))
    } else {
        match elision(g) {
            Some((start, n)) => hex_join(g.take(start)) + seq![':', ':'] + hex_join(
                g.skip(start + n),
            ),
            None => hex_join(g),
        }
    }
}

/// Whether `c` may stand in the text of an address: a lower-case
/// hexadecimal digit, a colon or a dot.
pub open spec fn is_address_char(c: char) -> bool {
    ('0' <= c && c <= '9') || ('a' <= c && c <= 'f') || c == ':' || c == '.'
}

/// Whether every character of `t` may stand in the text of an address.
pub open spec fn all_address_chars(t: Seq<char>) -> bool {
    forall|i: int| 0 <= i < t.len() ==> is_address_char(#[trigger] t[i])
}

impl Address {
    /// Whether the address has the number of octets or groups of its version.
    pub open spec fn wf(self) -> bool {
        match self {
            Address::V4(o) => o.len() == 4,
            Address::V6(g) => g.len() == 8,
        }
    }

    /// The text that the address is written as.
    pub open spec fn text(self) -> Seq<char> {
        match self {
            Address::V4(o) => ipv4_text(o),
            Address::V6(g) => ipv6_text(g),
        }
    }
}

/// Two addresses with the same octets or groups are the same address.
pub proof fn lemma_view_determines_address(a: IpAddr, b: IpAddr)
    requires
        a@ == b@,
    ensures
        a == b,
{
    match (a, b) {
        (IpAddr::V4(x), IpAddr::V4(y)) => {
            assert(x.octets =~= y.octets);
        },
        (IpAddr::V6(x), IpAddr::V6(y)) => {
            assert(x.segments =~= y.segments);
        },
        _ => {},
    }
}

/// No run but one is the run that the written form leaves out: a run that
/// is one is the one.
pub proof fn lemma_elision_is(g: Seq<u16>, start: int, n: int)
    requires
        is_elision(g, start, n),
    ensures
        elision(g) == Some((start, n)),
{
    let (s2, n2) = choose|s2: int, n2: int| is_elision(g, s2, n2);
    assert(all_zero(g, start, n));
    assert(all_zero(g, s2, n2));
}

/// Appends `sep` to `s`, where `sep` is a one-character literal.
fn push_sep(s: &mut String, sep: char)
    requires
        sep == '.' || sep == ':' || sep == '-',
    ensures
        final(s)@ == old(s)@.push(sep),
{
    proof {
        reveal_strlit(".");
        reveal_strlit(":");
        reveal_strlit("-");
    }
    let lit: &str = if sep == '.' {
        "."
    } else if sep == ':' {
        ":"
    } else {
        "-"
    };
    assert(lit@ =~= seq![sep]);
    s.append(lit);
    assert(s@ =~= old(s)@.push(sep));
}

/// Appends a dot to `s`.
pub(crate) fn push_dot(s: &mut String)
    ensures
        final(s)@ == old(s)@.push('.'),
{
    push_sep(s, '.');
}

/// Appends a colon to `s`.
pub(crate) fn push_colon(s: &mut String)
    ensures
        final(s)@ == old(s)@.push(':'),
{
    push_sep(s, ':');
}

/// Appends a hyphen to `s`.
pub(crate) fn push_hyphen(s: &mut String)
    ensures
        final(s)@ == old(s)@.push('-'),
{
    push_sep(s, '-');
}

/// Appends to `s` the groups of `g` from `lo` up to `hi`, with a colon
/// between them.
fn push_groups(s: &mut String, g: &[u16; 8], lo: usize, hi: usize)
    requires
        lo <= hi <= 8,
    ensures
        final(s)@ == old(s)@ + hex_join(g@.subrange(lo as int, hi as int)),
{
    let mut i: usize = lo;
    proof {
        assert(hex_fields(g@.subrange(lo as int, lo as int)) =~= Seq::<Seq<char>>::empty());
        assert(s@ =~= old(s)@ + hex_join(g@.subrange(lo as int, lo as int)));
    }
    while i < hi
        invariant
            lo <= i <= hi <= 8,
            s@ == old(s)@ + hex_join(g@.subrange(lo as int, i as int)),
        decreases hi - i,
    {
        let ghost before = hex_fields(g@.subrange(lo as int, i as int));
        let ghost after = hex_fields(g@.subrange(lo as int, i + 1));
        proof {
            assert(after.drop_last() =~= before);
            assert(after.last() == hex_text(g@[i as int] as nat));
        }
        if i > lo {
            push_colon(s);
        }
        push_hex(s, g[i]);
        proof {
            if i > lo {
                assert(join(after, ':') == join(before, ':').push(':') + after.last());
                assert(s@ =~= old(s)@ + join(after, ':'));
            } else {
                assert(join(after, ':') == after[0]);
                assert(join(before, ':') =~= Seq::<char>::empty());
                assert(s@ =~= old(s)@ + join(after, ':'));
            }
        }
        i += 1;
    }
}

/// Finds the run of zero groups that the written form of `g` leaves out.
fn find_elision(g: &[u16; 8]) -> (r: Option<(usize, usize)>)
    ensures
        match r {
            Some((start, n)) => elision(g@) == Some((start as int, n as int)) && start + n <= 8,
            None => elision(g@) is None,
        },
{
    let mut best_start: usize = 0;
    let mut best_len: usize = 0;
    let mut cur_len: usize = 0;
    let mut i: usize = 0;
    while i < 8
        invariant
            i <= 8,
            cur_len <= i,
            best_start + best_len <= i,
            cur_len <= best_len,
            all_zero(g@, i - cur_len, cur_len as int),
            cur_len < i ==> g@[i - cur_len - 1] != 0,
            all_zero(g@, best_start as int, best_len as int),
            forall|a: int, m: int| #[trigger] all_zero(g@, a, m) && a + m <= i ==> m <= best_len,
            forall|a: int|
                0 <= a < best_start && a + best_len <= i ==> !#[trigger] all_zero(
                    g@,
                    a,
                    best_len as int,
                ),
        decreases 8 - i,
    {
        let ghost old_cur = cur_len;
        let ghost old_best = best_len;
        let ghost old_start = best_start;
        if g[i] == 0 {
            cur_len = cur_len + 1;
            if cur_len > best_len {
                best_len = cur_len;
                best_start = i + 1 - cur_len;
            }
        } else {
            cur_len = 0;
        }
        proof {
            assert forall|a: int, m: int| #[trigger]
                all_zero(g@, a, m) && a + m <= i + 1 implies m <= best_len by {
                if a + m == i + 1 && m > 0 {
                    if g@[i as int] != 0 {
                        assert(false);
                    } else if m > cur_len {
                        assert(g@[i - old_cur - 1] != 0);
                        assert(false);
                    }
                } else if m > 0 {
                    assert(all_zero(g@, a, m) && a + m <= i);
                }
            }
            assert forall|a: int| 0 <= a < best_start && a + best_len <= i + 1 implies !#[trigger]
                all_zero(g@, a, best_len as int) by {
                if all_zero(g@, a, best_len as int) {
                    if best_len == old_best {
                        if a + best_len <= i {
                            assert(a < old_start);
                        } else {
                            assert(all_zero(g@, a, best_len as int) && a + best_len <= i + 1);
                            assert(g@[i as int] == 0);
                            assert(best_len <= cur_len);
                        }
                    } else {
                        assert(all_zero(g@, a, best_len as int) && a + best_len <= i);
                    }
                }
            }
        }
        i += 1;
    }
    if best_len >= 2 {
        proof {
            lemma_elision_is(g@, best_start as int, best_len as int);
        }
        Some((best_start, best_len))
    } else {
        proof {
            assert forall|start: int, n: int| !is_elision(g@, start, n) by {
                if is_elision(g@, start, n) {
                    assert(all_zero(g@, start, n));
                }
            }
        }
        None
    }
}

impl Ipv4Addr {
    /// Appends the dotted form of the address to `s`.
    pub fn push_text(&self, s: &mut String)
        ensures
            final(s)@ == old(s)@ + ipv4_text(self@),
    {
        let ghost f = seq![
            dec_text(self@[0] as nat),
            dec_text(self@[1] as nat),
            dec_text(self@[2] as nat),
            dec_text(self@[3] as nat),
        ];
        push_dec(s, self.octets[0] as u64);
        push_dot(s);
        push_dec(s, self.octets[1] as u64);
        push_dot(s);
        push_dec(s, self.octets[2] as u64);
        push_dot(s);
        push_dec(s, self.octets[3] as u64);
        proof {
            let f3 = f.drop_last();
            let f2 = f3.drop_last();
            let f1 = f2.drop_last();
            assert(join(f1, '.') == f[0]);
            assert(join(f2, '.') == join(f1, '.').push('.') + f[1]);
            assert(join(f3, '.') == join(f2, '.').push('.') + f[2]);
            assert(join(f, '.') == join(f3, '.').push('.') + f[3]);
            assert(s@ =~= old(s)@ + join(f, '.'));
        }
    }

    /// The dotted form of the address.
    pub fn to_string(&self) -> (r: String)
        ensures
            r@ == ipv4_text(self@),
    {
        let mut s: String = String::new();
        self.push_text(&mut s);
        assert(s@ =~= ipv4_text(self@));
        s
    }
}

impl Ipv6Addr {
    /// Appends the written form of the address to `s`.
    pub fn push_text(&self, s: &mut String)
        ensures
            final(s)@ == old(s)@ + ipv6_text(self@),
    {
        let g: &[u16; 8] = &self.segments;
        if g[0] == 0 && g[1] == 0 && g[2] == 0 && g[3] == 0 && g[4] == 0 && g[5] == 0xffff {
            proof {
                reveal_strlit("::ffff:");
            }
            s.append("::ffff:");
            assert(s@ =~= old(s)@ + mapped_prefix());
            let quad = Ipv4Addr {
                octets: [
                    (g[6] / 256) as u8,
                    (g[6] % 256) as u8,
                    (g[7] / 256) as u8,
                    (g[7] % 256) as u8,
                ],
            };
            assert(quad@ =~= octets_of_groups(g@[6], g@[7]));
            quad.push_text(s);
            assert(s@ =~= old(s)@ + ipv6_text(self@));
        } else {
            match find_elision(g) {
                Some((start, n)) => {
                    push_groups(s, g, 0, start);
                    push_colon(s);
                    push_colon(s);
                    push_groups(s, g, start + n, 8);
                    proof {
                        assert(g@.subrange(0, start as int) =~= g@.take(start as int));
                        assert(g@.subrange(start + n, 8) =~= g@.skip(start + n));
                        assert(s@ =~= old(s)@ + ipv6_text(self@));
                    }
                },
                None => {
                    push_groups(s, g, 0, 8);
                    proof {
                        assert(g@.subrange(0, 8) =~= g@);
                    }
                },
            }
        }
    }

    /// The written form of the address.
    pub fn to_string(&self) -> (r: String)
        ensures
            r@ == ipv6_text(self@),
    {
        let mut s: String = String::new();
        self.push_text(&mut s);
        assert(s@ =~= ipv6_text(self@));
        s
    }
}

impl IpAddr {
    /// Whether the address is of version 4.
    pub fn is_ipv4(&self) -> (r: bool)
        ensures
            r == (self@ is V4),
    {
        match self {
            IpAddr::V4(_) => true,
            IpAddr::V6(_) => false,
        }
    }

    /// Whether the address is of version 6.
    pub fn is_ipv6(&self) -> (r: bool)
        ensures
            r == (self@ is V6),
    {
        match self {
            IpAddr::V4(_) => false,
            IpAddr::V6(_) => true,
        }
    }

    /// Appends the text of the address to `s`.
    pub fn push_text(&self, s: &mut String)
        ensures
            final(s)@ == old(s)@ + self@.text(),
    {
        match self {
            IpAddr::V4(a) => a.push_text(s),
            IpAddr::V6(a) => a.push_text(s),
        }
    }

    /// The text of the address.
    pub fn to_string(&self) -> (r: String)
        ensures
            r@ == self@.text(),
    {
        match self {
            IpAddr::V4(a) => a.to_string(),
            IpAddr::V6(a) => a.to_string(),
        }
    }
}

} // verus!
