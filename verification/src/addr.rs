//! The library's own model of an IP address, with its textual grammar.
//!
//! An address is held as plain numbers, so that the rest of the library can
//! be reasoned about; the textual forms accepted are the dotted decimal
//! quad for the fourth version and the colon-separated hexadecimal groups,
//! with at most one `::` compression, for the sixth.  An address renders
//! back as the dotted quad, or as lowercase groups with the longest zero
//! run compressed.
use vstd::prelude::*;

use crate::text::{
    all_digits, dec_numeral, dec_val, digit_char, find_pattern, find_sub, lemma_find_sub,
    parse_u16_chars, split_char, split_on, u16_to_chars,
};

verus! {

/// An IP address as plain numbers: four octets, or eight 16-bit groups.
#[derive(Clone, Copy, Debug, PartialEq, Eq, Structural)]
pub enum IpAddress {
    V4(u8, u8, u8, u8),
    V6(u16, u16, u16, u16, u16, u16, u16, u16),
}

impl IpAddress {
    /// True of the sixth-version variant.
    pub open spec fn spec_is_v6(&self) -> bool {
        self is V6
    }

    /// Whether this is a sixth-version address.
    pub fn is_v6(&self) -> (r: bool)
        ensures
            r == self.spec_is_v6(),
    {
        match self {
            IpAddress::V6(..) => true,
            _ => false,
        }
    }
}

// ---------------------------------------------------------------------------
// The dotted quad
// ---------------------------------------------------------------------------
/// One decimal octet: nonempty digits denoting at most 255, written
/// without leading zeros.
pub open spec fn is_octet(p: Seq<char>) -> bool {
    p.len() > 0 && all_digits(p) && dec_val(p) <= 255 && (p.len() == 1 || p[0] != '0')
}

/// A dotted decimal quad such as `192.168.1.0`.
pub open spec fn is_ipv4(s: Seq<char>) -> bool {
    let parts = split_on(s, '.');
    parts.len() == 4 && forall|i: int| 0 <= i < 4 ==> is_octet(#[trigger] parts[i])
}

/// The address a valid dotted quad denotes.
pub open spec fn ipv4_of(s: Seq<char>) -> IpAddress {
    let parts = split_on(s, '.');
    IpAddress::V4(
        dec_val(parts[0]) as u8,
        dec_val(parts[1]) as u8,
        dec_val(parts[2]) as u8,
        dec_val(parts[3]) as u8,
    )
}

/// Reads a dotted decimal quad.
pub fn parse_ipv4(s: &[char]) -> (r: Option<IpAddress>)
    ensures
        r is Some <==> is_ipv4(s@),
        r matches Some(a) ==> a == ipv4_of(s@),
{
    let parts = split_char(s, '.');
    if parts.len() != 4 {
        return None;
    }
    let mut vals: Vec<u8> = Vec::new();
    let mut i: usize = 0;
    while i < 4
        invariant
            0 <= i <= 4,
            parts.deep_view() =~~= split_on(s@, '.'),
            parts.len() == 4,
            vals.len() == i,
            forall|j: int| 0 <= j < i ==> is_octet(#[trigger] parts.deep_view()[j]),
            forall|j: int| 0 <= j < i ==> vals@[j] == dec_val(parts.deep_view()[j]) as u8,
        decreases 4 - i,
    {
        let chunk = &parts[i];
        proof {
            assert(parts.deep_view()[i as int] == chunk@);
        }
        if chunk.len() > 1 && chunk[0] == '0' {
            return None;
        }
        match parse_u16_chars(chunk.as_slice()) {
            Ok(n) => {
                if n > 255 {
                    return None;
                }
                vals.push(n as u8);
            },
            Err(_) => {
                return None;
            },
        }
        i += 1;
    }
    Some(IpAddress::V4(vals[0], vals[1], vals[2], vals[3]))
}

// ---------------------------------------------------------------------------
// Hexadecimal groups
// ---------------------------------------------------------------------------
/// True of the hexadecimal digit characters, either case.
pub open spec fn is_hex_digit(c: char) -> bool {
    ('0' <= c && c <= '9') || ('a' <= c && c <= 'f') || ('A' <= c && c <= 'F')
}

/// The value of one hexadecimal digit character.
pub open spec fn hex_digit_val(c: char) -> int {
    if '0' <= c && c <= '9' {
        c as u32 - '0' as u32
    } else if 'a' <= c && c <= 'f' {
        c as u32 - 'a' as u32 + 10
    } else {
        c as u32 - 'A' as u32 + 10
    }
}

/// The value of a hexadecimal numeral (0 for the empty sequence).
pub open spec fn hex_val(s: Seq<char>) -> int
    decreases s.len(),
{
    if s.len() == 0 {
        0
    } else {
        hex_val(s.drop_last()) * 16 + hex_digit_val(s.last())
    }
}

/// One address group: one to four hexadecimal digits.
pub open spec fn is_group(g: Seq<char>) -> bool {
    1 <= g.len() <= 4 && forall|i: int| 0 <= i < g.len() ==> is_hex_digit(#[trigger] g[i])
}

/// Sixteen to the given power.
pub open spec fn pow16(n: int) -> int
    decreases n,
{
    if n <= 0 {
        1
    } else {
        16 * pow16(n - 1)
    }
}

proof fn lemma_hex_val_step(s: Seq<char>, i: int)
    requires
        0 <= i < s.len(),
    ensures
        hex_val(s.take(i + 1)) == hex_val(s.take(i)) * 16 + hex_digit_val(s[i]),
{
    assert(s.take(i + 1).drop_last() =~= s.take(i));
    assert(s.take(i + 1).last() == s[i]);
}

/// Reads one address group.  Succeeds exactly on one to four hexadecimal
/// digits; the value then always fits sixteen bits.
pub fn parse_hex_group(g: &[char]) -> (r: Option<u16>)
    ensures
        r is Some <==> is_group(g@),
        r matches Some(n) ==> n == hex_val(g@),
{
    if g.len() == 0 || g.len() > 4 {
        return None;
    }
    let ghost gq = g@;
    let mut acc: u32 = 0;
    let mut i: usize = 0;
    proof {
        reveal_with_fuel(pow16, 6);
    }
    while i < g.len()
        invariant
            0 <= i <= gq.len(),
            gq == g@,
            1 <= gq.len() <= 4,
            forall|j: int| 0 <= j < i ==> is_hex_digit(#[trigger] gq[j]),
            acc == hex_val(gq.take(i as int)),
            acc < pow16(i as int),
            pow16(4) == 65536,
            pow16(3) == 4096,
            pow16(2) == 256,
            pow16(1) == 16,
            pow16(0) == 1,
        decreases gq.len() - i,
    {
        let c = g[i];
        let d: u32;
        if '0' <= c && c <= '9' {
            d = (c as u32) - ('0' as u32);
        } else if 'a' <= c && c <= 'f' {
            d = (c as u32) - ('a' as u32) + 10;
        } else if 'A' <= c && c <= 'F' {
            d = (c as u32) - ('A' as u32) + 10;
        } else {
            assert(gq[i as int] == c);
            return None;
        }
        proof {
            lemma_hex_val_step(gq, i as int);
        }
        acc = acc * 16 + d;
        i += 1;
    }
    proof {
        assert(gq.take(gq.len() as int) =~= gq);
        assert(acc < pow16(gq.len() as int));
        assert(pow16(gq.len() as int) <= 65536);
    }
    Some(acc as u16)
}

// ---------------------------------------------------------------------------
// The sixth-version grammar
// ---------------------------------------------------------------------------
/// The two-character compression marker `::`.
pub open spec fn colon2() -> Seq<char> {
    seq![':', ':']
}

/// The groups a side of the compression marker holds: none when the side is
/// empty, its colon-separated chunks otherwise.
pub open spec fn side_groups(t: Seq<char>) -> Seq<Seq<char>> {
    if t.len() == 0 {
        Seq::empty()
    } else {
        split_on(t, ':')
    }
}

/// True when every chunk is a well-formed group.
pub open spec fn all_groups(gs: Seq<Seq<char>>) -> bool {
    forall|i: int| 0 <= i < gs.len() ==> is_group(#[trigger] gs[i])
}

/// The values of a chunk sequence.
pub open spec fn group_vals(gs: Seq<Seq<char>>) -> Seq<u16> {
    gs.map_values(|g: Seq<char>| hex_val(g) as u16)
}

/// A sixth-version address in text: eight colon-separated groups, or at
/// most seven groups around one `::` compression.
pub open spec fn is_ipv6(s: Seq<char>) -> bool {
    match find_sub(s, colon2()) {
        None => {
            let gs = split_on(s, ':');
            gs.len() == 8 && all_groups(gs)
        },
        Some(i) => {
            let lg = side_groups(s.take(i));
            let rg = side_groups(s.skip(i + 2));
            all_groups(lg) && all_groups(rg) && lg.len() + rg.len() <= 7
        },
    }
}

/// The eight group values a valid sixth-version address denotes, the
/// compression standing for zero groups.
pub open spec fn ipv6_segs(s: Seq<char>) -> Seq<u16> {
    match find_sub(s, colon2()) {
        None => group_vals(split_on(s, ':')),
        Some(i) => {
            let lv = group_vals(side_groups(s.take(i)));
            let rv = group_vals(side_groups(s.skip(i + 2)));
            lv + Seq::new((8 - lv.len() - rv.len()) as nat, |j: int| 0u16) + rv
        },
    }
}

/// The address a valid sixth-version string denotes.
pub open spec fn ipv6_of(s: Seq<char>) -> IpAddress {
    let v = ipv6_segs(s);
    IpAddress::V6(v[0], v[1], v[2], v[3], v[4], v[5], v[6], v[7])
}

/// Reads the chunks of one side into group values, reporting whether every
/// chunk was a well-formed group.
fn parse_side(t: &[char]) -> (r: Option<Vec<u16>>)
    ensures
        r is Some <==> all_groups(side_groups(t@)),
        r matches Some(v) ==> v@ == group_vals(side_groups(t@)),
{
    let mut vals: Vec<u16> = Vec::new();
    if t.len() == 0 {
        proof {
            assert(group_vals(side_groups(t@)) =~= Seq::<u16>::empty());
        }
        return Some(vals);
    }
    let chunks = split_char(t, ':');
    let ghost gs = side_groups(t@);
    let mut i: usize = 0;
    while i < chunks.len()
        invariant
            0 <= i <= chunks.len(),
            chunks.deep_view() =~~= gs,
            gs == side_groups(t@),
            vals.len() == i,
            forall|j: int| 0 <= j < i ==> is_group(#[trigger] gs[j]),
            forall|j: int| 0 <= j < i ==> vals@[j] == hex_val(gs[j]) as u16,
        decreases chunks.len() - i,
    {
        let chunk = &chunks[i];
        proof {
            assert(gs[i as int] == chunk@);
        }
        match parse_hex_group(chunk.as_slice()) {
            Some(n) => {
                vals.push(n);
            },
            None => {
                return None;
            },
        }
        i += 1;
    }
    proof {
        assert(vals@ =~= group_vals(gs));
    }
    Some(vals)
}

/// Reads a sixth-version address.
pub fn parse_ipv6(s: &[char]) -> (r: Option<IpAddress>)
    ensures
        r is Some <==> is_ipv6(s@),
        r matches Some(a) ==> a == ipv6_of(s@),
{
    let mut marker: Vec<char> = Vec::new();
    marker.push(':');
    marker.push(':');
    proof {
        assert(marker@ =~= colon2());
    }
    match find_pattern(s, marker.as_slice()) {
        None => {
            let chunks = split_char(s, ':');
            let ghost gs = split_on(s@, ':');
            if chunks.len() != 8 {
                return None;
            }
            let mut vals: Vec<u16> = Vec::new();
            let mut i: usize = 0;
            while i < 8
                invariant
                    0 <= i <= 8,
                    find_sub(s@, colon2()) is None,
                    chunks.deep_view() =~~= gs,
                    gs == split_on(s@, ':'),
                    chunks.len() == 8,
                    vals.len() == i,
                    forall|j: int| 0 <= j < i ==> is_group(#[trigger] gs[j]),
                    forall|j: int| 0 <= j < i ==> vals@[j] == hex_val(gs[j]) as u16,
                decreases 8 - i,
            {
                let chunk = &chunks[i];
                proof {
                    assert(gs[i as int] == chunk@);
                }
                match parse_hex_group(chunk.as_slice()) {
                    Some(n) => {
                        vals.push(n);
                    },
                    None => {
                        return None;
                    },
                }
                i += 1;
            }
            proof {
                assert(vals@ =~= group_vals(gs));
            }
            Some(IpAddress::V6(
                vals[0],
                vals[1],
                vals[2],
                vals[3],
                vals[4],
                vals[5],
                vals[6],
                vals[7],
            ))
        },
        Some(i) => {
            proof {
                lemma_find_sub(s@, colon2());
            }
            let n = s.len();
            let left = &s[0..i];
            let right = &s[i + 2..n];
            proof {
                assert(left@ =~= s@.take(i as int));
                assert(right@ =~= s@.skip(i as int + 2));
            }
            let lv = match parse_side(left) {
                Some(v) => v,
                None => {
                    return None;
                },
            };
            let rv = match parse_side(right) {
                Some(v) => v,
                None => {
                    return None;
                },
            };
            if lv.len() > 7 || rv.len() > 7 || lv.len() + rv.len() > 7 {
                return None;
            }
            let mut vals: Vec<u16> = Vec::new();
            let fill: usize = 8 - lv.len() - rv.len();
            let ghost lvq = lv@;
            let ghost rvq = rv@;
            let mut j: usize = 0;
            while j < lv.len()
                invariant
                    0 <= j <= lvq.len(),
                    lv@ == lvq,
                    vals@ =~= lvq.take(j as int),
                decreases lvq.len() - j,
            {
                vals.push(lv[j]);
                j += 1;
            }
            let mut k: usize = 0;
            while k < fill
                invariant
                    0 <= k <= fill,
                    vals@ =~= lvq + Seq::new(k as nat, |t: int| 0u16),
                decreases fill - k,
            {
                vals.push(0);
                proof {
                    assert(lvq + Seq::new(k as nat + 1, |t: int| 0u16)
                        =~= (lvq + Seq::new(k as nat, |t: int| 0u16)).push(0u16));
                }
                k += 1;
            }
            let mut t: usize = 0;
            while t < rv.len()
                invariant
                    0 <= t <= rvq.len(),
                    rv@ == rvq,
                    fill == 8 - lvq.len() - rvq.len(),
                    vals@ =~= lvq + Seq::new(fill as nat, |q: int| 0u16) + rvq.take(t as int),
                decreases rvq.len() - t,
            {
                vals.push(rv[t]);
                t += 1;
            }
            proof {
                assert(lvq.take(lvq.len() as int) =~= lvq);
                assert(rvq.take(rvq.len() as int) =~= rvq);
                assert(vals@ =~= ipv6_segs(s@));
            }
            Some(IpAddress::V6(
                vals[0],
                vals[1],
                vals[2],
                vals[3],
                vals[4],
                vals[5],
                vals[6],
                vals[7],
            ))
        },
    }
}

// ---------------------------------------------------------------------------
// Either version
// ---------------------------------------------------------------------------
/// A textual IP address of either version.
pub open spec fn is_ip(s: Seq<char>) -> bool {
    is_ipv4(s) || is_ipv6(s)
}

/// The address a valid string denotes; the dotted quad reading wins where
/// both grammars would accept (no string is accepted by both).
pub open spec fn ip_of(s: Seq<char>) -> IpAddress {
    if is_ipv4(s) {
        ipv4_of(s)
    } else {
        ipv6_of(s)
    }
}

/// Reads an IP address of either version.
pub fn parse_ip(s: &[char]) -> (r: Option<IpAddress>)
    ensures
        r is Some <==> is_ip(s@),
        r matches Some(a) ==> a == ip_of(s@),
{
    match parse_ipv4(s) {
        Some(a) => Some(a),
        None => parse_ipv6(s),
    }
}

// ---------------------------------------------------------------------------
// Rendering
// ---------------------------------------------------------------------------
/// The lowercase hexadecimal digit character for a value below sixteen.
pub open spec fn hex_digit_char(d: int) -> char {
    if d <= 9 {
        digit_char(d)
    } else {
        (('a' as u32) + (d - 10) as u32) as char
    }
}

/// The canonical lowercase hexadecimal numeral of a nonnegative number.
pub open spec fn hex_numeral(n: int) -> Seq<char>
    decreases n,
{
    if n <= 15 {
        seq![hex_digit_char(n)]
    } else {
        hex_numeral(n / 16).push(hex_digit_char(n % 16))
    }
}

/// Renders `n` as its lowercase hexadecimal numeral.
pub fn u16_to_hex_chars(n: u16) -> (v: Vec<char>)
    ensures
        v@ == hex_numeral(n as int),
    decreases n,
{
    if n <= 15 {
        let mut v: Vec<char> = Vec::new();
        if n <= 9 {
            v.push((48u8 + (n as u8)) as char);
        } else {
            v.push((97u8 + (n as u8) - 10) as char);
        }
        proof {
            assert(v@ =~= seq![hex_digit_char(n as int)]);
        }
        v
    } else {
        let mut v = u16_to_hex_chars(n / 16);
        let d = n % 16;
        if d <= 9 {
            v.push((48u8 + (d as u8)) as char);
        } else {
            v.push((97u8 + (d as u8) - 10) as char);
        }
        proof {
            assert(v@ =~= hex_numeral(n as int / 16).push(hex_digit_char(n as int % 16)));
        }
        v
    }
}

/// The length of the run of zero groups starting at `j`.
pub open spec fn zeros_run(v: Seq<u16>, j: int) -> int
    decreases v.len() - j,
    when j >= 0
{
    if j < 0 || j >= v.len() || v[j] != 0 {
        0
    } else {
        1 + zeros_run(v, j + 1)
    }
}

pub proof fn lemma_zeros_run(v: Seq<u16>, j: int)
    requires
        0 <= j <= v.len(),
    ensures
        0 <= zeros_run(v, j),
        j + zeros_run(v, j) <= v.len(),
        forall|k: int| j <= k < j + zeros_run(v, j) ==> #[trigger] v[k] == 0,
        j + zeros_run(v, j) == v.len() || v[j + zeros_run(v, j)] != 0,
    decreases v.len() - j,
{
    if j < v.len() && v[j] == 0 {
        lemma_zeros_run(v, j + 1);
    }
}

/// The start of the longest run of zero groups from `i` on, the leftmost
/// winning a tie; the length itself when nothing is left.
pub open spec fn best_zero_start(v: Seq<u16>, i: int) -> int
    decreases v.len() - i,
    when i >= 0
{
    if i >= v.len() {
        i
    } else {
        let rest = best_zero_start(v, i + 1);
        if zeros_run(v, i) >= zeros_run(v, rest) {
            i
        } else {
            rest
        }
    }
}

pub proof fn lemma_best_zero_start(v: Seq<u16>, i: int)
    requires
        0 <= i <= v.len(),
    ensures
        i <= best_zero_start(v, i) <= v.len(),
    decreases v.len() - i,
{
    if i < v.len() {
        lemma_best_zero_start(v, i + 1);
    }
}

/// The groups joined with single colons, each in lowercase hexadecimal.
pub open spec fn join_hex(v: Seq<u16>) -> Seq<char>
    decreases v.len(),
{
    if v.len() == 0 {
        Seq::empty()
    } else if v.len() == 1 {
        hex_numeral(v[0] as int)
    } else {
        join_hex(v.drop_last()) + seq![':'] + hex_numeral(v.last() as int)
    }
}

/// The textual form an address renders to: the dotted quad, or the
/// lowercase groups with the longest run of at least two zero groups
/// compressed to `::`, the leftmost such run winning a tie.
pub open spec fn ip_chars(a: IpAddress) -> Seq<char> {
    match a {
        IpAddress::V4(o1, o2, o3, o4) => dec_numeral(o1 as int) + seq!['.'] + dec_numeral(
            o2 as int,
        ) + seq!['.'] + dec_numeral(o3 as int) + seq!['.'] + dec_numeral(o4 as int),
        IpAddress::V6(g1, g2, g3, g4, g5, g6, g7, g8) => {
            let v = seq![g1, g2, g3, g4, g5, g6, g7, g8];
            let b = best_zero_start(v, 0);
            let l = zeros_run(v, b);
            if l >= 2 {
                join_hex(v.take(b)) + seq![':', ':'] + join_hex(v.skip(b + l))
            } else {
                join_hex(v)
            }
        },
    }
}

/// Measures the run of zero groups starting at `p`.
fn zero_run_from(v: &[u16], p: usize) -> (r: usize)
    requires
        p <= v@.len(),
    ensures
        r == zeros_run(v@, p as int),
{
    proof {
        lemma_zeros_run(v@, p as int);
    }
    let n = v.len();
    let mut q = p;
    while q < n && v[q] == 0
        invariant
            p <= q <= n,
            n == v@.len(),
            forall|k: int| p <= k < q ==> #[trigger] v@[k] == 0,
            q > p ==> zeros_run(v@, p as int) >= q - p,
        decreases n - q,
    {
        proof {
            lemma_zeros_run(v@, p as int);
            if zeros_run(v@, p as int) < q + 1 - p {
                assert(v@[p + zeros_run(v@, p as int)] != 0);
            }
        }
        q += 1;
    }
    proof {
        lemma_zeros_run(v@, p as int);
        if zeros_run(v@, p as int) > q - p {
            assert(v@[q as int] == 0);
        }
    }
    q - p
}

/// Joins groups with single colons.
fn join_hex_chars(v: &[u16]) -> (r: Vec<char>)
    ensures
        r@ == join_hex(v@),
{
    let mut r: Vec<char> = Vec::new();
    let mut i: usize = 0;
    while i < v.len()
        invariant
            0 <= i <= v@.len(),
            r@ == join_hex(v@.take(i as int)),
        decreases v@.len() - i,
    {
        proof {
            assert(v@.take(i as int + 1).drop_last() =~= v@.take(i as int));
            assert(v@.take(i as int + 1).last() == v@[i as int]);
        }
        if i > 0 {
            r.push(':');
        }
        let mut h = u16_to_hex_chars(v[i]);
        r.append(&mut h);
        proof {
            assert(r@ =~= join_hex(v@.take(i as int + 1)));
        }
        i += 1;
    }
    proof {
        assert(v@.take(v@.len() as int) =~= v@);
    }
    r
}

impl IpAddress {
    /// Renders the address to characters.
    pub fn to_chars(&self) -> (v: Vec<char>)
        ensures
            v@ == ip_chars(*self),
    {
        match self {
            IpAddress::V4(o1, o2, o3, o4) => {
                let mut v = u16_to_chars(*o1 as u16);
                v.push('.');
                let mut p2 = u16_to_chars(*o2 as u16);
                v.append(&mut p2);
                v.push('.');
                let mut p3 = u16_to_chars(*o3 as u16);
                v.append(&mut p3);
                v.push('.');
                let mut p4 = u16_to_chars(*o4 as u16);
                v.append(&mut p4);
                proof {
                    assert(v@ =~= ip_chars(*self));
                }
                v
            },
            IpAddress::V6(g1, g2, g3, g4, g5, g6, g7, g8) => {
                let mut segs: Vec<u16> = Vec::new();
                segs.push(*g1);
                segs.push(*g2);
                segs.push(*g3);
                segs.push(*g4);
                segs.push(*g5);
                segs.push(*g6);
                segs.push(*g7);
                segs.push(*g8);
                proof {
                    assert(segs@ =~= seq![*g1, *g2, *g3, *g4, *g5, *g6, *g7, *g8]);
                    lemma_best_zero_start(segs@, 0);
                }
                let n = segs.len();
                let mut best: usize = n;
                let mut i: usize = n;
                while i > 0
                    invariant
                        0 <= i <= n,
                        n == segs@.len(),
                        best as int == best_zero_start(segs@, i as int),
                        i <= best <= n,
                    decreases i,
                {
                    i -= 1;
                    proof {
                        lemma_best_zero_start(segs@, i as int);
                    }
                    let ri = zero_run_from(segs.as_slice(), i);
                    let rb = zero_run_from(segs.as_slice(), best);
                    if ri >= rb {
                        best = i;
                    }
                }
                let b = best;
                let l = zero_run_from(segs.as_slice(), b);
                proof {
                    lemma_zeros_run(segs@, b as int);
                }
                if l >= 2 {
                    let mut out = join_hex_chars(&segs.as_slice()[0..b]);
                    out.push(':');
                    out.push(':');
                    let mut right = join_hex_chars(&segs.as_slice()[b + l..n]);
                    out.append(&mut right);
                    proof {
                        assert(segs@.subrange(0, b as int) =~= segs@.take(b as int));
                        assert(segs@.subrange(b as int + l as int, n as int) =~= segs@.skip(
                            b as int + l as int,
                        ));
                        assert(out@ =~= ip_chars(*self));
                    }
                    out
                } else {
                    let out = join_hex_chars(segs.as_slice());
                    proof {
                        assert(out@ =~= ip_chars(*self));
                    }
                    out
                }
            },
        }
    }
}

} // verus!
