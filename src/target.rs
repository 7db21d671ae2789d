//! Reading the authority of a `CONNECT` request as a literal IPv4 or IPv6 socket address.
//!
//! Only literal addresses are accepted: a host name is rejected, never resolved,
//! so no lookup can stall or redirect the dispatcher.
use vstd::prelude::*;
use vstd::string::StringSliceAdditionalSpecFns;

verus! {

/// The byte `.`.
pub const DOT: u8 = 46;

/// The byte `:`.
pub const COLON: u8 = 58;

/// The byte `0`.
pub const ZERO: u8 = 48;

/// The byte `[`.
pub const OPEN_BRACKET: u8 = 91;

/// The byte `]`.
pub const CLOSE_BRACKET: u8 = 93;

/// The byte `%`.
pub const PERCENT: u8 = 37;

/// A literal IP address: four octets, or eight 16-bit groups with a scope id
/// (zero when none is written).
#[derive(Clone, Copy, Debug, PartialEq, Eq)]
pub enum IpLiteral {
    V4([u8; 4]),
    V6 { groups: [u16; 8], scope_id: u32 },
}

/// Where a tunnel leads: an IP address and a port.
#[derive(Clone, Copy, Debug, PartialEq, Eq)]
pub struct SocketTarget {
    pub ip: IpLiteral,
    pub port: u16,
}

pub open spec fn is_digit(c: u8) -> bool {
    ZERO <= c <= ZERO + 9
}

pub open spec fn all_digits(s: Seq<u8>) -> bool {
    forall|k: int| 0 <= k < s.len() ==> is_digit(#[trigger] s[k])
}

/// The index of the first byte at or after `i` that is not a decimal digit,
/// or the length of `s` when there is none.
pub open spec fn digits_end(s: Seq<u8>, i: int) -> int
    decreases s.len() - i,
{
    if i < 0 || i >= s.len() || !is_digit(s[i]) {
        i
    } else {
        digits_end(s, i + 1)
    }
}

/// The number that a string of decimal digits writes.
pub open spec fn decimal_value(s: Seq<u8>) -> nat
    decreases s.len(),
{
    if s.len() == 0 {
        0
    } else {
        decimal_value(s.drop_last()) * 10 + (s.last() - ZERO) as nat
    }
}

/// An octet of a dotted quad: one to three digits, no leading zero, at most 255.
pub open spec fn is_octet_text(s: Seq<u8>) -> bool {
    &&& 1 <= s.len() <= 3
    &&& all_digits(s)
    &&& (s.len() == 1 || s[0] != ZERO)
    &&& decimal_value(s) <= 255
}

/// A port: one or more digits (leading zeros allowed), at most 65535.
pub open spec fn is_port_text(s: Seq<u8>) -> bool {
    &&& 1 <= s.len()
    &&& all_digits(s)
    &&& decimal_value(s) <= 65535
}

/// Where field `k` of a dotted quad read from `i` starts: fields are runs of
/// digits, each after the `.` that ends the one before.
pub open spec fn quad_start(s: Seq<u8>, i: int, k: nat) -> int
    decreases k, 0nat,
{
    if k == 0 {
        i
    } else {
        quad_end(s, i, (k - 1) as nat) + 1
    }
}

/// Where field `k` of a dotted quad read from `i` ends.
pub open spec fn quad_end(s: Seq<u8>, i: int, k: nat) -> int
    decreases k, 1nat,
{
    digits_end(s, quad_start(s, i, k))
}

/// The text of field `k` of a dotted quad read from `i`.
pub open spec fn quad_field(s: Seq<u8>, i: int, k: nat) -> Seq<u8> {
    s.subrange(quad_start(s, i, k), quad_end(s, i, k))
}

pub open spec fn quad_octet(s: Seq<u8>, i: int, k: nat) -> u8 {
    decimal_value(quad_field(s, i, k)) as u8
}

/// Field `k` of the dotted quad read from `i` is followed by `.`.
pub open spec fn dotted(s: Seq<u8>, i: int, k: nat) -> bool {
    quad_end(s, i, k) < s.len() && s[quad_end(s, i, k)] == DOT
}

/// An IPv4 address `a.b.c.d` starts at `i`; it ends at `quad_end(s, i, 3)`.
pub open spec fn is_quad_at(s: Seq<u8>, i: int) -> bool {
    &&& 0 <= i
    &&& dotted(s, i, 0) && dotted(s, i, 1) && dotted(s, i, 2)
    &&& is_octet_text(quad_field(s, i, 0)) && is_octet_text(quad_field(s, i, 1))
    &&& is_octet_text(quad_field(s, i, 2)) && is_octet_text(quad_field(s, i, 3))
}

/// The bytes from `p` to the end of `s` are a port.
pub open spec fn is_port_from(s: Seq<u8>, p: int) -> bool {
    0 <= p <= s.len() && is_port_text(s.subrange(p, s.len() as int))
}

pub open spec fn port_from(s: Seq<u8>, p: int) -> nat {
    decimal_value(s.subrange(p, s.len() as int))
}

/// `s` is a literal IPv4 socket address `a.b.c.d:port`.
pub open spec fn is_v4_literal(s: Seq<u8>) -> bool {
    let e = quad_end(s, 0, 3);
    &&& is_quad_at(s, 0)
    &&& e < s.len() && s[e] == COLON
    &&& is_port_from(s, e + 1)
}

/// `t` is the address that the IPv4 literal `s` writes.
pub open spec fn denotes_v4(s: Seq<u8>, t: SocketTarget) -> bool {
    &&& t.ip matches IpLiteral::V4(a) && a@ == seq![
        quad_octet(s, 0, 0),
        quad_octet(s, 0, 1),
        quad_octet(s, 0, 2),
        quad_octet(s, 0, 3),
    ]
    &&& t.port as nat == port_from(s, quad_end(s, 0, 3) + 1)
}

pub open spec fn is_hex_digit(c: u8) -> bool {
    is_digit(c) || (97 <= c <= 102) || (65 <= c <= 70)
}

pub open spec fn hex_digit_value(c: u8) -> nat {
    if is_digit(c) {
        (c - ZERO) as nat
    } else if 97 <= c <= 102 {
        (c - 87) as nat
    } else {
        (c - 55) as nat
    }
}

/// The number that a string of hexadecimal digits writes.
pub open spec fn hex_value(s: Seq<u8>) -> nat
    decreases s.len(),
{
    if s.len() == 0 {
        0
    } else {
        hex_value(s.drop_last()) * 16 + hex_digit_value(s.last())
    }
}

/// The index of the first byte at or after `i` that is not a hexadecimal digit,
/// or the length of `s` when there is none.
pub open spec fn hex_end(s: Seq<u8>, i: int) -> int
    decreases s.len() - i,
{
    if i < 0 || i >= s.len() || !is_hex_digit(s[i]) {
        i
    } else {
        hex_end(s, i + 1)
    }
}

/// A group of an IPv6 address starts at `i`: one to four hexadecimal digits.
pub open spec fn is_group_at(s: Seq<u8>, i: int) -> bool {
    0 <= i && 1 <= hex_end(s, i) - i <= 4
}

pub open spec fn group_value(s: Seq<u8>, i: int) -> u16 {
    hex_value(s.subrange(i, hex_end(s, i))) as u16
}

/// The two groups that a dotted quad read from `i` stands for.
pub open spec fn quad_groups(s: Seq<u8>, i: int) -> Seq<u16> {
    seq![
        (quad_octet(s, i, 0) as nat * 256 + quad_octet(s, i, 1) as nat) as u16,
        (quad_octet(s, i, 2) as nat * 256 + quad_octet(s, i, 3) as nat) as u16,
    ]
}

/// Reads at most `limit` groups from `i`, each after the first preceded by `:`.
/// Where two or more groups are still allowed, a dotted quad is tried first; it
/// counts as two groups and ends the reading. A `:` that no group follows is left
/// unread. Gives the groups, where reading stopped, and whether a dotted quad
/// ended it.
pub open spec fn read_groups(s: Seq<u8>, i: int, limit: nat) -> (Seq<u16>, int, bool)
    decreases limit,
{
    if limit == 0 {
        (Seq::empty(), i, false)
    } else if limit >= 2 && is_quad_at(s, i) {
        (quad_groups(s, i), quad_end(s, i, 3), true)
    } else if !is_group_at(s, i) {
        (Seq::empty(), i, false)
    } else {
        let j = hex_end(s, i);
        if limit > 1 && j < s.len() && s[j] == COLON && is_group_at(s, j + 1) {
            let rest = read_groups(s, j + 1, (limit - 1) as nat);
            (seq![group_value(s, i)] + rest.0, rest.1, rest.2)
        } else {
            (seq![group_value(s, i)], j, false)
        }
    }
}

/// The eight groups of the IPv6 address written from `i`, and where it ends:
/// eight groups, or fewer around one `::` that stands for at least one zero group.
/// A dotted quad may only come last, after `::` when there is one.
pub open spec fn v6_groups(s: Seq<u8>, i: int) -> Option<(Seq<u16>, int)> {
    let (head, e, quad) = read_groups(s, i, 8);
    if head.len() == 8 {
        Some((head, e))
    } else if quad {
        None
    } else if e + 1 < s.len() && s[e] == COLON && s[e + 1] == COLON {
        let (tail, e2, _) = read_groups(s, e + 2, (7 - head.len()) as nat);
        Some((head + Seq::new((8 - head.len() - tail.len()) as nat, |k: int| 0u16) + tail, e2))
    } else {
        None
    }
}

/// Whether a scope id `%digits` is written at `e`.
pub open spec fn has_scope(s: Seq<u8>, e: int) -> bool {
    0 <= e < s.len() && s[e] == PERCENT
}

/// The digits of the scope id written at `e`; empty when there is none.
pub open spec fn scope_text(s: Seq<u8>, e: int) -> Seq<u8> {
    if has_scope(s, e) {
        s.subrange(e + 1, digits_end(s, e + 1))
    } else {
        Seq::empty()
    }
}

/// Where the address's closing `]` is expected, after the scope id if any.
pub open spec fn close_at(s: Seq<u8>, e: int) -> int {
    if has_scope(s, e) {
        digits_end(s, e + 1)
    } else {
        e
    }
}

/// No scope id, or one of one or more digits that fits in 32 bits.
pub open spec fn scope_ok(s: Seq<u8>, e: int) -> bool {
    has_scope(s, e) ==> 1 <= scope_text(s, e).len() && decimal_value(scope_text(s, e)) <= 4294967295
}

/// `s` is a literal IPv6 socket address `[groups%scope]:port`, the scope optional.
pub open spec fn is_v6_literal(s: Seq<u8>) -> bool {
    &&& s.len() > 0 && s[0] == OPEN_BRACKET
    &&& match v6_groups(s, 1) {
        Some((_, e)) => {
            let c = close_at(s, e);
            &&& scope_ok(s, e)
            &&& c + 1 < s.len() && s[c] == CLOSE_BRACKET && s[c + 1] == COLON
            &&& is_port_from(s, c + 2)
        },
        None => false,
    }
}

/// `t` is the address that the IPv6 literal `s` writes.
pub open spec fn denotes_v6(s: Seq<u8>, t: SocketTarget) -> bool {
    match v6_groups(s, 1) {
        Some((g, e)) => {
            &&& t.ip matches IpLiteral::V6 { groups, scope_id } && groups@ == g
                && scope_id as nat == decimal_value(scope_text(s, e))
            &&& t.port as nat == port_from(s, close_at(s, e) + 2)
        },
        None => false,
    }
}

/// `s` is a literal socket address, IPv4 or IPv6.
pub open spec fn is_socket_literal(s: Seq<u8>) -> bool {
    is_v4_literal(s) || is_v6_literal(s)
}

/// `t` is the address that the literal `s` writes.
pub open spec fn denotes(s: Seq<u8>, t: SocketTarget) -> bool {
    if is_v4_literal(s) {
        denotes_v4(s, t)
    } else {
        denotes_v6(s, t)
    }
}

proof fn lemma_value_of_prefix(s: Seq<u8>, n: int)
    requires
        0 <= n <= s.len(),
    ensures
        decimal_value(s.subrange(0, n)) <= decimal_value(s),
    decreases s.len(),
{
    if n < s.len() {
        lemma_value_of_prefix(s.drop_last(), n);
        assert(s.drop_last().subrange(0, n) =~= s.subrange(0, n));
    } else {
        assert(s.subrange(0, n) =~= s);
    }
}

/// The exec counterpart of `digits_end`.
fn scan_digits(s: &[u8], i: usize) -> (r: usize)
    requires
        i <= s@.len(),
    ensures
        r as int == digits_end(s@, i as int),
        i <= r <= s@.len(),
        all_digits(s@.subrange(i as int, r as int)),
        r < s@.len() ==> !is_digit(s@[r as int]),
{
    let mut j: usize = i;
    while j < s.len() && ZERO <= s[j] && s[j] <= ZERO + 9
        invariant
            i <= j <= s@.len(),
            digits_end(s@, i as int) == digits_end(s@, j as int),
            forall|k: int| i <= k < j ==> is_digit(#[trigger] s@[k]),
        decreases s@.len() - j,
    {
        j = j + 1;
    }
    j
}

/// The value of the digits `s[lo..hi]`, or `None` when it exceeds `max`.
fn decimal_at_most(s: &[u8], lo: usize, hi: usize, max: u64) -> (r: Option<u64>)
    requires
        lo <= hi <= s@.len(),
        max <= 4294967295,
        all_digits(s@.subrange(lo as int, hi as int)),
    ensures
        r is Some <==> decimal_value(s@.subrange(lo as int, hi as int)) <= max,
        r matches Some(v) ==> v as nat == decimal_value(s@.subrange(lo as int, hi as int)),
{
    let ghost whole = s@.subrange(lo as int, hi as int);
    let mut v: u64 = 0;
    let mut j: usize = lo;
    assert(s@.subrange(lo as int, lo as int) =~= Seq::<u8>::empty());
    while j < hi
        invariant
            lo <= j <= hi <= s@.len(),
            max <= 4294967295,
            whole == s@.subrange(lo as int, hi as int),
            all_digits(whole),
            v <= max,
            v as nat == decimal_value(s@.subrange(lo as int, j as int)),
        decreases hi - j,
    {
        assert(whole[j - lo] == s@[j as int]);
        let d: u64 = (s[j] - ZERO) as u64;
        let next: u64 = v * 10 + d;
        assert(s@.subrange(lo as int, j + 1).drop_last() =~= s@.subrange(lo as int, j as int));
        if next > max {
            proof {
                assert(whole.subrange(0, j + 1 - lo) =~= s@.subrange(lo as int, j + 1));
                lemma_value_of_prefix(whole, j + 1 - lo);
            }
            return None;
        }
        v = next;
        j = j + 1;
    }
    Some(v)
}

/// The octet written by `s[lo..hi]`, or `None` when that is not an octet's text.
fn octet(s: &[u8], lo: usize, hi: usize) -> (r: Option<u8>)
    requires
        lo <= hi <= s@.len(),
        all_digits(s@.subrange(lo as int, hi as int)),
    ensures
        r is Some <==> is_octet_text(s@.subrange(lo as int, hi as int)),
        r matches Some(v) ==> v as nat == decimal_value(s@.subrange(lo as int, hi as int)),
{
    let ghost t = s@.subrange(lo as int, hi as int);
    if hi - lo < 1 || hi - lo > 3 {
        return None;
    }
    assert(t[0] == s@[lo as int]);
    if hi - lo > 1 && s[lo] == ZERO {
        return None;
    }
    match decimal_at_most(s, lo, hi, 255) {
        Some(v) => Some(v as u8),
        None => None,
    }
}

/// Reads a dotted quad from `i`: its octets and where it ends.
fn read_quad(s: &[u8], i: usize) -> (r: Option<([u8; 4], usize)>)
    requires
        i <= s@.len(),
    ensures
        r is Some <==> is_quad_at(s@, i as int),
        r matches Some((o, e)) ==> {
            &&& e as int == quad_end(s@, i as int, 3)
            &&& i <= e <= s@.len()
            &&& o@ == seq![
                quad_octet(s@, i as int, 0),
                quad_octet(s@, i as int, 1),
                quad_octet(s@, i as int, 2),
                quad_octet(s@, i as int, 3),
            ]
        },
{
    let ghost b = s@;
    let n = s.len();
    let e0 = scan_digits(s, i);
    assert(e0 == quad_end(b, i as int, 0));
    if e0 >= n || s[e0] != DOT {
        return None;
    }
    let e1 = scan_digits(s, e0 + 1);
    assert(e1 == quad_end(b, i as int, 1));
    if e1 >= n || s[e1] != DOT {
        return None;
    }
    let e2 = scan_digits(s, e1 + 1);
    assert(e2 == quad_end(b, i as int, 2));
    if e2 >= n || s[e2] != DOT {
        return None;
    }
    let e3 = scan_digits(s, e2 + 1);
    assert(e3 == quad_end(b, i as int, 3));
    let a = match octet(s, i, e0) {
        Some(v) => v,
        None => return None,
    };
    let b1 = match octet(s, e0 + 1, e1) {
        Some(v) => v,
        None => return None,
    };
    let c = match octet(s, e1 + 1, e2) {
        Some(v) => v,
        None => return None,
    };
    let d = match octet(s, e2 + 1, e3) {
        Some(v) => v,
        None => return None,
    };
    let octets = [a, b1, c, d];
    assert(octets@ =~= seq![a, b1, c, d]);
    Some((octets, e3))
}

/// Reads the bytes from `p` to the end as a port.
fn read_port(s: &[u8], p: usize) -> (r: Option<u16>)
    requires
        p <= s@.len(),
    ensures
        r is Some <==> is_port_from(s@, p as int),
        r matches Some(v) ==> v as nat == port_from(s@, p as int),
{
    let d = scan_digits(s, p);
    if d != s.len() {
        assert(s@.subrange(p as int, s@.len() as int)[d - p] == s@[d as int]);
        return None;
    }
    if d - p < 1 {
        return None;
    }
    match decimal_at_most(s, p, d, 65535) {
        Some(v) => Some(v as u16),
        None => None,
    }
}

fn parse_v4(s: &[u8]) -> (r: Option<SocketTarget>)
    ensures
        r is Some <==> is_v4_literal(s@),
        r matches Some(t) ==> denotes_v4(s@, t),
{
    let (octets, e) = match read_quad(s, 0) {
        Some(q) => q,
        None => return None,
    };
    if e >= s.len() || s[e] != COLON {
        return None;
    }
    match read_port(s, e + 1) {
        Some(port) => Some(SocketTarget { ip: IpLiteral::V4(octets), port }),
        None => None,
    }
}


/// The exec counterpart of `hex_end`.
fn scan_hex(s: &[u8], i: usize) -> (r: usize)
    requires
        i <= s@.len(),
    ensures
        r as int == hex_end(s@, i as int),
        i <= r <= s@.len(),
        forall|k: int| i <= k < r ==> is_hex_digit(#[trigger] s@[k]),
{
    let mut j: usize = i;
    while j < s.len() && (ZERO <= s[j] && s[j] <= ZERO + 9 || 97 <= s[j] && s[j] <= 102 || 65 <= s[j]
        && s[j] <= 70)
        invariant
            i <= j <= s@.len(),
            hex_end(s@, i as int) == hex_end(s@, j as int),
            forall|k: int| i <= k < j ==> is_hex_digit(#[trigger] s@[k]),
        decreases s@.len() - j,
    {
        j = j + 1;
    }
    j
}

/// The value of the one to four hexadecimal digits `s[lo..hi]`.
fn hex_group(s: &[u8], lo: usize, hi: usize) -> (r: u16)
    requires
        lo < hi <= s@.len(),
        hi - lo <= 4,
        forall|k: int| lo <= k < hi ==> is_hex_digit(#[trigger] s@[k]),
    ensures
        r as nat == hex_value(s@.subrange(lo as int, hi as int)),
{
    let mut v: u32 = 0;
    let mut j: usize = lo;
    assert(s@.subrange(lo as int, lo as int) =~= Seq::<u8>::empty());
    while j < hi
        invariant
            lo <= j <= hi <= s@.len(),
            hi - lo <= 4,
            forall|k: int| lo <= k < hi ==> is_hex_digit(#[trigger] s@[k]),
            v as nat == hex_value(s@.subrange(lo as int, j as int)),
            j - lo == 0 ==> v == 0,
            j - lo == 1 ==> v < 16,
            j - lo == 2 ==> v < 256,
            j - lo == 3 ==> v < 4096,
            j - lo == 4 ==> v < 65536,
        decreases hi - j,
    {
        let c = s[j];
        assert(is_hex_digit(s@[j as int]));
        let d: u32 = if ZERO <= c && c <= ZERO + 9 {
            (c - ZERO) as u32
        } else if 97 <= c && c <= 102 {
            (c - 87) as u32
        } else {
            (c - 55) as u32
        };
        assert(s@.subrange(lo as int, j + 1).drop_last() =~= s@.subrange(lo as int, j as int));
        v = v * 16 + d;
        j = j + 1;
    }
    v as u16
}

/// The exec counterpart of `read_groups`.
fn read_groups_at(s: &[u8], i: usize, limit: usize) -> (r: (Vec<u16>, usize, bool))
    requires
        i <= s@.len(),
        limit <= 8,
    ensures
        (r.0@, r.1 as int, r.2) == read_groups(s@, i as int, limit as nat),
        i <= r.1 <= s@.len(),
        r.0@.len() <= limit,
    decreases limit,
{
    if limit == 0 {
        return (Vec::new(), i, false);
    }
    if limit >= 2 {
        match read_quad(s, i) {
            Some((o, e)) => {
                let mut out: Vec<u16> = Vec::new();
                out.push(o[0] as u16 * 256 + o[1] as u16);
                out.push(o[2] as u16 * 256 + o[3] as u16);
                assert(out@ =~= quad_groups(s@, i as int));
                return (out, e, true);
            },
            None => {},
        }
    }
    let j = scan_hex(s, i);
    if j - i < 1 || j - i > 4 {
        return (Vec::new(), i, false);
    }
    let g = hex_group(s, i, j);
    let mut out: Vec<u16> = Vec::new();
    out.push(g);
    if limit > 1 && j < s.len() && s[j] == COLON {
        let k = scan_hex(s, j + 1);
        if k - (j + 1) >= 1 && k - (j + 1) <= 4 {
            let (mut rest, e, quad) = read_groups_at(s, j + 1, limit - 1);
            let ghost r0 = rest@;
            out.append(&mut rest);
            assert(out@ =~= seq![g] + r0);
            return (out, e, quad);
        }
    }
    assert(out@ =~= seq![g]);
    (out, j, false)
}

/// The exec counterpart of `v6_groups`.
fn read_v6_groups(s: &[u8], i: usize) -> (r: Option<(Vec<u16>, usize)>)
    requires
        i <= s@.len(),
    ensures
        match r {
            Some((g, e)) => v6_groups(s@, i as int) == Some((g@, e as int)) && e <= s@.len()
                && g@.len() == 8,
            None => v6_groups(s@, i as int) is None,
        },
{
    let (head, e, quad) = read_groups_at(s, i, 8);
    let ghost h = head@;
    if head.len() == 8 {
        return Some((head, e));
    }
    if quad {
        return None;
    }
    if !(e < s.len() && e + 1 < s.len() && s[e] == COLON && s[e + 1] == COLON) {
        return None;
    }
    let (mut tail, e2, _) = read_groups_at(s, e + 2, 7 - head.len());
    let ghost t = tail@;
    let zeros: usize = 8 - head.len() - tail.len();
    let mut out = head;
    let mut z: usize = 0;
    while z < zeros
        invariant
            z <= zeros,
            out@ == h + Seq::new(z as nat, |k: int| 0u16),
        decreases zeros - z,
    {
        out.push(0);
        assert(out@ =~= h + Seq::new((z + 1) as nat, |k: int| 0u16));
        z = z + 1;
    }
    out.append(&mut tail);
    assert(out@ =~= h + Seq::new((8 - h.len() - t.len()) as nat, |k: int| 0u16) + t);
    Some((out, e2))
}

/// Reads the optional scope id at `e`: its value and where `]` is expected.
fn read_scope(s: &[u8], e: usize) -> (r: Option<(u32, usize)>)
    requires
        e <= s@.len(),
    ensures
        r is Some <==> scope_ok(s@, e as int),
        r matches Some((v, c)) ==> {
            &&& v as nat == decimal_value(scope_text(s@, e as int))
            &&& c as int == close_at(s@, e as int)
            &&& c <= s@.len()
        },
{
    if e < s.len() && s[e] == PERCENT {
        let d = scan_digits(s, e + 1);
        if d - (e + 1) < 1 {
            return None;
        }
        match decimal_at_most(s, e + 1, d, 4294967295) {
            Some(v) => Some((v as u32, d)),
            None => None,
        }
    } else {
        assert(scope_text(s@, e as int) =~= Seq::<u8>::empty());
        Some((0, e))
    }
}

fn parse_v6(s: &[u8]) -> (r: Option<SocketTarget>)
    requires
        s@.len() > 0,
        s@[0] == OPEN_BRACKET,
    ensures
        r is Some <==> is_v6_literal(s@),
        r matches Some(t) ==> denotes_v6(s@, t),
{
    let (groups, e) = match read_v6_groups(s, 1) {
        Some(g) => g,
        None => return None,
    };
    let (scope_id, c) = match read_scope(s, e) {
        Some(x) => x,
        None => return None,
    };
    if !(c < s.len() && c + 1 < s.len() && s[c] == CLOSE_BRACKET && s[c + 1] == COLON) {
        return None;
    }
    let port = match read_port(s, c + 2) {
        Some(p) => p,
        None => return None,
    };
    let a = [
        groups[0],
        groups[1],
        groups[2],
        groups[3],
        groups[4],
        groups[5],
        groups[6],
        groups[7],
    ];
    assert(a@ =~= groups@);
    Some(SocketTarget { ip: IpLiteral::V6 { groups: a, scope_id }, port })
}

/// Reads a `CONNECT` authority as a literal socket address, in the grammar of
/// std's socket-address parser: `a.b.c.d:port`, or `[addr]:port` with an IPv6
/// address in hexadecimal groups (one `::` allowed, a dotted quad allowed last)
/// and an optional `%scope` before `]`.
///
/// Returns `None` for anything else, host names included.
pub fn parse_target(authority: &str) -> (r: Option<SocketTarget>)
    ensures
        r is Some <==> is_socket_literal(authority.spec_bytes()),
        r matches Some(t) ==> denotes(authority.spec_bytes(), t),
{
    let s = authority.as_bytes();
    if s.len() > 0 && s[0] == OPEN_BRACKET {
        assert(digits_end(s@, 0) == 0);
        assert(!is_v4_literal(s@));
        parse_v6(s)
    } else {
        parse_v4(s)
    }
}

} // verus!
