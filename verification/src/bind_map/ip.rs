//! IP addresses as plain values, and their textual syntax.
//!
//! An IPv4 address is its 32-bit number and an IPv6 address its 128-bit
//! number, exactly the values `Ipv4Addr` and `Ipv6Addr` convert to. The
//! grammar is the standard library's `IpAddr::from_str`: four dotted decimal
//! octets without leading zeros, or eight colon-separated hex groups with at
//! most one `::` and an optional trailing dotted IPv4 tail. Like the standard
//! parser it is greedy and never backtracks from a successful IPv4 read.
use vstd::prelude::*;

verus! {

#[derive(Debug, Clone, Copy, PartialEq, Eq, Hash, Structural)]
pub enum IpAddress {
    V4(u32),
    V6(u128),
}

/// `char::to_digit` for radix 10 and 16.
pub open spec fn char_digit(c: char, radix: nat) -> Option<nat> {
    let u = c as u32;
    if 0x30 <= u <= 0x39 {
        Some((u - 0x30) as nat)
    } else if radix == 16 && 0x61 <= u <= 0x66 {
        Some((u - 0x61 + 10) as nat)
    } else if radix == 16 && 0x41 <= u <= 0x46 {
        Some((u - 0x41 + 10) as nat)
    } else {
        None
    }
}

/// Length of the run of radix digits starting at `pos`.
pub open spec fn run_len(s: Seq<char>, pos: int, radix: nat) -> nat
    decreases s.len() - pos,
{
    if 0 <= pos < s.len() && char_digit(s[pos], radix) is Some {
        1 + run_len(s, pos + 1, radix)
    } else {
        0
    }
}

/// Value of the `k` radix digits starting at `pos`.
pub open spec fn run_value(s: Seq<char>, pos: int, k: nat, radix: nat) -> nat
    decreases k,
{
    if k == 0 {
        0
    } else {
        run_value(s, pos, (k - 1) as nat, radix) * radix + char_digit(s[pos + k - 1], radix)->0
    }
}

/// One number: 1..=`max_digits` digits, no value above `max_value`, and no
/// leading zero unless `allow_zero_prefix`. Yields the value and the position
/// after it.
pub open spec fn read_number(
    s: Seq<char>,
    pos: int,
    radix: nat,
    max_digits: nat,
    allow_zero_prefix: bool,
    max_value: nat,
) -> Option<(nat, int)> {
    let k = run_len(s, pos, radix);
    if k == 0 || k > max_digits {
        None
    } else if run_value(s, pos, k, radix) > max_value {
        None
    } else if !allow_zero_prefix && s[pos] == '0' && k > 1 {
        None
    } else {
        Some((run_value(s, pos, k, radix), pos + k))
    }
}

/// A separator (for every piece but the first) followed by a piece.
pub open spec fn after_sep(s: Seq<char>, pos: int, sep: char, first: bool) -> Option<int> {
    if first {
        Some(pos)
    } else if 0 <= pos < s.len() && s[pos] == sep {
        Some(pos + 1)
    } else {
        None
    }
}

/// One decimal octet, preceded by `.` unless it is the first.
pub open spec fn read_octet(s: Seq<char>, pos: int, first: bool) -> Option<(nat, int)> {
    match after_sep(s, pos, '.', first) {
        Some(p) => read_number(s, p, 10, 3, false, 255),
        None => None,
    }
}

/// The first `n` octets of a dotted IPv4 address from `pos`.
pub open spec fn read_octets(s: Seq<char>, pos: int, n: nat) -> Option<(nat, int)>
    decreases n,
{
    if n == 0 {
        Some((0, pos))
    } else {
        match read_octets(s, pos, (n - 1) as nat) {
            Some((v, p)) => match read_octet(s, p, n == 1) {
                Some((o, q)) => Some((v * 256 + o, q)),
                None => None,
            },
            None => None,
        }
    }
}

/// A dotted IPv4 address starting at `pos`.
pub open spec fn read_ipv4(s: Seq<char>, pos: int) -> Option<(nat, int)> {
    read_octets(s, pos, 4)
}

/// One hex group, preceded by `:` unless it is the first.
pub open spec fn read_hex_group(s: Seq<char>, pos: int, first: bool) -> Option<(nat, int)> {
    match after_sep(s, pos, ':', first) {
        Some(p) => read_number(s, p, 16, 4, true, 65535),
        None => None,
    }
}

/// An embedded IPv4 tail, preceded by `:` unless it is the first piece.
pub open spec fn read_v4_tail(s: Seq<char>, pos: int, first: bool) -> Option<(nat, int)> {
    match after_sep(s, pos, ':', first) {
        Some(p) => read_ipv4(s, p),
        None => None,
    }
}

/// Colon-separated groups read greedily from `pos`, at most `limit` of them;
/// from the `i`-th piece on (`i` pieces already in `acc`). Yields the groups,
/// whether an IPv4 tail ended them, and the position after them.
pub open spec fn read_groups_from(
    s: Seq<char>,
    pos: int,
    limit: nat,
    i: nat,
    acc: Seq<nat>,
) -> (Seq<nat>, bool, int)
    decreases limit - i,
{
    if i >= limit {
        (acc, false, pos)
    } else if i + 1 < limit && read_v4_tail(s, pos, i == 0) is Some {
        let (v, p) = read_v4_tail(s, pos, i == 0)->0;
        (acc.push(v / 65536).push(v % 65536), true, p)
    } else {
        match read_hex_group(s, pos, i == 0) {
            Some((g, p)) => read_groups_from(s, p, limit, i + 1, acc.push(g)),
            None => (acc, false, pos),
        }
    }
}

pub open spec fn read_groups(s: Seq<char>, pos: int, limit: nat) -> (Seq<nat>, bool, int) {
    read_groups_from(s, pos, limit, 0, seq![])
}

/// The number eight 16-bit groups denote, most significant first.
pub open spec fn groups_value(g: Seq<nat>) -> nat
    decreases g.len(),
{
    if g.len() == 0 {
        0
    } else {
        groups_value(g.drop_last()) * 65536 + g.last()
    }
}

/// A colon-hex IPv6 address starting at `pos`.
pub open spec fn read_ipv6(s: Seq<char>, pos: int) -> Option<(nat, int)> {
    let (head, head_v4, p) = read_groups(s, pos, 8);
    if head.len() == 8 {
        Some((groups_value(head), p))
    } else if head_v4 {
        None
    } else if !(0 <= p && p + 1 < s.len() && s[p] == ':' && s[p + 1] == ':') {
        None
    } else {
        let (tail, _v4, q) = read_groups(s, p + 2, (7 - head.len()) as nat);
        let zeros = Seq::new((8 - head.len() - tail.len()) as nat, |i: int| 0nat);
        Some((groups_value(head + zeros + tail), q))
    }
}

/// `<IpAddr as FromStr>::from_str`: an IPv4 reading that stops early is not
/// retried as IPv6, and the whole text must be consumed.
pub open spec fn ip_parse(s: Seq<char>) -> Option<IpAddress> {
    match read_ipv4(s, 0) {
        Some((v, p)) => if p == s.len() {
            Some(IpAddress::V4(v as u32))
        } else {
            None
        },
        None => match read_ipv6(s, 0) {
            Some((v, p)) => if p == s.len() {
                Some(IpAddress::V6(v as u128))
            } else {
                None
            },
            None => None,
        },
    }
}

fn digit_of(c: char, radix: u32) -> (r: Option<u32>)
    requires
        radix == 10 || radix == 16,
    ensures
        match char_digit(c, radix as nat) {
            Some(d) => r == Some(d as u32),
            None => r is None,
        },
{
    let u = c as u32;
    if 0x30 <= u && u <= 0x39 {
        Some(u - 0x30)
    } else if radix == 16 && 0x61 <= u && u <= 0x66 {
        Some(u - 0x61 + 10)
    } else if radix == 16 && 0x41 <= u && u <= 0x46 {
        Some(u - 0x41 + 10)
    } else {
        None
    }
}

proof fn lemma_run_len_split(s: Seq<char>, pos: int, c: nat, radix: nat)
    requires
        0 <= pos,
        pos + c <= s.len(),
        forall|j: int| pos <= j < pos + c ==> char_digit(#[trigger] s[j], radix) is Some,
    ensures
        run_len(s, pos, radix) == c + run_len(s, pos + c, radix),
    decreases c,
{
    if c > 0 {
        lemma_run_len_split(s, pos + 1, (c - 1) as nat, radix);
    }
}

proof fn lemma_run_value_bound(s: Seq<char>, pos: int, k: nat, radix: nat)
    requires
        radix <= 16,
        k <= 4,
        forall|j: int| pos <= j < pos + k ==> char_digit(#[trigger] s[j], radix) is Some && char_digit(
            s[j],
            radix,
        )->0 < radix,
    ensures
        run_value(s, pos, k, radix) < pow16(k),
    decreases k,
{
    if k > 0 {
        lemma_run_value_bound(s, pos, (k - 1) as nat, radix);
        let v = run_value(s, pos, (k - 1) as nat, radix);
        let d = char_digit(s[pos + k - 1], radix)->0;
        let p = pow16((k - 1) as nat);
        assert(v * radix + d < p * 16) by (nonlinear_arith)
            requires
                v < p,
                d < radix,
                radix <= 16,
        ;
    }
}

pub open spec fn pow16(k: nat) -> nat
    decreases k,
{
    if k == 0 {
        1
    } else {
        pow16((k - 1) as nat) * 16
    }
}

/// Executable `read_number`.
fn read_number_exec(
    s: &[char],
    pos: usize,
    radix: u32,
    max_digits: usize,
    allow_zero_prefix: bool,
    max_value: u32,
) -> (r: Option<(u32, usize)>)
    requires
        radix == 10 || radix == 16,
        1 <= max_digits <= 4,
        pos <= s@.len(),
    ensures
        r is Some <==> read_number(
            s@,
            pos as int,
            radix as nat,
            max_digits as nat,
            allow_zero_prefix,
            max_value as nat,
        ) is Some,
        r matches Some((v, q)) ==> (read_number(
            s@,
            pos as int,
            radix as nat,
            max_digits as nat,
            allow_zero_prefix,
            max_value as nat,
        ) matches Some((a, b)) && v as nat == a && q as int == b),
{
    let n = s.len();
    let mut i = pos;
    let mut val: u32 = 0;
    let mut count: usize = 0;
    assert(pow16(0) == 1);
    assert(pow16(1) == 16);
    assert(pow16(2) == 256);
    assert(pow16(3) == 4096);
    assert(pow16(4) == 65536);
    while i < n
        invariant
            pos <= i <= n,
            n == s@.len(),
            count == i - pos,
            count <= max_digits,
            1 <= max_digits <= 4,
            radix == 10 || radix == 16,
            forall|j: int| pos <= j < i ==> char_digit(#[trigger] s@[j], radix as nat) is Some,
            val == run_value(s@, pos as int, count as nat, radix as nat),
            val < pow16(count as nat),
            pow16(4) == 65536,
        ensures
            pos <= i <= n,
            count == i - pos,
            forall|j: int| pos <= j < i ==> char_digit(#[trigger] s@[j], radix as nat) is Some,
            val == run_value(s@, pos as int, count as nat, radix as nat),
            i == n || char_digit(s@[i as int], radix as nat) is None,
        decreases n - i,
    {
        let d = match digit_of(s[i], radix) {
            Some(d) => d,
            None => break,
        };
        proof {
            assert(pow16(0) == 1);
            assert(pow16(1) == 16);
            assert(pow16(2) == 256);
            assert(pow16(3) == 4096);
            assert(val * radix + d < pow16(count as nat) * 16) by (nonlinear_arith)
                requires
                    val < pow16(count as nat),
                    d < radix,
                    radix <= 16,
            ;
            assert(pow16(count as nat) * 16 <= 65536 * 16);
        }
        if count == max_digits {
            proof {
                lemma_run_len_split(s@, pos as int, (count + 1) as nat, radix as nat);
            }
            return None;
        }
        val = val * radix + d;
        count += 1;
        i += 1;
    }
    proof {
        lemma_run_len_split(s@, pos as int, count as nat, radix as nat);
    }
    if count == 0 {
        return None;
    }
    if val > max_value {
        return None;
    }
    if !allow_zero_prefix && s[pos] == '0' && count > 1 {
        return None;
    }
    Some((val, i))
}

fn after_sep_exec(s: &[char], pos: usize, sep: char, first: bool) -> (r: Option<usize>)
    requires
        pos <= s@.len(),
    ensures
        r is Some <==> after_sep(s@, pos as int, sep, first) is Some,
        r matches Some(q) ==> after_sep(s@, pos as int, sep, first) == Some(q as int) && q <= s@.len(),
{
    if first {
        Some(pos)
    } else if pos < s.len() && s[pos] == sep {
        Some(pos + 1)
    } else {
        None
    }
}

proof fn lemma_read_number_pos(
    s: Seq<char>,
    pos: int,
    radix: nat,
    max_digits: nat,
    allow_zero_prefix: bool,
    max_value: nat,
)
    requires
        0 <= pos <= s.len(),
    ensures
        read_number(s, pos, radix, max_digits, allow_zero_prefix, max_value) matches Some((v, p))
            ==> pos < p <= s.len() && v <= max_value,
    decreases s.len() - pos,
{
    lemma_run_len_le(s, pos, radix);
}

proof fn lemma_run_len_le(s: Seq<char>, pos: int, radix: nat)
    requires
        0 <= pos <= s.len(),
    ensures
        pos + run_len(s, pos, radix) <= s.len(),
    decreases s.len() - pos,
{
    if pos < s.len() && char_digit(s[pos], radix) is Some {
        lemma_run_len_le(s, pos + 1, radix);
    }
}

fn read_octet_exec(s: &[char], pos: usize, first: bool) -> (r: Option<(u32, usize)>)
    requires
        pos <= s@.len(),
    ensures
        r is Some <==> read_octet(s@, pos as int, first) is Some,
        r matches Some((v, q)) ==> (read_octet(s@, pos as int, first) matches Some((a, b)) && v as nat == a && q as int == b) && v <= 255 && q <= s@.len(),
{
    match after_sep_exec(s, pos, '.', first) {
        Some(p) => {
            proof {
                lemma_read_number_pos(s@, p as int, 10, 3, false, 255);
            }
            read_number_exec(s, p, 10, 3, false, 255)
        },
        None => None,
    }
}

proof fn lemma_read_octets_bound(s: Seq<char>, pos: int, n: nat)
    requires
        0 <= pos <= s.len(),
    ensures
        read_octets(s, pos, n) matches Some((v, p)) ==> v < pow256(n) && pos <= p <= s.len(),
    decreases n,
{
    if n > 0 {
        lemma_read_octets_bound(s, pos, (n - 1) as nat);
        match read_octets(s, pos, (n - 1) as nat) {
            Some((v, p)) => {
                match read_octet(s, p, n == 1) {
                    Some((o, q)) => {
                        let pn = pow256((n - 1) as nat);
                        match after_sep(s, p, '.', n == 1) {
                            Some(pp) => lemma_read_number_pos(s, pp, 10, 3, false, 255),
                            None => {},
                        }
                        assert(v * 256 + o < pn * 256) by (nonlinear_arith)
                            requires
                                v < pn,
                                o <= 255,
                        ;
                    },
                    None => {},
                }
            },
            None => {},
        }
    }
}

pub open spec fn pow256(n: nat) -> nat
    decreases n,
{
    if n == 0 {
        1
    } else {
        pow256((n - 1) as nat) * 256
    }
}

/// Executable `read_ipv4`.
fn read_ipv4_exec(s: &[char], pos: usize) -> (r: Option<(u32, usize)>)
    requires
        pos <= s@.len(),
    ensures
        r is Some <==> read_ipv4(s@, pos as int) is Some,
        r matches Some((v, q)) ==> (read_ipv4(s@, pos as int) matches Some((a, b)) && v as nat == a && q as int == b) && q <= s@.len(),
{
    let mut acc: u32 = 0;
    let mut p = pos;
    let mut k: usize = 0;
    assert(pow256(4) == 0x1_0000_0000) by {
        assert(pow256(0) == 1);
        assert(pow256(1) == 256);
        assert(pow256(2) == 65536);
        assert(pow256(3) == 16777216);
    }
    while k < 4
        invariant
            k <= 4,
            pos <= p <= s@.len(),
            read_octets(s@, pos as int, k as nat) == Some((acc as nat, p as int)),
            (acc as nat) < pow256(k as nat),
            pow256(4) == 0x1_0000_0000,
        decreases 4 - k,
    {
        match read_octet_exec(s, p, k == 0) {
            Some((o, q)) => {
                proof {
                    assert(pow256((k + 1) as nat) == pow256(k as nat) * 256);
                    assert(pow256((k + 1) as nat) <= pow256(4)) by {
                        if k + 1 < 4 {
                            assert(pow256(0) == 1);
                            assert(pow256(1) == 256);
                            assert(pow256(2) == 65536);
                            assert(pow256(3) == 16777216);
                        }
                    }
                    assert(acc * 256 + o < pow256(k as nat) * 256) by (nonlinear_arith)
                        requires
                            acc < pow256(k as nat),
                            o <= 255,
                    ;
                }
                acc = acc * 256 + o;
                p = q;
                k += 1;
            },
            None => {
                proof {
                    assert(read_octets(s@, pos as int, (k + 1) as nat) is None);
                    lemma_octets_none_propagates(s@, pos as int, (k + 1) as nat, 4);
                }
                return None;
            },
        }
    }
    Some((acc, p))
}

proof fn lemma_octets_none_propagates(s: Seq<char>, pos: int, m: nat, n: nat)
    requires
        m <= n,
        read_octets(s, pos, m) is None,
    ensures
        read_octets(s, pos, n) is None,
    decreases n - m,
{
    if m < n {
        lemma_octets_none_propagates(s, pos, m, (n - 1) as nat);
    }
}

fn read_hex_group_exec(s: &[char], pos: usize, first: bool) -> (r: Option<(u32, usize)>)
    requires
        pos <= s@.len(),
    ensures
        r is Some <==> read_hex_group(s@, pos as int, first) is Some,
        r matches Some((v, q)) ==> (read_hex_group(s@, pos as int, first) matches Some((a, b)) && v as nat == a && q as int == b) && v <= 65535 && pos < q <= s@.len(),
{
    match after_sep_exec(s, pos, ':', first) {
        Some(p) => {
            proof {
                lemma_read_number_pos(s@, p as int, 16, 4, true, 65535);
            }
            read_number_exec(s, p, 16, 4, true, 65535)
        },
        None => None,
    }
}

fn read_v4_tail_exec(s: &[char], pos: usize, first: bool) -> (r: Option<(u32, usize)>)
    requires
        pos <= s@.len(),
    ensures
        r is Some <==> read_v4_tail(s@, pos as int, first) is Some,
        r matches Some((v, q)) ==> (read_v4_tail(s@, pos as int, first) matches Some((a, b)) && v as nat == a && q as int == b) && q <= s@.len(),
{
    match after_sep_exec(s, pos, ':', first) {
        Some(p) => read_ipv4_exec(s, p),
        None => None,
    }
}

/// Executable `read_groups`: the groups as 16-bit values.
fn read_groups_exec(s: &[char], pos: usize, limit: usize) -> (r: (Vec<u32>, bool, usize))
    requires
        pos <= s@.len(),
        limit <= 8,
    ensures
        r.0@.len() == read_groups(s@, pos as int, limit as nat).0.len(),
        forall|k: int|
            0 <= k < r.0@.len() ==> #[trigger] r.0@[k] as nat == read_groups(
                s@,
                pos as int,
                limit as nat,
            ).0[k] && r.0@[k] <= 65535,
        r.1 == read_groups(s@, pos as int, limit as nat).1,
        r.2 as int == read_groups(s@, pos as int, limit as nat).2,
        r.2 <= s@.len(),
        r.0@.len() <= limit,
{
    let mut groups: Vec<u32> = Vec::new();
    let mut p = pos;
    let mut i: usize = 0;
    let ghost mut acc: Seq<nat> = seq![];
    while i < limit
        invariant
            i <= limit <= 8,
            pos <= p <= s@.len(),
            groups@.len() == i,
            acc.len() == i,
            forall|k: int| 0 <= k < i ==> #[trigger] groups@[k] as nat == acc[k] && groups@[k]
                <= 65535,
            read_groups(s@, pos as int, limit as nat) == read_groups_from(
                s@,
                p as int,
                limit as nat,
                i as nat,
                acc,
            ),
        decreases limit - i,
    {
        if i + 1 < limit {
            match read_v4_tail_exec(s, p, i == 0) {
                Some((v, q)) => {
                    let hi = v / 65536;
                    let lo = v % 65536;
                    groups.push(hi);
                    groups.push(lo);
                    proof {
                        acc = acc.push((v / 65536) as nat).push((v % 65536) as nat);
                        assert(groups@[i as int] as nat == acc[i as int]);
                        assert(groups@[i + 1] as nat == acc[i + 1]);
                    }
                    return (groups, true, q);
                },
                None => {},
            }
        }
        match read_hex_group_exec(s, p, i == 0) {
            Some((g, q)) => {
                groups.push(g);
                proof {
                    acc = acc.push(g as nat);
                }
                p = q;
                i += 1;
            },
            None => {
                return (groups, false, p);
            },
        }
    }
    (groups, false, p)
}

proof fn lemma_groups_value_bound(g: Seq<nat>)
    requires
        forall|k: int| 0 <= k < g.len() ==> #[trigger] g[k] <= 65535,
    ensures
        groups_value(g) < pow65536(g.len()),
    decreases g.len(),
{
    if g.len() > 0 {
        lemma_groups_value_bound(g.drop_last());
        let v = groups_value(g.drop_last());
        let p = pow65536((g.len() - 1) as nat);
        let l = g.last();
        assert(l == g[g.len() - 1]);
        assert(v * 65536 + l < p * 65536) by (nonlinear_arith)
            requires
                v < p,
                l <= 65535,
        ;
    }
}

pub open spec fn pow65536(n: nat) -> nat
    decreases n,
{
    if n == 0 {
        1
    } else {
        pow65536((n - 1) as nat) * 65536
    }
}

fn groups_value_exec(g: &Vec<u32>) -> (r: u128)
    requires
        g@.len() == 8,
        forall|k: int| 0 <= k < g@.len() ==> #[trigger] g@[k] <= 65535,
    ensures
        r as nat == groups_value(g@.map_values(|x: u32| x as nat)),
{
    let ghost gv = g@.map_values(|x: u32| x as nat);
    let mut acc: u128 = 0;
    let mut i: usize = 0;
    assert(pow65536(8) == 0x1_0000_0000_0000_0000_0000_0000_0000_0000) by {
        assert(pow65536(1) == 0x1_0000);
        assert(pow65536(2) == 0x1_0000_0000);
        assert(pow65536(3) == 0x1_0000_0000_0000);
        assert(pow65536(4) == 0x1_0000_0000_0000_0000);
        assert(pow65536(5) == 0x1_0000_0000_0000_0000_0000);
        assert(pow65536(6) == 0x1_0000_0000_0000_0000_0000_0000);
        assert(pow65536(7) == 0x1_0000_0000_0000_0000_0000_0000_0000);
    }
    while i < 8
        invariant
            i <= 8,
            g@.len() == 8,
            gv == g@.map_values(|x: u32| x as nat),
            forall|k: int| 0 <= k < g@.len() ==> #[trigger] g@[k] <= 65535,
            acc as nat == groups_value(gv.take(i as int)),
            (acc as nat) < pow65536(i as nat),
            pow65536(8) == 0x1_0000_0000_0000_0000_0000_0000_0000_0000,
        decreases 8 - i,
    {
        proof {
            assert(gv.take(i + 1).drop_last() == gv.take(i as int));
            assert(gv.take(i + 1).last() == g@[i as int] as nat);
            assert(pow65536((i + 1) as nat) == pow65536(i as nat) * 65536);
            lemma_pow65536_mono((i + 1) as nat, 8);
            let gi = g@[i as int];
            assert(acc * 65536 + gi < pow65536(i as nat) * 65536) by (nonlinear_arith)
                requires
                    acc < pow65536(i as nat),
                    gi <= 65535,
            ;
        }
        acc = acc * 65536 + g[i] as u128;
        i += 1;
    }
    assert(gv.take(8) == gv);
    acc
}

proof fn lemma_pow65536_mono(a: nat, b: nat)
    requires
        a <= b,
    ensures
        pow65536(a) <= pow65536(b),
    decreases b - a,
{
    if a < b {
        lemma_pow65536_mono(a, (b - 1) as nat);
        assert(pow65536(b) == pow65536((b - 1) as nat) * 65536);
        lemma_pow65536_pos((b - 1) as nat);
    }
}

proof fn lemma_pow65536_pos(a: nat)
    ensures
        pow65536(a) >= 1,
    decreases a,
{
    if a > 0 {
        lemma_pow65536_pos((a - 1) as nat);
    }
}

/// Executable `read_ipv6`.
fn read_ipv6_exec(s: &[char], pos: usize) -> (r: Option<(u128, usize)>)
    requires
        pos <= s@.len(),
    ensures
        r is Some <==> read_ipv6(s@, pos as int) is Some,
        r matches Some((v, q)) ==> (read_ipv6(s@, pos as int) matches Some((a, b)) && v as nat == a && q as int == b),
{
    let (head, head_v4, p) = read_groups_exec(s, pos, 8);
    let ghost hs = read_groups(s@, pos as int, 8).0;
    assert(head@.map_values(|x: u32| x as nat) == hs);
    if head.len() == 8 {
        proof {
            lemma_groups_value_bound(hs);
        }
        return Some((groups_value_exec(&head), p));
    }
    if head_v4 {
        return None;
    }
    if !(p < s.len() && p + 1 < s.len() && s[p] == ':' && s[p + 1] == ':') {
        return None;
    }
    let limit = 7 - head.len();
    let (tail, _v4, q) = read_groups_exec(s, p + 2, limit);
    let ghost ts = read_groups(s@, p + 2, limit as nat).0;
    assert(tail@.map_values(|x: u32| x as nat) == ts);
    let mut all: Vec<u32> = Vec::new();
    let mut k: usize = 0;
    while k < head.len()
        invariant
            k <= head@.len(),
            all@ == head@.take(k as int),
        decreases head@.len() - k,
    {
        all.push(head[k]);
        k += 1;
        assert(all@ == head@.take(k as int));
    }
    assert(head@.take(head@.len() as int) == head@);
    let zeros = 8 - head.len() - tail.len();
    let mut z: usize = 0;
    while z < zeros
        invariant
            z <= zeros,
            all@ == head@ + Seq::new(z as nat, |i: int| 0u32),
        decreases zeros - z,
    {
        all.push(0);
        z += 1;
        assert(all@ == head@ + Seq::new(z as nat, |i: int| 0u32));
    }
    let ghost mid = all@;
    let mut t: usize = 0;
    while t < tail.len()
        invariant
            t <= tail@.len(),
            all@ == mid + tail@.take(t as int),
        decreases tail@.len() - t,
    {
        all.push(tail[t]);
        t += 1;
        assert(all@ == mid + tail@.take(t as int));
    }
    assert(tail@.take(tail@.len() as int) == tail@);
    let ghost gv = hs + Seq::new((8 - hs.len() - ts.len()) as nat, |i: int| 0nat) + ts;
    assert(all@.map_values(|x: u32| x as nat) =~= gv);
    proof {
        assert forall|k: int| 0 <= k < all@.len() implies #[trigger] all@[k] <= 65535 by {
            if k < head@.len() {
            } else if k < head@.len() + zeros {
            } else {
                assert(all@[k] == tail@[k - head@.len() - zeros]);
            }
        }
        assert forall|k: int| 0 <= k < gv.len() implies #[trigger] gv[k] <= 65535 by {
            assert(gv[k] == all@.map_values(|x: u32| x as nat)[k]);
        }
        lemma_groups_value_bound(gv);
    }
    Some((groups_value_exec(&all), q))
}

/// Parses an IP address the way `IpAddr::from_str` does.
pub fn parse_ip(text: &str) -> (r: Option<IpAddress>)
    ensures
        r == ip_parse(text@),
{
    let cs = crate::text::chars_of(text);
    parse_ip_chars(&cs)
}

/// Parses an IP address from its characters.
pub fn parse_ip_chars(cs: &[char]) -> (r: Option<IpAddress>)
    ensures
        r == ip_parse(cs@),
{
    match read_ipv4_exec(cs, 0) {
        Some((v, p)) => {
            if p == cs.len() {
                Some(IpAddress::V4(v))
            } else {
                None
            }
        },
        None => match read_ipv6_exec(cs, 0) {
            Some((v, p)) => {
                if p == cs.len() {
                    Some(IpAddress::V6(v))
                } else {
                    None
                }
            },
            None => None,
        },
    }
}

/// Lowercase hex rendering without leading zeros, as `{:x}` prints.
pub open spec fn hex_text(n: nat) -> Seq<char>
    decreases n,
{
    if n < 16 {
        seq![hex_char(n)]
    } else {
        hex_text(n / 16).push(hex_char(n % 16))
    }
}

pub open spec fn hex_char(d: nat) -> char {
    if d < 10 {
        ((0x30 + d) as u32) as char
    } else {
        ((0x61 + d - 10) as u32) as char
    }
}

/// Dotted-decimal rendering of an IPv4 number.
pub open spec fn ipv4_text(v: nat) -> Seq<char> {
    crate::text::decimal((v / 0x100_0000) % 256) + "."@ + crate::text::decimal((v / 0x1_0000) % 256)
        + "."@ + crate::text::decimal((v / 0x100) % 256) + "."@ + crate::text::decimal(v % 256)
}

/// The eight 16-bit groups of an IPv6 number, most significant first.
pub open spec fn segments(v: nat) -> Seq<nat> {
    Seq::new(8, |i: int| (v / pow65536((7 - i) as nat)) % 65536)
}

/// Groups joined by `:`, each in `{:x}`.
pub open spec fn join_groups(g: Seq<nat>) -> Seq<char>
    decreases g.len(),
{
    if g.len() == 0 {
        seq![]
    } else if g.len() == 1 {
        hex_text(g[0])
    } else {
        join_groups(g.drop_last()) + ":"@ + hex_text(g.last())
    }
}

/// The first longest run of zero groups, scanning from `i` with the current
/// run `(cs, cl)` and the best so far `(bs, bl)`.
pub open spec fn zero_run(g: Seq<nat>, i: int, cs: int, cl: int, bs: int, bl: int) -> (int, int)
    decreases g.len() - i,
{
    if i < 0 || i >= g.len() {
        (bs, bl)
    } else if g[i] == 0 {
        let ncs = if cl == 0 {
            i
        } else {
            cs
        };
        let ncl = cl + 1;
        if ncl > bl {
            zero_run(g, i + 1, ncs, ncl, ncs, ncl)
        } else {
            zero_run(g, i + 1, ncs, ncl, bs, bl)
        }
    } else {
        zero_run(g, i + 1, 0, 0, bs, bl)
    }
}

/// Colon-hex rendering of an IPv6 number: an IPv4-mapped address as
/// `::ffff:a.b.c.d`, otherwise with the first longest run of two or more zero
/// groups written as `::`.
pub open spec fn ipv6_text(v: nat) -> Seq<char> {
    let g = segments(v);
    if g[0] == 0 && g[1] == 0 && g[2] == 0 && g[3] == 0 && g[4] == 0 && g[5] == 0xffff {
        "::ffff:"@ + ipv4_text(v % 0x1_0000_0000)
    } else {
        let (start, len) = zero_run(g, 0, 0, 0, 0, 0);
        if len > 1 {
            join_groups(g.subrange(0, start)) + "::"@ + join_groups(g.subrange(start + len, 8))
        } else {
            join_groups(g)
        }
    }
}

/// How `Display` renders an address.
pub open spec fn ip_text(ip: IpAddress) -> Seq<char> {
    match ip {
        IpAddress::V4(a) => ipv4_text(a as nat),
        IpAddress::V6(a) => ipv6_text(a as nat),
    }
}

fn hex_char_exec(d: u32) -> (c: char)
    requires
        d < 16,
    ensures
        c == hex_char(d as nat),
{
    let c = match d {
        0 => '0',
        1 => '1',
        2 => '2',
        3 => '3',
        4 => '4',
        5 => '5',
        6 => '6',
        7 => '7',
        8 => '8',
        9 => '9',
        10 => 'a',
        11 => 'b',
        12 => 'c',
        13 => 'd',
        14 => 'e',
        _ => 'f',
    };
    c
}

fn push_hex(out: &mut Vec<char>, n: u32)
    ensures
        final(out)@ == old(out)@ + hex_text(n as nat),
    decreases n,
{
    if n >= 16 {
        push_hex(out, n / 16);
    }
    out.push(hex_char_exec(n % 16));
}

fn push_ipv4(out: &mut Vec<char>, v: u32)
    ensures
        final(out)@ == old(out)@ + ipv4_text(v as nat),
{
    let ghost start = out@;
    crate::text::push_decimal(out, ((v / 0x100_0000) % 256) as u64);
    out.push('.');
    crate::text::push_decimal(out, ((v / 0x1_0000) % 256) as u64);
    out.push('.');
    crate::text::push_decimal(out, ((v / 0x100) % 256) as u64);
    out.push('.');
    crate::text::push_decimal(out, (v % 256) as u64);
    proof {
        reveal_strlit(".");
        assert(out@ =~= start + ipv4_text(v as nat));
    }
}

fn push_groups(out: &mut Vec<char>, g: &[u32], from: usize, to: usize)
    requires
        from <= to <= g@.len(),
    ensures
        final(out)@ == old(out)@ + join_groups(g@.subrange(from as int, to as int).map_values(
            |x: u32| x as nat,
        )),
{
    let ghost start = out@;
    let mut i = from;
    while i < to
        invariant
            from <= i <= to <= g@.len(),
            out@ == start + join_groups(g@.subrange(from as int, i as int).map_values(
                |x: u32| x as nat,
            )),
        decreases to - i,
    {
        let ghost before = out@;
        if i > from {
            out.push(':');
        }
        push_hex(out, g[i]);
        proof {
            reveal_strlit(":");
            let prev = g@.subrange(from as int, i as int).map_values(|x: u32| x as nat);
            let next = g@.subrange(from as int, i + 1).map_values(|x: u32| x as nat);
            assert(next.drop_last() =~= prev);
            assert(next.last() == g@[i as int] as nat);
            if i > from {
                assert(out@ =~= start + join_groups(next));
            } else {
                assert(prev.len() == 0);
                assert(out@ =~= start + join_groups(next));
            }
        }
        i += 1;
    }
}

/// Renders an address as `Display` does.
pub fn ip_to_string(ip: IpAddress) -> (s: String)
    ensures
        s@ == ip_text(ip),
{
    let mut out: Vec<char> = Vec::new();
    match ip {
        IpAddress::V4(a) => push_ipv4(&mut out, a),
        IpAddress::V6(a) => push_ipv6(&mut out, a),
    }
    crate::text::string_of(&out)
}

fn push_ipv6(out: &mut Vec<char>, v: u128)
    ensures
        final(out)@ == old(out)@ + ipv6_text(v as nat),
{
    let ghost start = out@;
    let mut g: Vec<u32> = Vec::new();
    let mut k: usize = 0;
    assert(pow65536(8) == 0x1_0000_0000_0000_0000_0000_0000_0000_0000) by {
        assert(pow65536(0) == 1);
        assert(pow65536(1) == 0x1_0000);
        assert(pow65536(2) == 0x1_0000_0000);
        assert(pow65536(3) == 0x1_0000_0000_0000);
        assert(pow65536(4) == 0x1_0000_0000_0000_0000);
        assert(pow65536(5) == 0x1_0000_0000_0000_0000_0000);
        assert(pow65536(6) == 0x1_0000_0000_0000_0000_0000_0000);
        assert(pow65536(7) == 0x1_0000_0000_0000_0000_0000_0000_0000);
    }
    let ghost segs = segments(v as nat);
    while k < 8
        invariant
            k <= 8,
            g@.len() == k,
            segs == segments(v as nat),
            forall|j: int| 0 <= j < k ==> #[trigger] g@[j] as nat == segs[j] && g@[j] < 65536,
        decreases 8 - k,
    {
        let shift = (7 - k) * 16;
        let part = ((v >> shift) & 0xffff) as u32;
        proof {
            assert(part as nat == segs[k as int]) by {
                lemma_segment(v, k as nat);
            }
        }
        g.push(part);
        k += 1;
    }
    let ghost gv = g@.map_values(|x: u32| x as nat);
    assert(gv =~= segs);
    if g[0] == 0 && g[1] == 0 && g[2] == 0 && g[3] == 0 && g[4] == 0 && g[5] == 0xffff {
        crate::text::push_str(out, "::ffff:");
        let low = (v % 0x1_0000_0000) as u32;
        push_ipv4(out, low);
        return;
    }
    let mut cs: usize = 0;
    let mut cl: usize = 0;
    let mut bs: usize = 0;
    let mut bl: usize = 0;
    let mut i: usize = 0;
    while i < 8
        invariant
            i <= 8,
            g@.len() == 8,
            gv == g@.map_values(|x: u32| x as nat),
            cs <= i,
            cl <= i,
            bs + bl <= i,
            cl > 0 ==> cs + cl == i,
            zero_run(gv, 0, 0, 0, 0, 0) == zero_run(gv, i as int, cs as int, cl as int, bs as int, bl as int),
        decreases 8 - i,
    {
        if g[i] == 0 {
            let ncs = if cl == 0 {
                i
            } else {
                cs
            };
            let ncl = cl + 1;
            if ncl > bl {
                bs = ncs;
                bl = ncl;
            }
            cs = ncs;
            cl = ncl;
        } else {
            cs = 0;
            cl = 0;
        }
        i += 1;
    }
    if bl > 1 {
        push_groups(out, &g, 0, bs);
        crate::text::push_str(out, "::");
        push_groups(out, &g, bs + bl, 8);
        proof {
            assert(g@.subrange(0, bs as int).map_values(|x: u32| x as nat) =~= gv.subrange(
                0,
                bs as int,
            ));
            assert(g@.subrange(bs + bl, 8).map_values(|x: u32| x as nat) =~= gv.subrange(
                bs + bl,
                8,
            ));
        }
    } else {
        push_groups(out, &g, 0, 8);
        proof {
            assert(g@.subrange(0, 8) == g@);
        }
    }
}

proof fn lemma_segment(v: u128, k: nat)
    requires
        k < 8,
    ensures
        (((v >> ((7 - k) * 16) as u128) & 0xffff) as nat) == segments(v as nat)[k as int],
{
    lemma_segment_bits(v, k);
}

proof fn lemma_segment_bits(v: u128, k: nat)
    requires
        k < 8,
    ensures
        (((v >> ((7 - k) * 16) as u128) & 0xffff) as nat) == (v as nat / pow65536((7 - k) as nat))
            % 65536,
{
    let sh = ((7 - k) * 16) as u128;
    assert((v >> sh) & 0xffff == (v >> sh) % 0x1_0000) by (bit_vector);
    lemma_shift_is_div(v, (7 - k) as nat);
}

proof fn lemma_shift_is_div(v: u128, m: nat)
    requires
        m < 8,
    ensures
        (v >> (m * 16) as u128) as nat == v as nat / pow65536(m),
    decreases m,
{
    if m == 0 {
        assert(v >> 0u128 == v) by (bit_vector);
        assert(pow65536(0) == 1);
        assert(v as nat / 1 == v as nat);
    } else {
        lemma_shift_is_div(v, (m - 1) as nat);
        let a = ((m - 1) * 16) as u128;
        let b = (m * 16) as u128;
        assert(b == a + 16);
        assert(v >> b == (v >> a) >> 16u128) by (bit_vector)
            requires
                b == a + 16,
                a < 112,
        ;
        let w = v >> a;
        assert(w >> 16u128 == w / 0x1_0000) by (bit_vector);
        let p = pow65536((m - 1) as nat);
        assert(pow65536(m) == p * 65536);
        lemma_pow65536_pos((m - 1) as nat);
        assert((v as nat / p) / 65536 == v as nat / (p * 65536)) by (nonlinear_arith)
            requires
                p > 0,
        ;
        assert((w / 0x1_0000) as nat == (w as nat) / 65536);
        assert(w as nat == v as nat / p);
        assert((v >> b) as nat == (w >> 16u128) as nat);
    }
}

} // verus!
