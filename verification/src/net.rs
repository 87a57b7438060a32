//! Network addresses: how servers and candidates write them, and which ones of this
//! machine can be offered to a peer.

use vstd::prelude::*;
use vstd::slice::slice_subrange;

use crate::text;

verus! {

/// The port of STUN and TURN servers, with a colon, for addresses that name none.
pub const DEFAULT_PORT_SUFFIX: &'static str = ":3478";

/// The address of the machine itself.
pub const LOCALHOST: u32 = 0x7F00_0001;

/// An IP address, as the number that its bytes spell, most significant first.
#[derive(Debug, Clone, Copy, PartialEq, Eq, Structural)]
pub enum IpAddr {
    V4(u32),
    V6(u128),
}

/// An IP address with a port.
#[derive(Debug, Clone, Copy, PartialEq, Eq, Structural)]
pub struct SocketAddr {
    pub ip: IpAddr,
    pub port: u16,
}

/// A text without a prefix, where it has it.
pub open spec fn without_prefix(s: Seq<char>, prefix: Seq<char>) -> Seq<char> {
    if prefix.is_prefix_of(s) { s.skip(prefix.len() as int) } else { s }
}

/// Host and port of a server's URL: without its scheme, and with the default port where it
/// names none.
pub open spec fn host_and_port(url: Seq<char>, scheme: Seq<char>) -> Seq<char> {
    let rest = without_prefix(url, scheme);
    if rest.contains(':') { rest } else { rest + ":3478"@ }
}

/// Host and port of a server, out of `scheme` (such as "stun:"), host and port, of which
/// the scheme and the port may be missing.
pub fn host_port(url: &str, scheme: &str) -> (r: String)
    ensures
        r@ == host_and_port(url@, scheme@),
{
    let all = text::chars_of(url);
    let skipped: usize = if text::starts_with(all.as_slice(), scheme) {
        scheme.unicode_len()
    } else {
        0
    };
    let rest = url.substring_char(skipped, all.len());
    assert(rest@ =~= without_prefix(url@, scheme@));
    let mut out: String = rest.to_owned();
    let mut i: usize = skipped;
    while i < all.len()
        invariant
            skipped <= i <= all@.len(),
            all@ == url@,
            rest@ == url@.subrange(skipped as int, all@.len() as int),
            forall|j: int| 0 <= j < i - skipped ==> rest@[j] != ':',
            rest@ == without_prefix(url@, scheme@),
            out@ == rest@,
        decreases all.len() - i,
    {
        if all[i] == ':' {
            assert(rest@[i - skipped] == ':');
            return out;
        }
        i += 1;
    }
    out.append(DEFAULT_PORT_SUFFIX);
    out
}

/// The first IPv4 address of a list.
pub open spec fn first_v4(addrs: Seq<SocketAddr>) -> Option<SocketAddr>
    decreases addrs.len(),
{
    if addrs.len() == 0 {
        None
    } else if addrs[0].ip is V4 {
        Some(addrs[0])
    } else {
        first_v4(addrs.drop_first())
    }
}

/// The first IPv4 address of those that a server's name stands for: the socket cannot
/// reach any other.
pub fn first_ipv4(addrs: &Vec<SocketAddr>) -> (r: Option<SocketAddr>)
    ensures
        r == first_v4(addrs@),
{
    let mut i: usize = 0;
    assert(addrs@.skip(0) =~= addrs@);
    while i < addrs.len()
        invariant
            i <= addrs@.len(),
            first_v4(addrs@) == first_v4(addrs@.skip(i as int)),
        decreases addrs.len() - i,
    {
        let a = addrs[i];
        if let IpAddr::V4(_) = a.ip {
            return Some(a);
        }
        assert(addrs@.skip(i as int).drop_first() =~= addrs@.skip(i + 1));
        i += 1;
    }
    None
}

/// An IPv4 address in dotted decimal notation.
pub open spec fn ipv4_text(ip: u32) -> Seq<char> {
    text::decimal((ip / 0x100_0000) as nat) + seq!['.'] + text::decimal(
        (ip / 0x1_0000 % 0x100) as nat,
    ) + seq!['.'] + text::decimal((ip / 0x100 % 0x100) as nat) + seq!['.'] + text::decimal(
        (ip % 0x100) as nat,
    )
}

/// The IPv4 address that a text is the notation of.
pub open spec fn ipv4_of(s: Seq<char>) -> Option<u32> {
    if exists|ip: u32| s == ipv4_text(ip) {
        Some(choose|ip: u32| s == ipv4_text(ip))
    } else {
        None
    }
}

spec fn digit_at(s: Seq<char>, i: int) -> bool {
    0 <= i < s.len() && '0' <= s[i] <= '9'
}

spec fn digit_value(s: Seq<char>, i: int) -> int {
    s[i] as int - 0x30
}

/// The number from 0 to 255 that starts at a place, and the place behind it.
#[verifier::opaque]
spec fn octet_at(s: Seq<char>, at: int) -> Option<(int, int)> {
    if !digit_at(s, at) {
        None
    } else if !digit_at(s, at + 1) {
        Some((digit_value(s, at), at + 1))
    } else if s[at] == '0' {
        None
    } else if !digit_at(s, at + 2) {
        Some((10 * digit_value(s, at) + digit_value(s, at + 1), at + 2))
    } else if digit_at(s, at + 3) {
        None
    } else {
        let v = 100 * digit_value(s, at) + 10 * digit_value(s, at + 1) + digit_value(s, at + 2);
        if v <= 255 { Some((v, at + 3)) } else { None }
    }
}

proof fn lemma_octet_text(v: int)
    requires
        0 <= v <= 255,
    ensures
        v < 10 ==> text::decimal(v as nat) == seq![text::digit_char(v as nat)],
        10 <= v < 100 ==> text::decimal(v as nat) == seq![
            text::digit_char((v / 10) as nat),
            text::digit_char((v % 10) as nat),
        ],
        v >= 100 ==> text::decimal(v as nat) == seq![
            text::digit_char((v / 100) as nat),
            text::digit_char((v / 10 % 10) as nat),
            text::digit_char((v % 10) as nat),
        ],
{
    reveal_with_fuel(text::decimal, 4);
    if v < 10 {
    } else if v < 100 {
        assert(text::decimal(v as nat) =~= seq![
            text::digit_char((v / 10) as nat),
            text::digit_char((v % 10) as nat),
        ]);
    } else {
        assert(text::decimal(v as nat) =~= seq![
            text::digit_char((v / 100) as nat),
            text::digit_char((v / 10 % 10) as nat),
            text::digit_char((v % 10) as nat),
        ]);
    }
}

proof fn lemma_octet_sound(s: Seq<char>, at: int)
    ensures
        octet_at(s, at) matches Some((v, end)) ==> {
            &&& 0 <= v <= 255
            &&& 0 <= at < end <= s.len()
            &&& s.subrange(at, end) == text::decimal(v as nat)
        },
{
    reveal(octet_at);
    if let Some((v, end)) = octet_at(s, at) {
        lemma_octet_text(v);
        assert(s.subrange(at, end) =~= text::decimal(v as nat));
    }
}

proof fn lemma_octet_complete(s: Seq<char>, at: int, v: int)
    requires
        0 <= v <= 255,
        0 <= at,
        at + text::decimal(v as nat).len() <= s.len(),
        s.subrange(at, at + text::decimal(v as nat).len()) == text::decimal(v as nat),
        !digit_at(s, at + text::decimal(v as nat).len()),
    ensures
        octet_at(s, at) == Some((v, at + text::decimal(v as nat).len())),
{
    reveal(octet_at);
    lemma_octet_text(v);
    let d = text::decimal(v as nat);
    let part = s.subrange(at, at + d.len());
    assert(part[0] == s[at]);
    if v >= 10 {
        assert(part[1] == s[at + 1]);
    }
    if v >= 100 {
        assert(part[2] == s[at + 2]);
    }
}

/// The number at a place that has a dot behind it, and the place behind the dot.
spec fn dotted_at(s: Seq<char>, at: int) -> Option<(int, int)> {
    match octet_at(s, at) {
        Some((v, end)) => if 0 <= end < s.len() && s[end] == '.' {
            Some((v, end + 1))
        } else {
            None
        },
        None => None,
    }
}

/// The four numbers of a text that is an IPv4 address.
spec fn octets(s: Seq<char>) -> Option<(int, int, int, int)> {
    match dotted_at(s, 0) {
        Some((a, p)) => match dotted_at(s, p) {
            Some((b, q)) => match dotted_at(s, q) {
                Some((c, t)) => match octet_at(s, t) {
                    Some((d, end)) => if end == s.len() { Some((a, b, c, d)) } else { None },
                    None => None,
                },
                None => None,
            },
            None => None,
        },
        None => None,
    }
}

fn read_octet(s: &[char], at: usize) -> (r: Option<(u32, usize)>)
    requires
        at <= s@.len(),
    ensures
        match r {
            Some((v, end)) => octet_at(s@, at as int) == Some((v as int, end as int)),
            None => octet_at(s@, at as int) is None,
        },
{
    reveal(octet_at);
    let left: usize = s.len() - at;
    if left == 0 || s[at] < '0' || s[at] > '9' {
        return None;
    }
    let a: u32 = s[at] as u32 - 0x30;
    if left == 1 || s[at + 1] < '0' || s[at + 1] > '9' {
        return Some((a, at + 1));
    }
    if s[at] == '0' {
        return None;
    }
    let b: u32 = s[at + 1] as u32 - 0x30;
    if left == 2 || s[at + 2] < '0' || s[at + 2] > '9' {
        return Some((10 * a + b, at + 2));
    }
    if left > 3 && '0' <= s[at + 3] && s[at + 3] <= '9' {
        return None;
    }
    let v: u32 = 100 * a + 10 * b + (s[at + 2] as u32 - 0x30);
    if v <= 255 {
        Some((v, at + 3))
    } else {
        None
    }
}

fn read_dotted(s: &[char], at: usize) -> (r: Option<(u32, usize)>)
    requires
        at <= s@.len(),
    ensures
        match r {
            Some((v, next)) => dotted_at(s@, at as int) == Some((v as int, next as int)) && v <= 255
                && next <= s@.len(),
            None => dotted_at(s@, at as int) is None,
        },
{
    proof {
        lemma_octet_sound(s@, at as int);
    }
    match read_octet(s, at) {
        Some((v, end)) => if end < s.len() && s[end] == '.' {
            Some((v, end + 1))
        } else {
            None
        },
        None => None,
    }
}

proof fn lemma_octets_sound(s: Seq<char>, ip: u32)
    requires
        octets(s) == Some(
            (
                (ip / 0x100_0000) as int,
                (ip / 0x1_0000 % 0x100) as int,
                (ip / 0x100 % 0x100) as int,
                (ip % 0x100) as int,
            ),
        ),
    ensures
        s == ipv4_text(ip),
{
    let p = (dotted_at(s, 0)->0).1;
    let q = (dotted_at(s, p)->0).1;
    let t = (dotted_at(s, q)->0).1;
    let end = (octet_at(s, t)->0).1;
    lemma_octet_sound(s, 0);
    lemma_octet_sound(s, p);
    lemma_octet_sound(s, q);
    lemma_octet_sound(s, t);
    assert(s =~= s.subrange(0, p - 1) + seq!['.'] + s.subrange(p, q - 1) + seq!['.'] + s.subrange(
        q,
        t - 1,
    ) + seq!['.'] + s.subrange(t, end));
}

proof fn lemma_octets_complete(s: Seq<char>, ip: u32)
    requires
        s == ipv4_text(ip),
    ensures
        octets(s) == Some(
            (
                (ip / 0x100_0000) as int,
                (ip / 0x1_0000 % 0x100) as int,
                (ip / 0x100 % 0x100) as int,
                (ip % 0x100) as int,
            ),
        ),
{
    let (a, b, c, d) = (
        (ip / 0x100_0000) as int,
        (ip / 0x1_0000 % 0x100) as int,
        (ip / 0x100 % 0x100) as int,
        (ip % 0x100) as int,
    );
    let (ta, tb, tc, td) = (
        text::decimal(a as nat),
        text::decimal(b as nat),
        text::decimal(c as nat),
        text::decimal(d as nat),
    );
    let p = ta.len() as int;
    let q = p + 1 + tb.len();
    let r = q + 1 + tc.len();
    assert(s.subrange(0, p) =~= ta);
    assert(s[p] == '.');
    assert(s.subrange(p + 1, q) =~= tb);
    assert(s[q] == '.');
    assert(s.subrange(q + 1, r) =~= tc);
    assert(s[r] == '.');
    assert(s.subrange(r + 1, s.len() as int) =~= td);
    lemma_octet_complete(s, 0, a);
    lemma_octet_complete(s, p + 1, b);
    lemma_octet_complete(s, q + 1, c);
    lemma_octet_complete(s, r + 1, d);
}

proof fn lemma_split(n: int, q: int, m: int, r: int)
    requires
        n == q * m + r,
        0 <= r < m,
    ensures
        n / m == q,
        n % m == r,
{
    vstd::arithmetic::div_mod::lemma_fundamental_div_mod_converse(n, m, q, r);
}

fn join_octets(a: u32, b: u32, c: u32, d: u32) -> (ip: u32)
    requires
        a <= 255,
        b <= 255,
        c <= 255,
        d <= 255,
    ensures
        ip / 0x100_0000 == a,
        ip / 0x1_0000 % 0x100 == b,
        ip / 0x100 % 0x100 == c,
        ip % 0x100 == d,
{
    let ip: u32 = 0x100_0000 * a + 0x1_0000 * b + 0x100 * c + d;
    proof {
        let (x, y) = (0x1_0000 * a + 0x100 * b + c, 0x100 * a + b);
        lemma_split(ip as int, x, 0x100, d as int);
        lemma_split(x, y, 0x100, c as int);
        lemma_split(ip as int, y, 0x1_0000, 0x100 * c + d);
        lemma_split(y, a as int, 0x100, b as int);
        lemma_split(ip as int, a as int, 0x100_0000, 0x1_0000 * b + 0x100 * c + d);
    }
    ip
}

fn read_octets(s: &[char]) -> (r: Option<u32>)
    ensures
        match r {
            Some(ip) => octets(s@) == Some(
                (
                    (ip / 0x100_0000) as int,
                    (ip / 0x1_0000 % 0x100) as int,
                    (ip / 0x100 % 0x100) as int,
                    (ip % 0x100) as int,
                ),
            ),
            None => octets(s@) is None,
        },
{
    let (a, p): (u32, usize) = match read_dotted(s, 0) {
        Some(x) => x,
        None => {
            return None;
        },
    };
    let (b, q): (u32, usize) = match read_dotted(s, p) {
        Some(x) => x,
        None => {
            return None;
        },
    };
    let (c, t): (u32, usize) = match read_dotted(s, q) {
        Some(x) => x,
        None => {
            return None;
        },
    };
    proof {
        lemma_octet_sound(s@, t as int);
    }
    match read_octet(s, t) {
        Some((d, end)) => if end == s.len() {
            Some(join_octets(a, b, c, d))
        } else {
            None
        },
        None => None,
    }
}

/// Reads an IPv4 address in dotted decimal notation; numbers have no leading zeros.
pub fn parse_ipv4(s: &[char]) -> (r: Option<u32>)
    ensures
        match r {
            Some(ip) => s@ == ipv4_text(ip),
            None => forall|ip: u32| s@ != ipv4_text(ip),
        },
        r == ipv4_of(s@),
{
    let r = read_octets(s);
    proof {
        assert forall|ip: u32| s@ == ipv4_text(ip) implies r is Some by {
            lemma_octets_complete(s@, ip);
        }
        if let Some(ip) = r {
            lemma_octets_sound(s@, ip);
            law_ipv4_text_injective(ip, ipv4_of(s@)->0);
        }
    }
    r
}

/// Two addresses that are written the same are the same.
#[verifier::rlimit(40)]
pub proof fn law_ipv4_text_injective(a: u32, b: u32)
    requires
        ipv4_text(a) == ipv4_text(b),
    ensures
        a == b,
{
    lemma_octets_complete(ipv4_text(a), a);
    lemma_octets_complete(ipv4_text(a), b);
}

/// An address that a peer may reach: not the machine itself, not the unspecified one, and
/// not one of a single link.
pub open spec fn usable(ip: IpAddr) -> bool {
    match ip {
        IpAddr::V4(a) => a / 0x100_0000 != 127 && a != 0 && a / 0x1_0000 != 0xA9FE,
        IpAddr::V6(a) => a > 1 && a / 0x40_0000_0000_0000_0000_0000_0000_0000 != 0x3FA,
    }
}

/// Tests whether a peer may reach an address.
pub fn is_usable(ip: IpAddr) -> (r: bool)
    ensures
        r == usable(ip),
{
    match ip {
        IpAddr::V4(a) => a / 0x100_0000 != 127 && a != 0 && a / 0x1_0000 != 0xA9FE,
        IpAddr::V6(a) => a > 1 && a / 0x40_0000_0000_0000_0000_0000_0000_0000 != 0x3FA,
    }
}

/// What was read of a routing trie so far: the address of the leaf that is described, and
/// the addresses found.
pub struct TrieState {
    pub leaf: Option<u32>,
    pub ips: Seq<IpAddr>,
}

/// The addresses after another one was found.
pub open spec fn with_ip(ips: Seq<IpAddr>, ip: IpAddr) -> Seq<IpAddr> {
    if usable(ip) && !ips.contains(ip) { ips.push(ip) } else { ips }
}

/// What is known after another line of the trie. A line that starts with "|-- " names a
/// leaf; one that starts with "/32 host LOCAL" says that the leaf is an address of this
/// machine.
pub open spec fn trie_line(state: TrieState, line: Seq<char>) -> TrieState {
    let t = text::trimmed(line);
    if "|-- "@.is_prefix_of(t) {
        TrieState { leaf: ipv4_of(t.skip(4)), ips: state.ips }
    } else if "/32 host LOCAL"@.is_prefix_of(t) {
        match state.leaf {
            Some(ip) => TrieState { leaf: None, ips: with_ip(state.ips, IpAddr::V4(ip)) },
            None => state,
        }
    } else {
        state
    }
}

/// What is known after a number of lines of the trie.
pub open spec fn trie_lines(state: TrieState, lines: Seq<Seq<char>>) -> TrieState
    decreases lines.len(),
{
    if lines.len() == 0 {
        state
    } else {
        trie_line(trie_lines(state, lines.drop_last()), lines.last())
    }
}

/// The addresses of this machine: the one that it would reach the outside from, then those
/// that its routing trie lists.
pub open spec fn local_ips(outbound: Option<IpAddr>, trie: Option<Seq<char>>) -> Seq<IpAddr> {
    let first = match outbound {
        Some(ip) => if usable(ip) { seq![ip] } else { Seq::empty() },
        None => Seq::empty(),
    };
    match trie {
        Some(t) => trie_lines(TrieState { leaf: None, ips: first }, text::lines(t)).ips,
        None => first,
    }
}

fn contains_ip(ips: &Vec<IpAddr>, ip: IpAddr) -> (r: bool)
    ensures
        r == ips@.contains(ip),
{
    let mut i: usize = 0;
    while i < ips.len()
        invariant
            i <= ips@.len(),
            forall|j: int| 0 <= j < i ==> ips@[j] != ip,
        decreases ips.len() - i,
    {
        if ips[i] == ip {
            return true;
        }
        i += 1;
    }
    false
}

fn read_trie_line(line: &[char], leaf: Option<u32>, ips: &mut Vec<IpAddr>) -> (next: Option<u32>)
    ensures
        (TrieState { leaf: next, ips: final(ips)@ }) == trie_line(
            TrieState { leaf, ips: old(ips)@ },
            line@,
        ),
{
    proof {
        reveal_strlit("|-- ");
    }
    let t = text::trim(line);
    if text::starts_with(t, "|-- ") {
        let rest = slice_subrange(t, 4, t.len());
        assert(rest@ =~= t@.skip(4));
        parse_ipv4(rest)
    } else if text::starts_with(t, "/32 host LOCAL") {
        match leaf {
            Some(ip) => {
                let found = IpAddr::V4(ip);
                if is_usable(found) && !contains_ip(ips, found) {
                    ips.push(found);
                }
                None
            },
            None => None,
        }
    } else {
        leaf
    }
}

/// The addresses of this machine that can be offered to a peer, out of the address that
/// the system would reach the outside from, and the text of its routing trie.
pub fn get_local_ips(outbound: Option<IpAddr>, trie: Option<&str>) -> (ips: Vec<IpAddr>)
    ensures
        ips@ == local_ips(
            outbound,
            match trie {
                Some(t) => Some(t@),
                None => None,
            },
        ),
{
    let mut ips: Vec<IpAddr> = Vec::new();
    if let Some(ip) = outbound {
        if is_usable(ip) {
            ips.push(ip);
        }
    }
    let content = match trie {
        Some(t) => t,
        None => {
            return ips;
        },
    };
    let all = text::chars_of(content);
    let ghost first = TrieState { leaf: None, ips: ips@ };
    let ghost mut read: Seq<Seq<char>> = Seq::empty();
    let mut leaf: Option<u32> = None;
    let mut start: usize = 0;
    let mut i: usize = 0;
    assert(all@.take(0) =~= Seq::<char>::empty());
    assert(text::lines(all@.take(0)) =~= read.push(all@.subrange(0, 0)));
    while i < all.len()
        invariant
            start <= i <= all@.len(),
            text::lines(all@.take(i as int)) == read.push(all@.subrange(start as int, i as int)),
            (TrieState { leaf, ips: ips@ }) == trie_lines(first, read),
        decreases all.len() - i,
    {
        let ghost line = all@.subrange(start as int, i as int);
        let ghost before = all@.take(i as int);
        let ghost after = all@.take(i + 1);
        assert(after.drop_last() =~= before);
        assert(after.last() == all@[i as int]);
        if all[i] == '\n' {
            leaf = read_trie_line(slice_subrange(all.as_slice(), start, i), leaf, &mut ips);
            proof {
                assert(read.push(line).drop_last() =~= read);
                read = read.push(line);
            }
            start = i + 1;
            assert(all@.subrange(start as int, i + 1) =~= Seq::<char>::empty());
        } else {
            assert(read.push(line).drop_last() =~= read);
            assert(all@.subrange(start as int, i + 1) =~= line.push(all@[i as int]));
        }
        i += 1;
    }
    assert(all@.take(all@.len() as int) =~= all@);
    let ghost line = all@.subrange(start as int, i as int);
    leaf = read_trie_line(slice_subrange(all.as_slice(), start, all.len()), leaf, &mut ips);
    assert(read.push(line).drop_last() =~= read);
    ips
}

/// The address that stands for this machine: the first one, or its own where it has none.
pub open spec fn primary(ips: Seq<IpAddr>) -> IpAddr {
    if ips.len() == 0 { IpAddr::V4(LOCALHOST) } else { ips[0] }
}

/// The addresses on which a socket of this machine can be reached, the primary one first.
pub open spec fn reachable_at(ips: Seq<IpAddr>, port: u16) -> Seq<SocketAddr> {
    if ips.len() == 0 {
        seq![SocketAddr { ip: IpAddr::V4(LOCALHOST), port }]
    } else {
        ips.map_values(|ip: IpAddr| SocketAddr { ip, port })
    }
}

/// The addresses on which a socket of this machine can be reached: with all of its IP
/// addresses, or with its own where it has none. The first one is the primary one.
pub fn local_addrs(ips: &Vec<IpAddr>, port: u16) -> (r: Vec<SocketAddr>)
    ensures
        r@ == reachable_at(ips@, port),
        r@.len() > 0,
        r@[0] == (SocketAddr { ip: primary(ips@), port }),
{
    let mut r: Vec<SocketAddr> = Vec::new();
    if ips.len() == 0 {
        r.push(SocketAddr { ip: IpAddr::V4(LOCALHOST), port });
    }
    let mut i: usize = 0;
    while i < ips.len()
        invariant
            i <= ips@.len(),
            ips@.len() > 0 ==> r@ == reachable_at(ips@.take(i as int), port) || i == 0 && r@.len()
                == 0,
            ips@.len() > 0 ==> r@.len() == i,
            ips@.len() == 0 ==> r@ == reachable_at(ips@, port),
        decreases ips.len() - i,
    {
        r.push(SocketAddr { ip: ips[i], port });
        assert(r@ =~= reachable_at(ips@.take(i + 1), port));
        i += 1;
    }
    assert(ips@.take(ips@.len() as int) =~= ips@);
    r
}

/// All addresses are usable, and none occurs twice.
pub open spec fn offered(ips: Seq<IpAddr>) -> bool {
    ips.no_duplicates() && forall|i: int| 0 <= i < ips.len() ==> usable(#[trigger] ips[i])
}

proof fn lemma_trie_keeps_offered(state: TrieState, lines: Seq<Seq<char>>)
    requires
        offered(state.ips),
    ensures
        offered(trie_lines(state, lines).ips),
    decreases lines.len(),
{
    if lines.len() > 0 {
        lemma_trie_keeps_offered(state, lines.drop_last());
    }
}

/// What is offered to a peer are usable addresses, each once: none is a loopback address or
/// one of a single link, whatever the system says and whatever the trie lists.
pub proof fn law_local_ips_usable(outbound: Option<IpAddr>, trie: Option<Seq<char>>)
    ensures
        offered(local_ips(outbound, trie)),
{
    let first = match outbound {
        Some(ip) => if usable(ip) { seq![ip] } else { Seq::empty() },
        None => Seq::empty(),
    };
    assert(offered(first));
    if let Some(t) = trie {
        lemma_trie_keeps_offered(TrieState { leaf: None, ips: first }, text::lines(t));
    }
}

proof fn lemma_trie_keeps_found(state: TrieState, lines: Seq<Seq<char>>, n: int, ip: IpAddr)
    requires
        0 <= n <= lines.len(),
        trie_lines(state, lines.take(n)).ips.contains(ip),
    ensures
        trie_lines(state, lines).ips.contains(ip),
    decreases lines.len() - n,
{
    if n < lines.len() {
        let now = trie_lines(state, lines.take(n)).ips;
        assert(lines.take(n + 1).drop_last() =~= lines.take(n));
        let next = trie_lines(state, lines.take(n + 1)).ips;
        let k = choose|k: int| 0 <= k < now.len() && now[k] == ip;
        assert(next[k] == ip);
        lemma_trie_keeps_found(state, lines, n + 1, ip);
    } else {
        assert(lines.take(n) =~= lines);
    }
}

/// An address that the trie lists, and says in the line behind to be one of this machine,
/// is found, provided that it is usable.
pub proof fn law_listed_address_found(outbound: Option<IpAddr>, trie: Seq<char>, n: int, ip: u32)
    requires
        0 <= n < text::lines(trie).len() - 1,
        text::trimmed(text::lines(trie)[n]) == "|-- "@ + ipv4_text(ip),
        "/32 host LOCAL"@.is_prefix_of(text::trimmed(text::lines(trie)[n + 1])),
        usable(IpAddr::V4(ip)),
    ensures
        local_ips(outbound, Some(trie)).contains(IpAddr::V4(ip)),
{
    reveal_strlit("|-- ");
    reveal_strlit("/32 host LOCAL");
    let first = match outbound {
        Some(a) => if usable(a) { seq![a] } else { Seq::empty() },
        None => Seq::empty(),
    };
    let state = TrieState { leaf: None, ips: first };
    let lines = text::lines(trie);
    let leaf = text::trimmed(lines[n]);
    assert("|-- "@.is_prefix_of(leaf)) by {
        assert(leaf.take(4) =~= "|-- "@);
    }
    assert(leaf.skip(4) =~= ipv4_text(ip));
    assert(ipv4_of(leaf.skip(4)) == Some(ip)) by {
        law_ipv4_text_injective(ip, ipv4_of(leaf.skip(4))->0);
    }
    assert(lines.take(n + 1).drop_last() =~= lines.take(n));
    assert(lines.take(n + 2).drop_last() =~= lines.take(n + 1));
    let local = text::trimmed(lines[n + 1]);
    assert(!"|-- "@.is_prefix_of(local)) by {
        if "|-- "@.is_prefix_of(local) {
            assert(local.take(4)[0] == local.take(14)[0]);
        }
    }
    let before = trie_lines(state, lines.take(n + 1));
    let after = trie_lines(state, lines.take(n + 2));
    assert(before.leaf == Some(ip));
    assert(after.ips == with_ip(before.ips, IpAddr::V4(ip)));
    assert(after.ips.contains(IpAddr::V4(ip))) by {
        if !before.ips.contains(IpAddr::V4(ip)) {
            assert(after.ips.last() == IpAddr::V4(ip));
        }
    }
    lemma_trie_keeps_found(state, lines, n + 2, IpAddr::V4(ip));
}

/// A server's URL with its scheme stands for what is behind the scheme: as it is, where that
/// names a port, and else with the port 3478. Without the scheme it stands for the same.
pub proof fn law_port_added_where_missing(rest: Seq<char>, scheme: Seq<char>)
    ensures
        rest.contains(':') ==> host_and_port(scheme + rest, scheme) == rest,
        !rest.contains(':') ==> host_and_port(scheme + rest, scheme) == rest + seq![
            ':', '3', '4', '7', '8',
        ],
        !scheme.is_prefix_of(rest) ==> host_and_port(rest, scheme) == host_and_port(
            scheme + rest,
            scheme,
        ),
{
    reveal_strlit(":3478");
    assert(":3478"@ =~= seq![':', '3', '4', '7', '8']);
    assert((scheme + rest).take(scheme.len() as int) =~= scheme);
    assert((scheme + rest).skip(scheme.len() as int) =~= rest);
}

/// Of a server's addresses the first one counts that is an IPv4 address, and none only where
/// none is.
pub proof fn law_first_ipv4_counts(addrs: Seq<SocketAddr>)
    ensures
        match first_v4(addrs) {
            Some(a) => exists|i: int|
                {
                    &&& 0 <= i < addrs.len()
                    &&& #[trigger] addrs[i] == a
                    &&& a.ip is V4
                    &&& forall|j: int| 0 <= j < i ==> (#[trigger] addrs[j]).ip is V6
                },
            None => forall|i: int| 0 <= i < addrs.len() ==> (#[trigger] addrs[i]).ip is V6,
        },
    decreases addrs.len(),
{
    if addrs.len() > 0 && addrs[0].ip is V4 {
        assert(addrs[0] == first_v4(addrs)->0);
    } else if addrs.len() > 0 {
        let rest = addrs.drop_first();
        law_first_ipv4_counts(rest);
        assert forall|j: int| 0 < j < addrs.len() implies #[trigger] addrs[j] == rest[j - 1] by {}
        if let Some(a) = first_v4(rest) {
            let i = choose|i: int|
                {
                    &&& 0 <= i < rest.len()
                    &&& #[trigger] rest[i] == a
                    &&& a.ip is V4
                    &&& forall|j: int| 0 <= j < i ==> (#[trigger] rest[j]).ip is V6
                };
            assert(addrs[i + 1] == a);
        }
    }
}

/// The notation of an IPv4 address has its four bytes, in decimal, with dots between them; and
/// an address is read out of a text exactly where the text is its notation.
pub proof fn law_ipv4_notation(a: u8, b: u8, c: u8, d: u8, ip: u32, s: Seq<char>)
    requires
        ip == 0x100_0000 * a + 0x1_0000 * b + 0x100 * c + d,
    ensures
        ipv4_text(ip) == text::decimal(a as nat).push('.') + text::decimal(b as nat).push('.')
            + text::decimal(c as nat).push('.') + text::decimal(d as nat),
        ipv4_of(s) == Some(ip) <==> s == ipv4_text(ip),
{
    lemma_split(ip as int, a as int, 0x100_0000, 0x1_0000 * b + 0x100 * c + d);
    lemma_split(ip as int, 0x100 * a + b, 0x1_0000, 0x100 * c + d);
    lemma_split(0x100 * a + b, a as int, 0x100, b as int);
    lemma_split(ip as int, 0x1_0000 * a + 0x100 * b + c, 0x100, d as int);
    lemma_split(0x1_0000 * a + 0x100 * b + c, 0x100 * a + b, 0x100, c as int);
    assert(ipv4_text(ip) =~= text::decimal(a as nat).push('.') + text::decimal(b as nat).push('.')
        + text::decimal(c as nat).push('.') + text::decimal(d as nat));
    if s == ipv4_text(ip) {
        law_ipv4_text_injective(ip, ipv4_of(s)->0);
    }
}

/// Offered are all IPv4 addresses but 127.x.x.x, 0.0.0.0 and 169.254.x.x, and all IPv6
/// addresses but the unspecified one, the machine's own, and those from fe80 to febf.
pub proof fn law_usable_addresses(a: u8, b: u8, c: u8, d: u8, ip: u32, wide: u128)
    requires
        ip == 0x100_0000 * a + 0x1_0000 * b + 0x100 * c + d,
    ensures
        usable(IpAddr::V4(ip)) <==> a != 127 && !(a == 0 && b == 0 && c == 0 && d == 0) && !(a
            == 169 && b == 254),
        usable(IpAddr::V6(wide)) <==> wide != 0 && wide != 1 && !(0xFE80 <= wide
            / 0x1_0000_0000_0000_0000_0000_0000_0000 <= 0xFEBF),
{
    lemma_split(ip as int, a as int, 0x100_0000, 0x1_0000 * b + 0x100 * c + d);
    lemma_split(ip as int, 0x100 * a + b, 0x1_0000, 0x100 * c + d);
}

/// A line of the trie names a leaf.
pub open spec fn is_leaf(line: Seq<char>) -> bool {
    "|-- "@.is_prefix_of(text::trimmed(line))
}

/// A line of the trie names this address as its leaf.
pub open spec fn names_leaf(line: Seq<char>, ip: u32) -> bool {
    text::trimmed(line) == "|-- "@ + ipv4_text(ip)
}

/// A line of the trie says that a leaf is an address of this machine.
pub open spec fn is_local(line: Seq<char>) -> bool {
    "/32 host LOCAL"@.is_prefix_of(text::trimmed(line))
}

/// A line names this address as a leaf, and no line behind it names another leaf or says that
/// it is an address of this machine.
pub open spec fn leaf_stands(lines: Seq<Seq<char>>, n: int, ip: u32) -> bool {
    &&& 0 <= n < lines.len()
    &&& names_leaf(lines[n], ip)
    &&& forall|k: int|
        n < k < lines.len() ==> !is_leaf(#[trigger] lines[k]) && !is_local(lines[k])
}

/// A line says that the leaf of another one is an address of this machine.
pub open spec fn lists(lines: Seq<Seq<char>>, n: int, m: int, ip: u32) -> bool {
    &&& 0 <= m < lines.len()
    &&& is_local(lines[m])
    &&& leaf_stands(lines.take(m), n, ip)
}

proof fn lemma_kinds_of_lines(line: Seq<char>, ip: u32)
    ensures
        !(is_leaf(line) && is_local(line)),
        names_leaf(line, ip) <==> is_leaf(line) && ipv4_of(text::trimmed(line).skip(4)) == Some(ip),
{
    reveal_strlit("|-- ");
    reveal_strlit("/32 host LOCAL");
    let t = text::trimmed(line);
    if is_leaf(line) && is_local(line) {
        assert(t.take(4)[0] == t.take(14)[0]);
    }
    if names_leaf(line, ip) {
        assert(t.take(4) =~= "|-- "@);
        assert(t.skip(4) =~= ipv4_text(ip));
        law_ipv4_text_injective(ip, ipv4_of(t.skip(4))->0);
    }
    if is_leaf(line) && ipv4_of(t.skip(4)) == Some(ip) {
        assert(t =~= t.take(4) + t.skip(4));
    }
}

proof fn lemma_leaf_stands(state: TrieState, lines: Seq<Seq<char>>, ip: u32)
    requires
        state.leaf is None,
    ensures
        trie_lines(state, lines).leaf == Some(ip) <==> exists|n: int| leaf_stands(lines, n, ip),
    decreases lines.len(),
{
    if lines.len() > 0 {
        let before = lines.drop_last();
        let last = lines.len() - 1;
        lemma_leaf_stands(state, before, ip);
        lemma_kinds_of_lines(lines.last(), ip);
        assert(lines[last] == lines.last());
        if trie_lines(state, lines).leaf == Some(ip) {
            if is_leaf(lines.last()) {
                assert(leaf_stands(lines, last, ip));
            } else {
                let n = choose|n: int| leaf_stands(before, n, ip);
                assert(before[n] == lines[n]);
                assert forall|k: int| n < k < lines.len() implies !is_leaf(#[trigger] lines[k])
                    && !is_local(lines[k]) by {
                    if k < last {
                        assert(before[k] == lines[k]);
                    }
                }
                assert(leaf_stands(lines, n, ip));
            }
        }
        if exists|n: int| leaf_stands(lines, n, ip) {
            let n = choose|n: int| leaf_stands(lines, n, ip);
            if n < last {
                assert(!is_leaf(lines[last]) && !is_local(lines[last]));
                assert(before[n] == lines[n]);
                assert forall|k: int| n < k < before.len() implies !is_leaf(#[trigger] before[k])
                    && !is_local(before[k]) by {
                    assert(before[k] == lines[k]);
                }
                assert(leaf_stands(before, n, ip));
            }
        }
    }
}

proof fn lemma_lists(state: TrieState, lines: Seq<Seq<char>>, ip: u32)
    requires
        state.leaf is None,
    ensures
        trie_lines(state, lines).ips.contains(IpAddr::V4(ip)) <==> state.ips.contains(
            IpAddr::V4(ip),
        ) || usable(IpAddr::V4(ip)) && exists|n: int, m: int| lists(lines, n, m, ip),
    decreases lines.len(),
{
    if lines.len() > 0 {
        let before = lines.drop_last();
        let last = lines.len() - 1;
        let addr = IpAddr::V4(ip);
        lemma_lists(state, before, ip);
        lemma_leaf_stands(state, before, ip);
        lemma_kinds_of_lines(lines.last(), ip);
        assert(lines.take(last) =~= before);
        let old_ips = trie_lines(state, before).ips;
        let ips = trie_lines(state, lines).ips;
        let leaf = trie_lines(state, before).leaf;
        let adds = is_local(lines.last()) && leaf == Some(ip) && usable(addr);
        assert(ips.contains(addr) <==> old_ips.contains(addr) || adds) by {
            lemma_with_ip(old_ips, IpAddr::V4(leaf->0), addr);
        }
        if adds {
            let n = choose|n: int| leaf_stands(before, n, ip);
            assert(lists(lines, n, last, ip));
        }
        if exists|n: int, m: int| lists(before, n, m, ip) {
            let (n, m) = choose|n: int, m: int| lists(before, n, m, ip);
            assert(lines.take(m) =~= before.take(m));
            assert(lists(lines, n, m, ip));
        }
        if exists|n: int, m: int| lists(lines, n, m, ip) {
            let (n, m) = choose|n: int, m: int| lists(lines, n, m, ip);
            if m < last {
                assert(lines.take(m) =~= before.take(m));
                assert(lists(before, n, m, ip));
            }
        }
    } else {
        assert(forall|n: int, m: int| !lists(lines, n, m, ip));
    }
}

proof fn lemma_with_ip(ips: Seq<IpAddr>, ip: IpAddr, other: IpAddr)
    ensures
        with_ip(ips, ip).contains(other) <==> ips.contains(other) || other == ip && usable(ip),
{
    let more = ips.push(ip);
    assert(more[ips.len() as int] == ip);
    if ips.contains(other) {
        let i = choose|i: int| 0 <= i < ips.len() && ips[i] == other;
        assert(more[i] == other);
    }
    if more.contains(other) {
        let i = choose|i: int| 0 <= i < more.len() && more[i] == other;
        if i < ips.len() {
            assert(ips[i] == other);
        }
    }
}

proof fn lemma_trie_keeps_wide(state: TrieState, lines: Seq<Seq<char>>, wide: u128)
    ensures
        trie_lines(state, lines).ips.contains(IpAddr::V6(wide)) <==> state.ips.contains(
            IpAddr::V6(wide),
        ),
    decreases lines.len(),
{
    if lines.len() > 0 {
        let before = trie_lines(state, lines.drop_last());
        lemma_trie_keeps_wide(state, lines.drop_last(), wide);
        lemma_with_ip(before.ips, IpAddr::V4(before.leaf->0), IpAddr::V6(wide));
    }
}

/// Found are the usable address that the outside is reached from, and the usable addresses
/// that a line of the trie names as a leaf and a later one says to be of this machine, with no
/// other such line in between; however many there are, and no others.
pub proof fn law_found_exactly_what_is_listed(
    outbound: Option<IpAddr>,
    trie: Seq<char>,
    ip: u32,
    wide: u128,
)
    ensures
        local_ips(outbound, Some(trie)).contains(IpAddr::V4(ip)) <==> usable(IpAddr::V4(ip)) && (
        outbound == Some(IpAddr::V4(ip)) || exists|n: int, m: int|
            lists(text::lines(trie), n, m, ip)),
        local_ips(outbound, Some(trie)).contains(IpAddr::V6(wide)) <==> usable(IpAddr::V6(wide))
            && outbound == Some(IpAddr::V6(wide)),
        local_ips(outbound, None).contains(IpAddr::V4(ip)) <==> usable(IpAddr::V4(ip)) && outbound
            == Some(IpAddr::V4(ip)),
        local_ips(outbound, None).contains(IpAddr::V6(wide)) <==> usable(IpAddr::V6(wide))
            && outbound == Some(IpAddr::V6(wide)),
{
    let first = match outbound {
        Some(a) => if usable(a) { seq![a] } else { Seq::empty() },
        None => Seq::empty(),
    };
    let state = TrieState { leaf: None, ips: first };
    lemma_lists(state, text::lines(trie), ip);
    lemma_trie_keeps_wide(state, text::lines(trie), wide);
    if let Some(a) = outbound {
        if usable(a) {
            assert(first[0] == a);
        }
    }
}

/// Addresses are found in the order of the lines: one more line adds one more address behind
/// those found before, or none.
pub proof fn law_found_in_order(state: TrieState, lines: Seq<Seq<char>>, line: Seq<char>)
    ensures
        ({
            let before = trie_lines(state, lines).ips;
            let after = trie_lines(state, lines.push(line)).ips;
            &&& before.is_prefix_of(after)
            &&& after.len() <= before.len() + 1
        }),
        trie_lines(state, Seq::empty()) == state,
{
    assert(lines.push(line).drop_last() =~= lines);
    let before = trie_lines(state, lines).ips;
    let after = trie_lines(state, lines.push(line)).ips;
    assert(before =~= after.take(before.len() as int));
}

/// The address that the outside is reached from comes first, where it is usable.
pub proof fn law_outbound_first(ip: IpAddr, trie: Option<Seq<char>>)
    requires
        usable(ip),
    ensures
        local_ips(Some(ip), trie).len() > 0,
        local_ips(Some(ip), trie)[0] == ip,
{
    if let Some(t) = trie {
        lemma_first_stays(TrieState { leaf: None, ips: seq![ip] }, text::lines(t));
    }
}

proof fn lemma_first_stays(state: TrieState, lines: Seq<Seq<char>>)
    requires
        state.ips.len() > 0,
    ensures
        trie_lines(state, lines).ips.len() > 0,
        trie_lines(state, lines).ips[0] == state.ips[0],
    decreases lines.len(),
{
    if lines.len() > 0 {
        lemma_first_stays(state, lines.drop_last());
    }
}

/// A socket is reached at its port under each IP address of this machine, in order; and where
/// there is none, under 127.0.0.1.
pub proof fn law_reached_under_each_address(ips: Seq<IpAddr>, port: u16)
    ensures
        ips.len() == 0 ==> reachable_at(ips, port) == seq![
            SocketAddr { ip: IpAddr::V4(0x7F00_0001), port },
        ],
        ips.len() > 0 ==> reachable_at(ips, port).len() == ips.len(),
        forall|i: int|
            0 <= i < ips.len() ==> reachable_at(ips, port)[i] == (SocketAddr {
                ip: #[trigger] ips[i],
                port,
            }),
{
}

/// Host and port of a server, its first IPv4 address, the addresses of this machine and where
/// a socket is reached are what they are stated to be.
pub proof fn law_addresses_found(
    url: &str,
    scheme: &str,
    host: String,
    addrs: &Vec<SocketAddr>,
    first: Option<SocketAddr>,
    outbound: Option<IpAddr>,
    trie: Option<&str>,
    ips: Vec<IpAddr>,
    port: u16,
    reached: Vec<SocketAddr>,
    usable_ip: IpAddr,
    is: bool,
)
    requires
        call_ensures(host_port, (url, scheme), host),
        call_ensures(first_ipv4, (addrs,), first),
        call_ensures(get_local_ips, (outbound, trie), ips),
        call_ensures(local_addrs, (&ips, port), reached),
        call_ensures(is_usable, (usable_ip,), is),
    ensures
        host@ == host_and_port(url@, scheme@),
        first == first_v4(addrs@),
        ips@ == local_ips(
            outbound,
            match trie {
                Some(t) => Some(t@),
                None => None,
            },
        ),
        reached@ == reachable_at(ips@, port),
        is <==> usable(usable_ip),
{
}

/// An IPv4 address is read out of a text exactly where the text is its notation.
pub proof fn law_ipv4_read(s: &[char], r: Option<u32>, ip: u32)
    requires
        call_ensures(parse_ipv4, (s,), r),
    ensures
        r == Some(ip) <==> s@ == ipv4_text(ip),
{
    if s@ == ipv4_text(ip) && r is Some {
        law_ipv4_text_injective(ip, r->0);
    }
}

} // verus!
