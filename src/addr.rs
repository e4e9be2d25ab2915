use crate::num::{
    all_dec, all_hex, dec_digit_value, dec_text, dec_value, hex_digit_value, hex_text, hex_value,
    has_no, is_dec_digit, is_hex_digit, lemma_dec_text, lemma_hex_text, lemma_split_single,
    lemma_split_snoc, parse_port, parse_u16, pow10, push_dec, push_hex, split, split_chars,
};
use crate::text::{chars_of, push_all, rfind, string_of, sub_chars};
use vstd::prelude::*;

verus! {

/// A host: an IPv4 address (v4-mapped IPv6 addresses collapse to it), an
/// IPv6 address, or an ASCII domain name.
#[derive(Clone, Debug)]
pub enum HostName {
    V4([u8; 4]),
    V6([u16; 8]),
    Domain(String),
}

/// A host and a port.
#[derive(Clone, Debug)]
pub struct SocketAddr {
    pub hostname: HostName,
    pub port: u16,
}

/// Why a host or address text was refused.
#[derive(Clone, Copy, Debug, PartialEq, Eq, Structural)]
pub enum AddrError {
    /// The text has no `:port` part.
    MissingPort,
    /// The port is not a decimal `u16`.
    BadPort,
    /// The name is no IP address and IDNA refuses it as a domain.
    BadDomain,
}

/// The mathematical value of a `HostName`.
pub enum Host {
    V4(Seq<u8>),
    V6(Seq<u16>),
    Domain(Seq<char>),
}

/// What IDNA's strict domain-to-ASCII mapping makes of a name, if it accepts it.
pub uninterp spec fn idna_ascii_of(s: Seq<char>) -> Option<Seq<char>>;

/// Relies on `idna::domain_to_ascii_strict`: the ASCII form of a domain
/// name, or a refusal; the result depends on the name alone and is ASCII.
#[verifier::external_body]
fn domain_to_ascii(s: &str) -> (r: Option<String>)
    ensures
        match r {
            Some(d) => idna_ascii_of(s@) == Some(d@) && forall|i: int|
                0 <= i < d@.len() ==> (#[trigger] d@[i] as u32) < 128,
            None => idna_ascii_of(s@) is None,
        },
{
    idna::domain_to_ascii_strict(s).ok()
}

/// A decimal octet as std reads one in an IPv4 address: one to three digits,
/// no leading zero, at most 255.
pub open spec fn dec_octet(p: Seq<char>) -> Option<u8> {
    if 1 <= p.len() <= 3 && all_dec(p) && (p.len() == 1 || p[0] != '0') && dec_value(p) <= 255 {
        Some(dec_value(p) as u8)
    } else {
        None
    }
}

/// A group of an IPv6 address: one to four hexadecimal digits.
pub open spec fn hex_group(p: Seq<char>) -> Option<u16> {
    if 1 <= p.len() <= 4 && all_hex(p) {
        Some(hex_value(p) as u16)
    } else {
        None
    }
}

pub open spec fn parse_v4(s: Seq<char>) -> Option<Seq<u8>> {
    let ps = split(s, '.');
    if ps.len() == 4 && forall|i: int| 0 <= i < 4 ==> (#[trigger] dec_octet(ps[i])) is Some {
        Some(Seq::new(4, |i: int| dec_octet(ps[i]).unwrap()))
    } else {
        None
    }
}

/// The groups of a `:`-separated list, if every part is a valid group.
pub open spec fn groups_of(ps: Seq<Seq<char>>) -> Option<Seq<u16>> {
    if forall|i: int| 0 <= i < ps.len() ==> (#[trigger] hex_group(ps[i])) is Some {
        Some(Seq::new(ps.len(), |i: int| hex_group(ps[i]).unwrap()))
    } else {
        None
    }
}

/// Groups of a possibly empty list of groups.
pub open spec fn opt_groups(s: Seq<char>) -> Option<Seq<u16>> {
    if s.len() == 0 {
        Some(Seq::empty())
    } else {
        groups_of(split(s, ':'))
    }
}

/// The two groups an IPv4 address stands for at the end of IPv6 text.
pub open spec fn v4_groups(o: Seq<u8>) -> Seq<u16> {
    seq![(o[0] as nat * 256 + o[1] as nat) as u16, (o[2] as nat * 256 + o[3] as nat) as u16]
}

/// The groups of a `:`-separated list whose last part may instead be a
/// dotted IPv4 address, standing for two groups.
pub open spec fn tail_groups(ps: Seq<Seq<char>>) -> Option<Seq<u16>> {
    match groups_of(ps.drop_last()) {
        None => None,
        Some(g) => if hex_group(ps.last()) is Some {
            Some(g.push(hex_group(ps.last()).unwrap()))
        } else if parse_v4(ps.last()) is Some {
            Some(g + v4_groups(parse_v4(ps.last()).unwrap()))
        } else {
            None
        },
    }
}

/// Groups of a possibly empty list that may end in an IPv4 address.
pub open spec fn opt_tail_groups(s: Seq<char>) -> Option<Seq<u16>> {
    if s.len() == 0 {
        Some(Seq::empty())
    } else {
        tail_groups(split(s, ':'))
    }
}

pub open spec fn is_double_colon_at(s: Seq<char>, i: int) -> bool {
    0 <= i && i + 1 < s.len() && s[i] == ':' && s[i + 1] == ':'
}

/// IPv6 text: eight groups, or fewer with one `::` standing for at least one
/// zero group. The last two groups may be written as a dotted IPv4 address,
/// but not before the `::`.
pub open spec fn parse_v6(s: Seq<char>) -> Option<Seq<u16>> {
    if exists|i: int| is_double_colon_at(s, i) {
        let i = choose|i: int|
            is_double_colon_at(s, i) && forall|j: int| 0 <= j < i ==> !is_double_colon_at(s, j);
        let l = opt_groups(s.subrange(0, i));
        let r = opt_tail_groups(s.subrange(i + 2, s.len() as int));
        if l is Some && r is Some && l.unwrap().len() + r.unwrap().len() <= 7 {
            Some(
                l.unwrap() + Seq::new(
                    (8 - l.unwrap().len() - r.unwrap().len()) as nat,
                    |k: int| 0u16,
                ) + r.unwrap(),
            )
        } else {
            None
        }
    } else {
        let g = tail_groups(split(s, ':'));
        if g is Some && g.unwrap().len() == 8 {
            g
        } else {
            None
        }
    }
}

pub open spec fn is_v4_mapped(g: Seq<u16>) -> bool {
    g[0] == 0 && g[1] == 0 && g[2] == 0 && g[3] == 0 && g[4] == 0 && g[5] == 0xffff
}

/// The host an IPv6 address stands for: v4-mapped ones collapse to IPv4.
pub open spec fn host_of_v6(g: Seq<u16>) -> Host {
    if is_v4_mapped(g) {
        Host::V4(seq![(g[6] / 256) as u8, (g[6] % 256) as u8, (g[7] / 256) as u8, (g[7] % 256) as u8])
    } else {
        Host::V6(g)
    }
}

pub open spec fn strip_brackets(s: Seq<char>) -> Seq<char> {
    if s.len() >= 2 && s[0] == '[' && s[s.len() - 1] == ']' {
        s.subrange(1, s.len() - 1)
    } else {
        s
    }
}

/// The host named by `s`: brackets are dropped, then an IP address is tried,
/// then a domain through IDNA.
pub open spec fn parse_host(s: Seq<char>) -> Option<Host> {
    let t = strip_brackets(s);
    if parse_v4(t) is Some {
        Some(Host::V4(parse_v4(t).unwrap()))
    } else if parse_v6(t) is Some {
        Some(host_of_v6(parse_v6(t).unwrap()))
    } else if idna_ascii_of(t) is Some {
        Some(Host::Domain(idna_ascii_of(t).unwrap()))
    } else {
        None
    }
}

pub open spec fn v4_text(o: Seq<u8>) -> Seq<char> {
    dec_text(o[0] as nat) + seq!['.'] + dec_text(o[1] as nat) + seq!['.'] + dec_text(
        o[2] as nat,
    ) + seq!['.'] + dec_text(o[3] as nat)
}

/// Groups in shortest lower-case hex, joined by `:`.
pub open spec fn join_groups(g: Seq<u16>) -> Seq<char>
    decreases g.len(),
{
    if g.len() == 0 {
        Seq::empty()
    } else if g.len() == 1 {
        hex_text(g[0] as nat)
    } else {
        join_groups(g.drop_last()) + seq![':'] + hex_text(g.last() as nat)
    }
}

/// Scanning the first `i` groups for runs of zeros: the longest run so far
/// (the first of equal ones) and the run in progress, each as start and length.
pub open spec fn zero_scan(g: Seq<u16>, i: nat) -> (nat, nat, nat, nat)
    decreases i,
{
    if i == 0 {
        (0, 0, 0, 0)
    } else {
        let (ls, ll, cs, cl) = zero_scan(g, (i - 1) as nat);
        if g[i - 1] == 0 {
            let ncs = if cl == 0 {
                (i - 1) as nat
            } else {
                cs
            };
            let ncl = cl + 1;
            if ncl > ll {
                (ncs, ncl, ncs, ncl)
            } else {
                (ls, ll, ncs, ncl)
            }
        } else {
            (ls, ll, 0, 0)
        }
    }
}

/// IPv6 text as std writes it: groups in shortest lower-case hex, the first
/// longest run of two or more zero groups written as `::`.
pub open spec fn v6_text(g: Seq<u16>) -> Seq<char> {
    let (s, l, _, _) = zero_scan(g, 8);
    if l > 1 {
        join_groups(g.subrange(0, s as int)) + seq![':', ':'] + join_groups(
            g.subrange((s + l) as int, 8),
        )
    } else {
        join_groups(g)
    }
}

pub open spec fn host_text(h: Host) -> Seq<char> {
    match h {
        Host::V4(o) => v4_text(o),
        Host::V6(g) => v6_text(g),
        Host::Domain(d) => d,
    }
}

/// The host as it stands in a URL or a `Host` header: IPv6 in brackets.
pub open spec fn host_url_text(h: Host) -> Seq<char> {
    match h {
        Host::V6(g) => seq!['['] + v6_text(g) + seq![']'],
        _ => host_text(h),
    }
}

/// `host:port`, with an IPv6 host in brackets.
pub open spec fn socket_text(h: Host, port: u16) -> Seq<char> {
    host_url_text(h) + seq![':'] + dec_text(port as nat)
}

/// A `Host` header value: `[v6]`, `[v6]:port`, `host` or `host:port`.
pub open spec fn parse_host_header_spec(s: Seq<char>) -> Result<(Host, Option<u16>), AddrError> {
    if s.len() >= 2 && s[0] == '[' && s[s.len() - 1] == ']' {
        match parse_host(s.subrange(1, s.len() - 1)) {
            Some(h) => Ok((h, None)),
            None => Err(AddrError::BadDomain),
        }
    } else if exists|i: int| 0 <= i < s.len() && s[i] == ':' {
        let j = choose|j: int|
            0 <= j < s.len() && s[j] == ':' && forall|k: int| j < k < s.len() ==> s[k] != ':';
        match parse_u16(s.subrange(j + 1, s.len() as int)) {
            None => Err(AddrError::BadPort),
            Some(p) => match parse_host(s.subrange(0, j)) {
                Some(h) => Ok((h, Some(p))),
                None => Err(AddrError::BadDomain),
            },
        }
    } else {
        match parse_host(s) {
            Some(h) => Ok((h, None)),
            None => Err(AddrError::BadDomain),
        }
    }
}

/// `host:port` text, the port required.
pub open spec fn parse_socket_spec(s: Seq<char>) -> Result<(Host, u16), AddrError> {
    if exists|i: int| 0 <= i < s.len() && s[i] == ':' {
        let j = choose|j: int|
            0 <= j < s.len() && s[j] == ':' && forall|k: int| j < k < s.len() ==> s[k] != ':';
        match parse_host(s.subrange(0, j)) {
            None => Err(AddrError::BadDomain),
            Some(h) => match parse_u16(s.subrange(j + 1, s.len() as int)) {
                Some(p) => Ok((h, p)),
                None => Err(AddrError::BadPort),
            },
        }
    } else {
        Err(AddrError::MissingPort)
    }
}

fn parse_octet(p: &[char]) -> (r: Option<u8>)
    ensures
        r == dec_octet(p@),
{
    if p.len() < 1 || p.len() > 3 || (p.len() > 1 && p[0] == '0') {
        return None;
    }
    let mut v: u32 = 0;
    let mut i: usize = 0;
    while i < p.len()
        invariant
            1 <= p@.len() <= 3,
            i <= p@.len(),
            all_dec(p@.subrange(0, i as int)),
            v as nat == dec_value(p@.subrange(0, i as int)),
            v < pow10(i as nat),
        decreases p@.len() - i,
    {
        let c = p[i];
        if !('0' <= c && c <= '9') {
            assert(!all_dec(p@)) by {
                assert(!is_dec_digit(p@[i as int]));
            }
            return None;
        }
        let ghost pre = p@.subrange(0, i as int);
        let ghost next = p@.subrange(0, i + 1);
        assert(next.drop_last() =~= pre);
        assert(all_dec(next)) by {
            assert forall|j: int| 0 <= j < next.len() implies is_dec_digit(#[trigger] next[j]) by {
                if j < pre.len() {
                    assert(next[j] == pre[j]);
                }
            }
        }
        assert(dec_value(next) == dec_value(pre) * 10 + dec_digit_value(c));
        assert(pow10((i + 1) as nat) == 10 * pow10(i as nat));
        assert(pow10(i as nat) <= 100) by {
            reveal_with_fuel(pow10, 3);
        }
        v = v * 10 + (c as u32 - '0' as u32);
        i = i + 1;
    }
    assert(p@.subrange(0, i as int) =~= p@);
    if v > 255 {
        return None;
    }
    Some(v as u8)
}

fn hex_digit(c: char) -> (r: Option<u32>)
    ensures
        match r {
            Some(d) => is_hex_digit(c) && d as nat == hex_digit_value(c),
            None => !is_hex_digit(c),
        },
{
    if '0' <= c && c <= '9' {
        Some(c as u32 - '0' as u32)
    } else if 'a' <= c && c <= 'f' {
        Some(c as u32 - 'a' as u32 + 10)
    } else if 'A' <= c && c <= 'F' {
        Some(c as u32 - 'A' as u32 + 10)
    } else {
        None
    }
}

pub open spec fn pow16(n: nat) -> nat
    decreases n,
{
    if n == 0 {
        1
    } else {
        16 * pow16((n - 1) as nat)
    }
}

fn parse_group(p: &[char]) -> (r: Option<u16>)
    ensures
        r == hex_group(p@),
{
    if p.len() < 1 || p.len() > 4 {
        return None;
    }
    let mut v: u32 = 0;
    let mut i: usize = 0;
    while i < p.len()
        invariant
            1 <= p@.len() <= 4,
            i <= p@.len(),
            all_hex(p@.subrange(0, i as int)),
            v as nat == hex_value(p@.subrange(0, i as int)),
            v < pow16(i as nat),
        decreases p@.len() - i,
    {
        let d = match hex_digit(p[i]) {
            Some(d) => d,
            None => {
                assert(!all_hex(p@)) by {
                    assert(!is_hex_digit(p@[i as int]));
                }
                return None;
            },
        };
        let ghost pre = p@.subrange(0, i as int);
        let ghost next = p@.subrange(0, i + 1);
        assert(next.drop_last() =~= pre);
        assert(all_hex(next)) by {
            assert forall|j: int| 0 <= j < next.len() implies is_hex_digit(#[trigger] next[j]) by {
                if j < pre.len() {
                    assert(next[j] == pre[j]);
                }
            }
        }
        assert(hex_value(next) == hex_value(pre) * 16 + hex_digit_value(p@[i as int]));
        assert(pow16((i + 1) as nat) == 16 * pow16(i as nat));
        assert(pow16(i as nat) <= 4096) by {
            reveal_with_fuel(pow16, 4);
        }
        v = v * 16 + d;
        i = i + 1;
    }
    assert(p@.subrange(0, i as int) =~= p@);
    assert(pow16(i as nat) <= 65536) by {
        reveal_with_fuel(pow16, 5);
    }
    Some(v as u16)
}

/// Reads dotted-quad IPv4 text.
pub fn parse_ipv4(s: &[char]) -> (r: Option<[u8; 4]>)
    ensures
        match r {
            Some(a) => parse_v4(s@) == Some(a@),
            None => parse_v4(s@) is None,
        },
{
    let ps = split_chars(s, '.');
    if ps.len() != 4 {
        return None;
    }
    let mut out: Vec<u8> = Vec::new();
    let mut i: usize = 0;
    while i < 4
        invariant
            ps@.len() == 4,
            ps@.len() == split(s@, '.').len(),
            forall|k: int| 0 <= k < ps@.len() ==> #[trigger] ps@[k]@ == split(s@, '.')[k],
            i <= 4,
            out@.len() == i,
            forall|k: int|
                0 <= k < i ==> dec_octet(split(s@, '.')[k]) == Some(#[trigger] out@[k]),
        decreases 4 - i,
    {
        match parse_octet(ps[i].as_slice()) {
            Some(o) => out.push(o),
            None => {
                assert(dec_octet(split(s@, '.')[i as int]) is None);
                return None;
            },
        }
        i = i + 1;
    }
    let a: [u8; 4] = [out[0], out[1], out[2], out[3]];
    assert(a@ =~= Seq::new(4, |k: int| dec_octet(split(s@, '.')[k]).unwrap()));
    Some(a)
}

/// Reads a `:`-separated list of groups; an empty text is an empty list.
fn parse_group_list(s: &[char]) -> (r: Option<Vec<u16>>)
    ensures
        match r {
            Some(g) => opt_groups(s@) == Some(g@),
            None => opt_groups(s@) is None,
        },
{
    let mut out: Vec<u16> = Vec::new();
    if s.len() == 0 {
        assert(out@ =~= Seq::<u16>::empty());
        return Some(out);
    }
    let ps = split_chars(s, ':');
    let ghost sp = split(s@, ':');
    let mut i: usize = 0;
    while i < ps.len()
        invariant
            s@.len() > 0,
            sp == split(s@, ':'),
            ps@.len() == sp.len(),
            forall|k: int| 0 <= k < ps@.len() ==> #[trigger] ps@[k]@ == sp[k],
            i <= ps@.len(),
            out@.len() == i,
            forall|k: int| 0 <= k < i ==> hex_group(sp[k]) == Some(#[trigger] out@[k]),
        decreases ps@.len() - i,
    {
        match parse_group(ps[i].as_slice()) {
            Some(g) => out.push(g),
            None => {
                assert(hex_group(sp[i as int]) is None);
                assert(groups_of(sp) is None);
                return None;
            },
        }
        i = i + 1;
    }
    assert(forall|k: int| 0 <= k < sp.len() ==> (#[trigger] hex_group(sp[k])) is Some) by {
        assert forall|k: int| 0 <= k < sp.len() implies (#[trigger] hex_group(sp[k])) is Some by {
            assert(hex_group(sp[k]) == Some(out@[k]));
        }
    }
    assert(out@ =~= Seq::new(sp.len(), |k: int| hex_group(sp[k]).unwrap()));
    Some(out)
}

/// Reads a `:`-separated list of groups whose last part may be a dotted
/// IPv4 address; an empty text is an empty list.
fn parse_tail_group_list(s: &[char]) -> (r: Option<Vec<u16>>)
    ensures
        match r {
            Some(g) => opt_tail_groups(s@) == Some(g@),
            None => opt_tail_groups(s@) is None,
        },
{
    let mut out: Vec<u16> = Vec::new();
    if s.len() == 0 {
        assert(out@ =~= Seq::<u16>::empty());
        return Some(out);
    }
    let ps = split_chars(s, ':');
    let ghost sp = split(s@, ':');
    let ghost init = sp.drop_last();
    let n = ps.len() - 1;
    let mut i: usize = 0;
    while i < n
        invariant
            s@.len() > 0,
            sp == split(s@, ':'),
            init == sp.drop_last(),
            n == ps@.len() - 1,
            ps@.len() == sp.len(),
            forall|k: int| 0 <= k < ps@.len() ==> #[trigger] ps@[k]@ == sp[k],
            i <= n,
            out@.len() == i,
            forall|k: int| 0 <= k < i ==> hex_group(init[k]) == Some(#[trigger] out@[k]),
        decreases n - i,
    {
        match parse_group(ps[i].as_slice()) {
            Some(g) => out.push(g),
            None => {
                assert(hex_group(init[i as int]) is None);
                assert(groups_of(init) is None);
                return None;
            },
        }
        i = i + 1;
    }
    assert(forall|k: int| 0 <= k < init.len() ==> (#[trigger] hex_group(init[k])) is Some) by {
        assert forall|k: int| 0 <= k < init.len() implies (#[trigger] hex_group(init[k])) is Some by {
            assert(hex_group(init[k]) == Some(out@[k]));
        }
    }
    assert(out@ =~= Seq::new(init.len(), |k: int| hex_group(init[k]).unwrap()));
    assert(sp.last() == ps@[n as int]@);
    let ghost head = out@;
    match parse_group(ps[n].as_slice()) {
        Some(g) => {
            out.push(g);
            return Some(out);
        },
        None => {},
    }
    match parse_ipv4(ps[n].as_slice()) {
        Some(o) => {
            let hi: u16 = (o[0] as u16) * 256 + (o[1] as u16);
            let lo: u16 = (o[2] as u16) * 256 + (o[3] as u16);
            out.push(hi);
            out.push(lo);
            assert(out@ =~= head + v4_groups(o@));
            Some(out)
        },
        None => None,
    }
}

/// Finds the first `::`.
fn find_double_colon(s: &[char]) -> (r: Option<usize>)
    ensures
        match r {
            Some(i) => is_double_colon_at(s@, i as int) && forall|j: int|
                0 <= j < i ==> !is_double_colon_at(s@, j),
            None => forall|j: int| !is_double_colon_at(s@, j),
        },
{
    let mut i: usize = 0;
    while s.len() > 1 && i < s.len() - 1
        invariant
            i <= s@.len(),
            forall|j: int| 0 <= j < i ==> !is_double_colon_at(s@, j),
        decreases s@.len() - i,
    {
        if s[i] == ':' && s[i + 1] == ':' {
            return Some(i);
        }
        i = i + 1;
    }
    None
}

/// `l`, then zero groups up to eight in all, then `r`.
fn expand_groups(l: &Vec<u16>, r: &Vec<u16>) -> (g: Vec<u16>)
    requires
        l@.len() + r@.len() <= 7,
    ensures
        g@ == l@ + Seq::new((8 - l@.len() - r@.len()) as nat, |k: int| 0u16) + r@,
        g@.len() == 8,
{
    let mut g: Vec<u16> = Vec::new();
    let zeros: usize = 8 - l.len() - r.len();
    push_all(&mut g, l.as_slice());
    let mut k: usize = 0;
    while k < zeros
        invariant
            k <= zeros,
            g@ == l@ + Seq::new(k as nat, |q: int| 0u16),
        decreases zeros - k,
    {
        g.push(0u16);
        k = k + 1;
        assert(g@ =~= l@ + Seq::new(k as nat, |q: int| 0u16));
    }
    push_all(&mut g, r.as_slice());
    g
}

fn to_array8(g: &Vec<u16>) -> (a: [u16; 8])
    requires
        g@.len() == 8,
    ensures
        a@ == g@,
{
    let a: [u16; 8] = [g[0], g[1], g[2], g[3], g[4], g[5], g[6], g[7]];
    assert(a@ =~= g@);
    a
}

/// Reads IPv6 text (groups and at most one `::`).
#[verifier::spinoff_prover]
pub fn parse_ipv6(s: &[char]) -> (r: Option<[u16; 8]>)
    ensures
        match r {
            Some(a) => parse_v6(s@) == Some(a@),
            None => parse_v6(s@) is None,
        },
{
    match find_double_colon(s) {
        Some(i) => {
            let ghost ci = choose|k: int|
                is_double_colon_at(s@, k) && forall|j: int|
                    0 <= j < k ==> !is_double_colon_at(s@, j);
            assert(ci == i as int) by {
                if ci < i {
                    assert(!is_double_colon_at(s@, ci));
                } else if ci > i {
                    assert(!is_double_colon_at(s@, i as int));
                }
            }
            let left = sub_chars(s, 0, i);
            let len = s.len();
            assert(i + 2 <= len);
            let right = sub_chars(s, i + 2, len);
            let l = match parse_group_list(left.as_slice()) {
                Some(l) => l,
                None => return None,
            };
            let r = match parse_tail_group_list(right.as_slice()) {
                Some(r) => r,
                None => return None,
            };
            if l.len() > 7 || r.len() > 7 - l.len() {
                return None;
            }
            let g = expand_groups(&l, &r);
            Some(to_array8(&g))
        },
        None => {
            let all = match parse_tail_group_list(s) {
                Some(a) => a,
                None => {
                    return None;
                },
            };
            if s.len() == 0 || all.len() != 8 {
                return None;
            }
            Some(to_array8(&all))
        },
    }
}

impl View for HostName {
    type V = Host;

    open spec fn view(&self) -> Host {
        match self {
            HostName::V4(o) => Host::V4(o@),
            HostName::V6(g) => Host::V6(g@),
            HostName::Domain(d) => Host::Domain(d@),
        }
    }
}

fn push_v4_text(v: &mut Vec<char>, o: &[u8; 4])
    ensures
        final(v)@ == old(v)@ + v4_text(o@),
{
    push_dec(v, o[0] as u64);
    v.push('.');
    push_dec(v, o[1] as u64);
    v.push('.');
    push_dec(v, o[2] as u64);
    v.push('.');
    push_dec(v, o[3] as u64);
    assert(final(v)@ =~= old(v)@ + v4_text(o@));
}

/// Appends groups `from..to`, joined by `:`.
fn push_groups(v: &mut Vec<char>, g: &[u16; 8], from: usize, to: usize)
    requires
        from <= to <= 8,
    ensures
        final(v)@ == old(v)@ + join_groups(g@.subrange(from as int, to as int)),
{
    let ghost v0 = v@;
    let mut k: usize = from;
    assert(g@.subrange(from as int, from as int) =~= Seq::<u16>::empty());
    assert(v@ =~= v0 + join_groups(g@.subrange(from as int, k as int)));
    while k < to
        invariant
            from <= k <= to <= 8,
            g@.len() == 8,
            v@ == v0 + join_groups(g@.subrange(from as int, k as int)),
        decreases to - k,
    {
        if k > from {
            v.push(':');
        }
        push_hex(v, g[k] as u64);
        let ghost next = g@.subrange(from as int, k + 1);
        assert(next.drop_last() =~= g@.subrange(from as int, k as int));
        assert(next.last() == g@[k as int]);
        k = k + 1;
        assert(v@ =~= v0 + join_groups(next));
    }
}

/// Start and length of the first longest run of zero groups.
fn zero_span(g: &[u16; 8]) -> (r: (usize, usize))
    ensures
        r.0 == zero_scan(g@, 8).0,
        r.1 == zero_scan(g@, 8).1,
{
    let mut ls: usize = 0;
    let mut ll: usize = 0;
    let mut cs: usize = 0;
    let mut cl: usize = 0;
    let mut i: usize = 0;
    while i < 8
        invariant
            i <= 8,
            g@.len() == 8,
            (ls as nat, ll as nat, cs as nat, cl as nat) == zero_scan(g@, i as nat),
            ls <= 8 && ll <= i && cs <= 8 && cl <= i,
        decreases 8 - i,
    {
        if g[i] == 0 {
            if cl == 0 {
                cs = i;
            }
            cl = cl + 1;
            if cl > ll {
                ls = cs;
                ll = cl;
            }
        } else {
            cs = 0;
            cl = 0;
        }
        i = i + 1;
    }
    (ls, ll)
}

/// The zero run found lies within the address and holds only zeros.
proof fn lemma_zero_scan(g: Seq<u16>, i: nat)
    requires
        g.len() == 8,
        i <= 8,
    ensures
        ({
            let (ls, ll, cs, cl) = zero_scan(g, i);
            &&& ls + ll <= i
            &&& forall|k: int| ls <= k < ls + ll ==> g[k] == 0
            &&& cl > 0 ==> cs + cl == i
            &&& forall|k: int| cs <= k < cs + cl ==> g[k] == 0
        }),
    decreases i,
{
    if i > 0 {
        lemma_zero_scan(g, (i - 1) as nat);
    }
}

fn push_v6_text(v: &mut Vec<char>, g: &[u16; 8])
    ensures
        final(v)@ == old(v)@ + v6_text(g@),
{
    let (s, l) = zero_span(g);
    proof {
        lemma_zero_scan(g@, 8);
    }
    if l > 1 {
        let ghost v0 = v@;
        push_groups(v, g, 0, s);
        v.push(':');
        v.push(':');
        push_groups(v, g, s + l, 8);
        assert(v@ =~= v0 + v6_text(g@));
    } else {
        push_groups(v, g, 0, 8);
        assert(g@.subrange(0, 8) =~= g@);
    }
}

fn push_host_text(v: &mut Vec<char>, h: &HostName)
    ensures
        final(v)@ == old(v)@ + host_text(h@),
{
    match h {
        HostName::V4(o) => push_v4_text(v, o),
        HostName::V6(g) => push_v6_text(v, g),
        HostName::Domain(d) => {
            let c = chars_of(d.as_str());
            push_all(v, c.as_slice());
        },
    }
}

fn push_host_url_text(v: &mut Vec<char>, h: &HostName)
    ensures
        final(v)@ == old(v)@ + host_url_text(h@),
{
    match h {
        HostName::V6(g) => {
            v.push('[');
            push_v6_text(v, g);
            v.push(']');
            assert(final(v)@ =~= old(v)@ + host_url_text(h@));
        },
        _ => push_host_text(v, h),
    }
}

pub fn push_socket_text(v: &mut Vec<char>, h: &HostName, port: u16)
    ensures
        final(v)@ == old(v)@ + socket_text(h@, port),
{
    push_host_url_text(v, h);
    v.push(':');
    push_dec(v, port as u64);
    assert(final(v)@ =~= old(v)@ + socket_text(h@, port));
}

impl HostName {
    /// A copy of the host.
    pub fn clone_host(&self) -> (r: HostName)
        ensures
            r@ == self@,
    {
        match self {
            HostName::V4(o) => HostName::V4(*o),
            HostName::V6(g) => HostName::V6(*g),
            HostName::Domain(d) => HostName::Domain(d.clone()),
        }
    }

    /// The host an IPv6 address stands for: a v4-mapped one is IPv4.
    pub fn from_v6(g: [u16; 8]) -> (r: HostName)
        ensures
            r@ == host_of_v6(g@),
    {
        if g[0] == 0 && g[1] == 0 && g[2] == 0 && g[3] == 0 && g[4] == 0 && g[5] == 0xffff {
            let o: [u8; 4] = [(g[6] / 256) as u8, (g[6] % 256) as u8, (g[7] / 256) as u8, (g[7]
                % 256) as u8];
            assert(o@ =~= seq![(g@[6] / 256) as u8, (g@[6] % 256) as u8, (g@[7] / 256) as u8, (g@[7] % 256) as u8]);
            HostName::V4(o)
        } else {
            HostName::V6(g)
        }
    }

    /// Reads a host: brackets are dropped, then IPv4, IPv6 and finally an
    /// IDNA domain are tried.
    pub fn from_str(s: &str) -> (r: Result<HostName, AddrError>)
        ensures
            match r {
                Ok(h) => parse_host(s@) == Some(h@),
                Err(e) => parse_host(s@) is None && e == AddrError::BadDomain,
            },
    {
        let c = chars_of(s);
        Self::from_chars(c.as_slice())
    }

    fn from_chars(c: &[char]) -> (r: Result<HostName, AddrError>)
        ensures
            match r {
                Ok(h) => parse_host(c@) == Some(h@),
                Err(e) => parse_host(c@) is None && e == AddrError::BadDomain,
            },
    {
        let n = c.len();
        let t = if n >= 2 && c[0] == '[' && c[n - 1] == ']' {
            sub_chars(c, 1, n - 1)
        } else {
            sub_chars(c, 0, n)
        };
        assert(t@ == strip_brackets(c@)) by {
            assert(c@.subrange(0, n as int) =~= c@);
        }
        if let Some(o) = parse_ipv4(t.as_slice()) {
            return Ok(HostName::V4(o));
        }
        if let Some(g) = parse_ipv6(t.as_slice()) {
            return Ok(HostName::from_v6(g));
        }
        let ts = string_of(t.as_slice());
        match domain_to_ascii(ts.as_str()) {
            Some(d) => Ok(HostName::Domain(d)),
            None => Err(AddrError::BadDomain),
        }
    }

    /// The host as text: dotted IPv4, IPv6 groups, or the domain.
    pub fn to_string(&self) -> (r: String)
        ensures
            r@ == host_text(self@),
    {
        let mut v: Vec<char> = Vec::new();
        push_host_text(&mut v, self);
        assert(v@ =~= host_text(self@));
        string_of(v.as_slice())
    }

    /// The host as it stands in a URL: IPv6 in brackets.
    pub fn to_string_url_style(&self) -> (r: String)
        ensures
            r@ == host_url_text(self@),
    {
        let mut v: Vec<char> = Vec::new();
        push_host_url_text(&mut v, self);
        assert(v@ =~= host_url_text(self@));
        string_of(v.as_slice())
    }

    pub fn is_ipaddr(&self) -> (r: bool)
        ensures
            r == !(self@ is Domain),
    {
        match self {
            HostName::Domain(_) => false,
            _ => true,
        }
    }
}

impl SocketAddr {
    pub fn new(hostname: HostName, port: u16) -> (r: SocketAddr)
        ensures
            r.hostname == hostname,
            r.port == port,
    {
        SocketAddr { hostname, port }
    }

    /// Reads a `Host` header: `[v6]`, `[v6]:port`, `host` or `host:port`.
    pub fn parse_host_header(host: &str) -> (r: Result<(HostName, Option<u16>), AddrError>)
        ensures
            match r {
                Ok((h, p)) => parse_host_header_spec(host@) == Ok::<(Host, Option<u16>), AddrError>((h@, p)),
                Err(e) => parse_host_header_spec(host@) == Err::<(Host, Option<u16>), AddrError>(e),
            },
    {
        let c = chars_of(host);
        let n = c.len();
        if n >= 2 && c[0] == '[' && c[n - 1] == ']' {
            let inner = sub_chars(c.as_slice(), 1, n - 1);
            return match HostName::from_chars(inner.as_slice()) {
                Ok(h) => Ok((h, None)),
                Err(e) => Err(e),
            };
        }
        match rfind(c.as_slice(), ':') {
            Some(j) => {
                let ghost cj = choose|j: int|
                    0 <= j < c@.len() && c@[j] == ':' && forall|k: int|
                        j < k < c@.len() ==> c@[k] != ':';
                assert(c@[j as int] == ':');
                assert(cj == j as int) by {
                    if cj < j {
                        assert(c@[j as int] != ':');
                    } else if cj > j {
                        assert(c@[cj] != ':');
                    }
                }
                let port_text = sub_chars(c.as_slice(), j + 1, n);
                let port = match parse_port(port_text.as_slice()) {
                    Some(p) => p,
                    None => return Err(AddrError::BadPort),
                };
                let name = sub_chars(c.as_slice(), 0, j);
                match HostName::from_chars(name.as_slice()) {
                    Ok(h) => Ok((h, Some(port))),
                    Err(e) => Err(e),
                }
            },
            None => match HostName::from_chars(c.as_slice()) {
                Ok(h) => Ok((h, None)),
                Err(e) => Err(e),
            },
        }
    }

    /// Reads `host:port`; the port is required.
    pub fn from_str(s: &str) -> (r: Result<SocketAddr, AddrError>)
        ensures
            match r {
                Ok(a) => parse_socket_spec(s@) == Ok::<(Host, u16), AddrError>((a.hostname@, a.port)),
                Err(e) => parse_socket_spec(s@) == Err::<(Host, u16), AddrError>(e),
            },
    {
        let c = chars_of(s);
        let n = c.len();
        match rfind(c.as_slice(), ':') {
            Some(j) => {
                let ghost cj = choose|j: int|
                    0 <= j < c@.len() && c@[j] == ':' && forall|k: int|
                        j < k < c@.len() ==> c@[k] != ':';
                assert(c@[j as int] == ':');
                assert(cj == j as int) by {
                    if cj < j {
                        assert(c@[j as int] != ':');
                    } else if cj > j {
                        assert(c@[cj] != ':');
                    }
                }
                let name = sub_chars(c.as_slice(), 0, j);
                let h = match HostName::from_chars(name.as_slice()) {
                    Ok(h) => h,
                    Err(e) => return Err(e),
                };
                let port_text = sub_chars(c.as_slice(), j + 1, n);
                match parse_port(port_text.as_slice()) {
                    Some(p) => Ok(SocketAddr { hostname: h, port: p }),
                    None => Err(AddrError::BadPort),
                }
            },
            None => Err(AddrError::MissingPort),
        }
    }

    /// `host:port`, with an IPv6 host in brackets.
    pub fn to_string(&self) -> (r: String)
        ensures
            r@ == socket_text(self.hostname@, self.port),
    {
        let mut v: Vec<char> = Vec::new();
        push_socket_text(&mut v, &self.hostname, self.port);
        assert(v@ =~= socket_text(self.hostname@, self.port));
        string_of(v.as_slice())
    }
}

/// A host that reads back as itself: a domain must be its own IDNA form,
/// must not read as an IP address, and holds none of `:`, `@`, `[`; an IPv6
/// address must not be v4-mapped (that one is an IPv4 host).
pub open spec fn valid_host(h: Host) -> bool {
    match h {
        Host::V4(o) => o.len() == 4,
        Host::V6(g) => g.len() == 8 && !is_v4_mapped(g),
        Host::Domain(d) => idna_ascii_of(d) == Some(d) && parse_v4(d) is None && parse_v6(d) is None
            && has_no(d, ':') && has_no(d, '@') && has_no(d, '['),
    }
}

proof fn lemma_digits_have_no(s: Seq<char>, c: char)
    requires
        all_dec(s),
        !is_dec_digit(c),
    ensures
        has_no(s, c),
{
    assert forall|i: int| 0 <= i < s.len() implies #[trigger] s[i] != c by {
        assert(is_dec_digit(s[i]));
    }
}

proof fn lemma_dec_octet(x: u8)
    ensures
        dec_octet(dec_text(x as nat)) == Some(x),
{
    lemma_dec_text(x as nat);
}

/// Dotted-quad text reads back as the same address, and holds only digits and dots.
pub proof fn lemma_v4_round_trip(o: Seq<u8>)
    requires
        o.len() == 4,
    ensures
        parse_v4(v4_text(o)) == Some(o),
        forall|i: int|
            0 <= i < v4_text(o).len() ==> is_dec_digit(#[trigger] v4_text(o)[i]) || v4_text(o)[i]
                == '.',
        v4_text(o).len() >= 1,
{
    let d0 = dec_text(o[0] as nat);
    let d1 = dec_text(o[1] as nat);
    let d2 = dec_text(o[2] as nat);
    let d3 = dec_text(o[3] as nat);
    lemma_dec_text(o[0] as nat);
    lemma_dec_text(o[1] as nat);
    lemma_dec_text(o[2] as nat);
    lemma_dec_text(o[3] as nat);
    lemma_digits_have_no(d0, '.');
    lemma_digits_have_no(d1, '.');
    lemma_digits_have_no(d2, '.');
    lemma_digits_have_no(d3, '.');
    lemma_split_single(d0, '.');
    lemma_split_snoc(d0, d1, '.');
    lemma_split_snoc(d0 + seq!['.'] + d1, d2, '.');
    lemma_split_snoc(d0 + seq!['.'] + d1 + seq!['.'] + d2, d3, '.');
    let ps = split(v4_text(o), '.');
    assert(ps =~= seq![d0, d1, d2, d3]);
    lemma_dec_octet(o[0]);
    lemma_dec_octet(o[1]);
    lemma_dec_octet(o[2]);
    lemma_dec_octet(o[3]);
    assert(forall|i: int| 0 <= i < 4 ==> (#[trigger] dec_octet(ps[i])) is Some);
    assert(Seq::new(4, |i: int| dec_octet(ps[i]).unwrap()) =~= o);
    let t = v4_text(o);
    assert forall|i: int| 0 <= i < t.len() implies is_dec_digit(#[trigger] t[i]) || t[i] == '.' by {
        let a1 = d0.len() as int;
        let a2 = a1 + 1 + d1.len();
        let a3 = a2 + 1 + d2.len();
        if i < a1 {
            assert(t[i] == d0[i]);
        } else if i == a1 {
        } else if i < a2 {
            assert(t[i] == d1[i - a1 - 1]);
        } else if i == a2 {
        } else if i < a3 {
            assert(t[i] == d2[i - a2 - 1]);
        } else if i == a3 {
        } else {
            assert(t[i] == d3[i - a3 - 1]);
        }
    }
}

pub open spec fn hex_or_colon(s: Seq<char>) -> bool {
    forall|i: int| 0 <= i < s.len() ==> is_hex_digit(#[trigger] s[i]) || s[i] == ':'
}

pub open spec fn no_double_colon(s: Seq<char>) -> bool {
    forall|i: int| 0 <= i < s.len() - 1 ==> !(#[trigger] s[i] == ':' && s[i + 1] == ':')
}

proof fn lemma_hex_has_no(s: Seq<char>, c: char)
    requires
        all_hex(s),
        !is_hex_digit(c),
    ensures
        has_no(s, c),
{
    assert forall|i: int| 0 <= i < s.len() implies #[trigger] s[i] != c by {
        assert(is_hex_digit(s[i]));
    }
}

proof fn lemma_join(g: Seq<u16>)
    ensures
        g.len() >= 1 ==> split(join_groups(g), ':') == g.map_values(|x: u16| hex_text(x as nat)),
        hex_or_colon(join_groups(g)),
        no_double_colon(join_groups(g)),
        g.len() >= 1 ==> join_groups(g).len() >= 1 && is_hex_digit(join_groups(g)[0])
            && is_hex_digit(join_groups(g).last()),
        g.len() == 0 ==> join_groups(g).len() == 0,
    decreases g.len(),
{
    if g.len() == 0 {
        return;
    }
    let h = hex_text(g.last() as nat);
    lemma_hex_text(g.last() as nat);
    lemma_hex_has_no(h, ':');
    if g.len() == 1 {
        lemma_split_single(h, ':');
        assert(g.map_values(|x: u16| hex_text(x as nat)) =~= seq![h]);
        assert forall|i: int| 0 <= i < h.len() implies is_hex_digit(#[trigger] h[i]) || h[i]
            == ':' by {}
    } else {
        let q = g.drop_last();
        let p = join_groups(q);
        lemma_join(q);
        let s = join_groups(g);
        assert(s == p + seq![':'] + h);
        lemma_split_snoc(p, h, ':');
        assert(g.map_values(|x: u16| hex_text(x as nat)) =~= q.map_values(
            |x: u16| hex_text(x as nat),
        ).push(h));
        assert forall|i: int| 0 <= i < s.len() implies is_hex_digit(#[trigger] s[i]) || s[i]
            == ':' by {
            if i < p.len() {
                assert(s[i] == p[i]);
            } else if i > p.len() {
                assert(s[i] == h[i - p.len() - 1]);
            }
        }
        assert forall|i: int| 0 <= i < s.len() - 1 implies !(#[trigger] s[i] == ':' && s[i + 1]
            == ':') by {
            if i < p.len() - 1 {
                assert(s[i] == p[i]);
                assert(s[i + 1] == p[i + 1]);
            } else if i == p.len() - 1 {
                assert(s[i] == p.last());
            } else if i == p.len() {
                assert(s[i + 1] == h[0]);
            } else {
                assert(s[i] == h[i - p.len() - 1]);
            }
        }
        assert(s[0] == p[0]);
        assert(s.last() == h.last());
    }
}

/// Joined groups read back as the same groups.
proof fn lemma_join_groups_read(g: Seq<u16>)
    ensures
        opt_groups(join_groups(g)) == Some(g),
{
    lemma_join(g);
    if g.len() > 0 {
        let ps = split(join_groups(g), ':');
        assert forall|i: int| 0 <= i < ps.len() implies (#[trigger] hex_group(ps[i])) is Some by {
            lemma_hex_group(g[i]);
        }
        assert forall|i: int| 0 <= i < ps.len() implies hex_group(ps[i]).unwrap() == g[i] by {
            lemma_hex_group(g[i]);
        }
        assert(Seq::new(ps.len(), |i: int| hex_group(ps[i]).unwrap()) =~= g);
    } else {
        assert(g =~= Seq::<u16>::empty());
    }
}

proof fn lemma_hex_group(x: u16)
    ensures
        hex_group(hex_text(x as nat)) == Some(x),
{
    lemma_hex_text(x as nat);
}

/// Joined groups read back as the same groups when the last part may also
/// be an IPv4 address: the last part is a hex group.
proof fn lemma_join_groups_tail_read(g: Seq<u16>)
    ensures
        opt_tail_groups(join_groups(g)) == Some(g),
{
    lemma_join(g);
    if g.len() > 0 {
        let ps = split(join_groups(g), ':');
        let init = ps.drop_last();
        assert forall|i: int| 0 <= i < init.len() implies (#[trigger] hex_group(init[i])) is Some
            && hex_group(init[i]).unwrap() == g[i] by {
            assert(init[i] == ps[i]);
            lemma_hex_group(g[i]);
        }
        assert(Seq::new(init.len(), |i: int| hex_group(init[i]).unwrap()) =~= g.drop_last());
        lemma_hex_group(g.last());
        assert(ps.last() == hex_text(g.last() as nat));
        assert(g.drop_last().push(g.last()) =~= g);
    } else {
        assert(g =~= Seq::<u16>::empty());
    }
}

/// IPv6 text reads back as the same groups, does not read as IPv4, and holds
/// only hex digits and colons.
#[verifier::spinoff_prover]
#[verifier::rlimit(50)]
pub proof fn lemma_v6_round_trip(g: Seq<u16>)
    requires
        g.len() == 8,
    ensures
        parse_v6(v6_text(g)) == Some(g),
        parse_v4(v6_text(g)) is None,
        hex_or_colon(v6_text(g)),
        v6_text(g).len() >= 1,
{
    let t = v6_text(g);
    let (s, l, _, _) = zero_scan(g, 8);
    lemma_zero_scan(g, 8);
    if l > 1 {
        let lg = g.subrange(0, s as int);
        let rg = g.subrange((s + l) as int, 8);
        let lt = join_groups(lg);
        let rt = join_groups(rg);
        lemma_join(lg);
        lemma_join(rg);
        lemma_join_groups_read(lg);
        lemma_join_groups_tail_read(rg);
        assert(t == lt + seq![':', ':'] + rt);
        let i0 = lt.len() as int;
        assert(is_double_colon_at(t, i0));
        assert forall|j: int| 0 <= j < i0 implies !is_double_colon_at(t, j) by {
            if j < i0 - 1 {
                assert(t[j] == lt[j] && t[j + 1] == lt[j + 1]);
            } else {
                assert(t[j] == lt.last());
            }
        }
        let ci = choose|k: int|
            is_double_colon_at(t, k) && forall|j: int| 0 <= j < k ==> !is_double_colon_at(t, j);
        assert(ci == i0) by {
            if ci < i0 {
            } else if ci > i0 {
                assert(!is_double_colon_at(t, i0));
            }
        }
        assert(t.subrange(0, i0) =~= lt);
        assert(t.subrange(i0 + 2, t.len() as int) =~= rt);
        assert(lg + Seq::new((8 - lg.len() - rg.len()) as nat, |k: int| 0u16) + rg =~= g);
        assert forall|k: int| 0 <= k < t.len() implies is_hex_digit(#[trigger] t[k]) || t[k]
            == ':' by {
            if k < i0 {
                assert(t[k] == lt[k]);
            } else if k >= i0 + 2 {
                assert(t[k] == rt[k - i0 - 2]);
            }
        }
    } else {
        lemma_join(g);
        lemma_join_groups_tail_read(g);
        assert(!exists|i: int| is_double_colon_at(t, i)) by {
            assert forall|i: int| !is_double_colon_at(t, i) by {
                if 0 <= i && i + 1 < t.len() {
                    assert(!(t[i] == ':' && t[i + 1] == ':'));
                }
            }
        }
    }
    assert(has_no(t, '.')) by {
        assert forall|i: int| 0 <= i < t.len() implies #[trigger] t[i] != '.' by {
            assert(is_hex_digit(t[i]) || t[i] == ':');
        }
    }
    lemma_split_single(t, '.');
}

/// `:port` when there is a port.
pub open spec fn port_suffix(port: Option<u16>) -> Seq<char> {
    match port {
        Some(p) => seq![':'] + dec_text(p as nat),
        None => Seq::empty(),
    }
}

/// The text of a valid host, brackets dropped, names the same host; the
/// text holds no `@`, and no `:` unless the host is IPv6.
proof fn lemma_parse_host_round_trip(h: Host)
    requires
        valid_host(h),
    ensures
        parse_host(host_url_text(h)) == Some(h),
        has_no(host_url_text(h), '@'),
        !(h is V6) ==> has_no(host_url_text(h), ':'),
        !(h is V6) ==> has_no(host_url_text(h), '['),
        h is V6 ==> host_url_text(h)[0] == '[' && host_url_text(h).last() == ']',
{
    match h {
        Host::V4(o) => {
            lemma_v4_round_trip(o);
            let t = v4_text(o);
            assert(has_no(t, '@') && has_no(t, ':') && has_no(t, '[')) by {
                assert forall|i: int| 0 <= i < t.len() implies #[trigger] t[i] != '@' && t[i]
                    != ':' && t[i] != '[' by {
                    assert(is_dec_digit(t[i]) || t[i] == '.');
                }
            }
            assert(is_dec_digit(t[0]) || t[0] == '.');
            assert(strip_brackets(t) == t);
        },
        Host::V6(g) => {
            lemma_v6_round_trip(g);
            let t = v6_text(g);
            let u = seq!['['] + t + seq![']'];
            assert(u.subrange(1, u.len() - 1) =~= t);
            assert(strip_brackets(u) == t);
            assert(has_no(u, '@')) by {
                assert forall|i: int| 0 <= i < u.len() implies #[trigger] u[i] != '@' by {
                    if 1 <= i < u.len() - 1 {
                        assert(u[i] == t[i - 1]);
                        assert(is_hex_digit(t[i - 1]) || t[i - 1] == ':');
                    }
                }
            }
        },
        Host::Domain(d) => {
            if d.len() > 0 {
                assert(d[0] != '[');
            }
            assert(strip_brackets(d) == d);
        },
    }
}

/// A host header built from a valid host and an optional port reads back as
/// that host and port; it holds no `@`.
#[verifier::spinoff_prover]
pub proof fn lemma_host_header_round_trip(h: Host, port: Option<u16>)
    requires
        valid_host(h),
    ensures
        parse_host_header_spec(host_url_text(h) + port_suffix(port)) == Ok::<
            (Host, Option<u16>),
            AddrError,
        >((h, port)),
        has_no(host_url_text(h) + port_suffix(port), '@'),
{
    lemma_parse_host_round_trip(h);
    let hh = host_url_text(h);
    let s = hh + port_suffix(port);
    match port {
        Some(p) => {
            let d = dec_text(p as nat);
            lemma_dec_text(p as nat);
            lemma_digits_have_no(d, ':');
            lemma_digits_have_no(d, '@');
            assert(s == hh + (seq![':'] + d));
            let j = hh.len() as int;
            assert(s[j] == ':');
            assert(is_dec_digit(d.last()));
            assert(s.last() == d.last());
            assert(!(s.len() >= 2 && s[0] == '[' && s[s.len() - 1] == ']'));
            let cj = choose|j: int|
                0 <= j < s.len() && s[j] == ':' && forall|k: int| j < k < s.len() ==> s[k] != ':';
            assert forall|k: int| j < k < s.len() implies s[k] != ':' by {
                assert(s[k] == d[k - j - 1]);
            }
            assert(cj == j) by {
                if cj < j {
                } else if cj > j {
                    assert(s[cj] == d[cj - j - 1]);
                }
            }
            assert(s.subrange(j + 1, s.len() as int) =~= d);
            assert(s.subrange(0, j) =~= hh);
            assert(d[0] != '+') by {
                assert(is_dec_digit(d[0]));
            }
            assert(parse_u16(d) == Some(p));
            assert(has_no(s, '@')) by {
                assert forall|i: int| 0 <= i < s.len() implies #[trigger] s[i] != '@' by {
                    if i < j {
                        assert(s[i] == hh[i]);
                    } else if i > j {
                        assert(s[i] == d[i - j - 1]);
                    }
                }
            }
        },
        None => {
            assert(s =~= hh);
            if h is V6 {
                let g = h->V6_0;
                let t = v6_text(g);
                lemma_v6_round_trip(g);
                assert(hh.subrange(1, hh.len() - 1) =~= t);
                assert(t[0] != '[') by {
                    assert(is_hex_digit(t[0]) || t[0] == ':');
                }
                assert(strip_brackets(t) == t);
            } else {
                assert(!exists|i: int| 0 <= i < s.len() && s[i] == ':');
                if s.len() >= 2 {
                    assert(s[0] != '[');
                }
            }
        },
    }
}

} // verus!
