use crate::addr::{Host, HostName, host_of_v6};
use crate::error::Error;
use crate::num::{split, split_chars};
use crate::text::{chars_of, string_of};
use vstd::prelude::*;
use vstd::utf8::encode_utf8;

verus! {

/// Transaction id that every cached or forwarded query carries.
pub const NORMALIZED_ID_HI: u8 = 0xab;

pub const NORMALIZED_ID_LO: u8 = 0xcd;

/// How long a DoH answer stays cached, in seconds.
pub const DNS_TTL_SECS: u64 = 3600;

/// Entries the cache holds when DoH is configured.
pub const DNS_CACHE_CAPACITY: usize = 65535;

#[verifier::external_type_specification]
#[verifier::external_body]
#[verifier::reject_recursive_types(K)]
#[verifier::reject_recursive_types(V)]
#[verifier::reject_recursive_types(S)]
pub struct ExTtlCache<K: Eq + core::hash::Hash, V, S: core::hash::BuildHasher>(
    ttl_cache::TtlCache<K, V, S>,
);

/// The entries a TTL cache holds, expired ones included.
pub uninterp spec fn ttl_entries(c: ttl_cache::TtlCache<Vec<u8>, Vec<u8>>) -> Map<Seq<u8>, Seq<u8>>;

/// The number of entries a TTL cache was made to hold.
pub uninterp spec fn ttl_capacity(c: ttl_cache::TtlCache<Vec<u8>, Vec<u8>>) -> nat;

/// Relies on `ttl_cache::TtlCache::new`: an empty cache of this capacity.
#[verifier::external_body]
fn ttl_new(capacity: usize) -> (r: ttl_cache::TtlCache<Vec<u8>, Vec<u8>>)
    ensures
        ttl_entries(r).dom() == Set::<Seq<u8>>::empty(),
        ttl_capacity(r) == capacity,
{
    ttl_cache::TtlCache::new(capacity)
}

/// Relies on `ttl_cache::TtlCache::get`: a copy of the live value stored
/// under `key`, or nothing when it is absent or expired.
#[verifier::external_body]
fn ttl_get(c: &ttl_cache::TtlCache<Vec<u8>, Vec<u8>>, key: &Vec<u8>) -> (r: Option<Vec<u8>>)
    ensures
        r is Some ==> ttl_entries(*c).contains_key(key@) && ttl_entries(*c)[key@] == r->Some_0@,
{
    c.get(key).cloned()
}

/// Relies on `ttl_cache::TtlCache::insert`: stores `value` under `key` for
/// `ttl_secs` seconds and moves the key to the newest end; when over capacity
/// the oldest entry leaves, so the new key stays whenever the capacity is at
/// least one. The expiry instant is `Instant::now() + ttl_secs`, which is kept
/// small enough to be representable.
#[verifier::external_body]
fn ttl_insert(c: &mut ttl_cache::TtlCache<Vec<u8>, Vec<u8>>, key: Vec<u8>, value: Vec<u8>, ttl_secs: u64)
    requires
        ttl_secs <= DNS_TTL_SECS,
    ensures
        ttl_capacity(*final(c)) == ttl_capacity(*old(c)),
        ttl_capacity(*old(c)) >= 1 ==> ttl_entries(*final(c)).contains_key(key@) && ttl_entries(
            *final(c),
        )[key@] == value@,
        forall|k: Seq<u8>| #[trigger]
            ttl_entries(*final(c)).contains_key(k) ==> if k == key@ {
                ttl_entries(*final(c))[k] == value@
            } else {
                ttl_entries(*old(c)).contains_key(k) && ttl_entries(*final(c))[k] == ttl_entries(
                    *old(c),
                )[k]
            },
{
    c.insert(key, value, std::time::Duration::from_secs(ttl_secs));
}

/// DoH answers by normalized query, each for a limited time.
pub struct DnsCache {
    inner: ttl_cache::TtlCache<Vec<u8>, Vec<u8>>,
}

/// The entries the cache holds, expired ones included.
pub closed spec fn cache_entries(c: DnsCache) -> Map<Seq<u8>, Seq<u8>> {
    ttl_entries(c.inner)
}

/// The number of entries the cache holds at most.
pub closed spec fn cache_capacity(c: DnsCache) -> nat {
    ttl_capacity(c.inner)
}

impl DnsCache {
    /// An empty cache that holds at most `capacity` entries.
    pub fn new(capacity: usize) -> (r: DnsCache)
        ensures
            cache_entries(r).dom() == Set::<Seq<u8>>::empty(),
            cache_capacity(r) == capacity,
    {
        DnsCache { inner: ttl_new(capacity) }
    }

    /// The live answer stored under `key`, if any.
    pub fn get(&self, key: &Vec<u8>) -> (r: Option<Vec<u8>>)
        ensures
            r is Some ==> cache_entries(*self).contains_key(key@) && cache_entries(*self)[key@]
                == r->Some_0@,
    {
        ttl_get(&self.inner, key)
    }

    /// Stores `value` under `key` for `ttl_secs` seconds, at most an hour.
    pub fn insert(&mut self, key: Vec<u8>, value: Vec<u8>, ttl_secs: u64)
        requires
            ttl_secs <= DNS_TTL_SECS,
        ensures
            cache_capacity(*final(self)) == cache_capacity(*old(self)),
            cache_capacity(*old(self)) >= 1 ==> cache_entries(*final(self)).contains_key(key@)
                && cache_entries(*final(self))[key@] == value@,
            forall|k: Seq<u8>| #[trigger]
                cache_entries(*final(self)).contains_key(k) ==> if k == key@ {
                    cache_entries(*final(self))[k] == value@
                } else {
                    cache_entries(*old(self)).contains_key(k) && cache_entries(*final(self))[k]
                        == cache_entries(*old(self))[k]
                },
    {
        ttl_insert(&mut self.inner, key, value, ttl_secs);
    }
}

/// A query with its transaction id replaced by the normalized one.
pub open spec fn normalized(q: Seq<u8>) -> Seq<u8> {
    q.update(0, NORMALIZED_ID_HI).update(1, NORMALIZED_ID_LO)
}

/// A response with the caller's transaction id put back.
pub open spec fn with_id(r: Seq<u8>, id: (u8, u8)) -> Seq<u8> {
    r.update(0, id.0).update(1, id.1)
}

/// What a DoH query finds in the cache.
#[derive(Debug)]
pub enum DohLookup {
    /// The cached answer, with the caller's id.
    Hit(Vec<u8>),
    /// Not cached: `key` is the normalized query to send, `id` the caller's.
    Miss { key: Vec<u8>, id: (u8, u8) },
}

fn set_id(v: &mut Vec<u8>, hi: u8, lo: u8)
    requires
        old(v)@.len() >= 2,
    ensures
        final(v)@ == old(v)@.update(0, hi).update(1, lo),
{
    v.set(0, hi);
    v.set(1, lo);
}

/// Looks a raw DNS query up: its id is saved and normalized, and a cached
/// answer comes back with the caller's id. A query under two bytes is refused.
pub fn doh_lookup(cache: &DnsCache, query: &Vec<u8>) -> (r: Result<DohLookup, Error>)
    ensures
        query@.len() < 2 ==> r == Err::<DohLookup, Error>(Error::Dns),
        query@.len() >= 2 ==> match r {
            Ok(DohLookup::Hit(resp)) => cache_entries(*cache).contains_key(normalized(query@))
                && cache_entries(*cache)[normalized(query@)].len() >= 2 && resp@ == with_id(
                cache_entries(*cache)[normalized(query@)],
                (query@[0], query@[1]),
            ),
            Ok(DohLookup::Miss { key, id }) => key@ == normalized(query@) && id == (
                query@[0],
                query@[1],
            ),
            Err(e) => e == Error::Dns && cache_entries(*cache).contains_key(normalized(query@))
                && cache_entries(*cache)[normalized(query@)].len() < 2,
        },
{
    if query.len() < 2 {
        return Err(Error::Dns);
    }
    let id = (query[0], query[1]);
    let mut key = query.clone();
    assert(key@ == query@);
    set_id(&mut key, NORMALIZED_ID_HI, NORMALIZED_ID_LO);
    match cache.get(&key) {
        Some(mut resp) => {
            if resp.len() < 2 {
                return Err(Error::Dns);
            }
            set_id(&mut resp, id.0, id.1);
            Ok(DohLookup::Hit(resp))
        },
        None => Ok(DohLookup::Miss { key, id }),
    }
}

/// Caches a DoH answer under the normalized query and returns it with the
/// caller's id; an answer under two bytes is cached but refused.
pub fn doh_store(cache: &mut DnsCache, key: Vec<u8>, id: (u8, u8), response: Vec<u8>) -> (r: Result<
    Vec<u8>,
    Error,
>)
    ensures
        forall|k: Seq<u8>| #[trigger]
            cache_entries(*final(cache)).contains_key(k) ==> if k == key@ {
                cache_entries(*final(cache))[k] == response@
            } else {
                cache_entries(*old(cache)).contains_key(k) && cache_entries(*final(cache))[k]
                    == cache_entries(*old(cache))[k]
            },
        cache_capacity(*final(cache)) == cache_capacity(*old(cache)),
        cache_capacity(*old(cache)) >= 1 ==> cache_entries(*final(cache)).contains_key(key@)
            && cache_entries(*final(cache))[key@] == response@,
        response@.len() < 2 ==> r == Err::<Vec<u8>, Error>(Error::Dns),
        response@.len() >= 2 ==> r is Ok && r->Ok_0@ == with_id(response@, id),
{
    let mut out = response.clone();
    assert(out@ == response@);
    cache.insert(key, response, DNS_TTL_SECS);
    if out.len() < 2 {
        return Err(Error::Dns);
    }
    set_id(&mut out, id.0, id.1);
    Ok(out)
}

/// Two queries that differ only in their transaction id share one cache
/// key, and an answer handed back carries the caller's own id.
pub proof fn lemma_cache_key_ignores_id(q1: Seq<u8>, q2: Seq<u8>, c: Seq<u8>)
    requires
        q1.len() >= 2,
        q1.len() == q2.len(),
        q1.subrange(2, q1.len() as int) == q2.subrange(2, q2.len() as int),
        c.len() >= 2,
    ensures
        normalized(q1) == normalized(q2),
        with_id(c, (q1[0], q1[1])).subrange(0, 2) == q1.subrange(0, 2),
        with_id(c, (q2[0], q2[1])).subrange(0, 2) == q2.subrange(0, 2),
        with_id(c, (q1[0], q1[1])).subrange(2, c.len() as int) == c.subrange(2, c.len() as int),
{
    assert forall|i: int| 2 <= i < q1.len() implies q1[i] == q2[i] by {
        assert(q1.subrange(2, q1.len() as int)[i - 2] == q2.subrange(2, q2.len() as int)[i - 2]);
    }
    assert(normalized(q1) =~= normalized(q2));
    assert(with_id(c, (q1[0], q1[1])).subrange(0, 2) =~= q1.subrange(0, 2));
    assert(with_id(c, (q2[0], q2[1])).subrange(0, 2) =~= q2.subrange(0, 2));
    assert(with_id(c, (q1[0], q1[1])).subrange(2, c.len() as int) =~= c.subrange(
        2,
        c.len() as int,
    ));
}

/// Record type of a question.
#[derive(Clone, Copy, Debug, PartialEq, Eq, Structural)]
pub enum QueryKind {
    A,
    Aaaa,
}

/// An address in an answer, as the packet holds it.
#[derive(Clone, Copy, Debug)]
pub enum AnswerAddr {
    V4([u8; 4]),
    V6([u16; 8]),
    /// A record of any other type.
    Other,
}

/// Class code of the Internet.
pub const CLASS_IN: u16 = 1;

/// One answer record: its class code and its address.
#[derive(Clone, Copy, Debug)]
pub struct DnsAnswer {
    pub class: u16,
    pub addr: AnswerAddr,
}

/// An answer's address seen as a host, for the record type asked.
pub open spec fn answer_host(a: DnsAnswer, qtype: QueryKind) -> Option<Host> {
    if a.class != CLASS_IN {
        None
    } else {
        match (a.addr, qtype) {
            (AnswerAddr::V4(o), QueryKind::A) => Some(Host::V4(o@)),
            (AnswerAddr::V6(g), QueryKind::Aaaa) => Some(host_of_v6(g@)),
            _ => None,
        }
    }
}

/// The first answer of class IN and of the type asked.
pub open spec fn first_host(s: Seq<DnsAnswer>, qtype: QueryKind) -> Option<Host>
    decreases s.len(),
{
    if s.len() == 0 {
        None
    } else if answer_host(s[0], qtype) is Some {
        answer_host(s[0], qtype)
    } else {
        first_host(s.subrange(1, s.len() as int), qtype)
    }
}

/// Each label as a length byte and its bytes.
pub open spec fn labels_bytes(parts: Seq<Seq<char>>) -> Seq<u8>
    decreases parts.len(),
{
    if parts.len() == 0 {
        Seq::empty()
    } else {
        labels_bytes(parts.drop_last()) + seq![encode_utf8(parts.last()).len() as u8]
            + encode_utf8(parts.last())
    }
}

/// A recursive query with id `0xabcd` and one question for `domain` of type
/// `qtype` (1 for A, 28 for AAAA) and class IN: the header, the name as
/// labels ending in a zero byte, the type and the class.
pub open spec fn dns_query_packet(domain: Seq<char>, qtype: u16) -> Seq<u8> {
    seq![0xabu8, 0xcdu8, 0x01u8, 0x00u8, 0x00u8, 0x01u8, 0u8, 0u8, 0u8, 0u8, 0u8, 0u8]
        + labels_bytes(split(domain, '.')) + seq![0u8, (qtype / 256) as u8, (qtype % 256) as u8, 0u8, 1u8]
}

/// The query packet, when it fits in the 512 bytes a DNS message may have.
pub open spec fn dns_query_of(domain: Seq<char>, qtype: u16) -> Option<Seq<u8>> {
    if dns_query_packet(domain, qtype).len() <= 512 {
        Some(dns_query_packet(domain, qtype))
    } else {
        None
    }
}

/// The answer records `dns_parser` reads from a response, if it can parse it.
pub uninterp spec fn dns_answers_of(packet: Seq<u8>) -> Option<Seq<DnsAnswer>>;

pub open spec fn qtype_code(q: QueryKind) -> u16 {
    match q {
        QueryKind::A => 1,
        QueryKind::Aaaa => 28,
    }
}

/// Relies on `dns_parser::Builder`: `new_query(0xabcd, true)` writes the
/// 12-byte header with only the recursion-desired flag set, one
/// `add_question(domain, false, qtype, IN)` adds the labels, a zero byte,
/// type and class and sets the question count to one, and `build()` refuses
/// a packet over 512 bytes. `add_question` panics on a label of 63 bytes or more.
#[verifier::external_body]
fn build_query(domain: &str, qtype: QueryKind) -> (r: Option<Vec<u8>>)
    requires
        forall|i: int|
            0 <= i < split(domain@, '.').len() ==> encode_utf8(#[trigger] split(domain@, '.')[i]).len()
                < 63,
    ensures
        match r {
            Some(b) => dns_query_of(domain@, qtype_code(qtype)) == Some(b@),
            None => dns_query_of(domain@, qtype_code(qtype)) is None,
        },
{
    let qt = match qtype {
        QueryKind::A => dns_parser::QueryType::A,
        QueryKind::Aaaa => dns_parser::QueryType::AAAA,
    };
    let mut b = dns_parser::Builder::new_query(0xabcd, true);
    b.add_question(domain, false, qt, dns_parser::QueryClass::IN);
    b.build().ok()
}

/// Relies on `dns_parser::Packet::parse`: the answer records of a response,
/// each with its class code and its A or AAAA address.
#[verifier::external_body]
fn parse_answers(packet: &[u8]) -> (r: Option<Vec<DnsAnswer>>)
    ensures
        match r {
            Some(a) => dns_answers_of(packet@) == Some(a@),
            None => dns_answers_of(packet@) is None,
        },
{
    let p = dns_parser::Packet::parse(packet).ok()?;
    Some(p.answers.iter().map(|a| DnsAnswer {
        class: a.cls as u16,
        addr: match &a.data {
            dns_parser::RData::A(r) => AnswerAddr::V4(r.0.octets()),
            dns_parser::RData::AAAA(r) => AnswerAddr::V6(r.0.segments()),
            _ => AnswerAddr::Other,
        },
    }).collect())
}

/// Whether every `.`-separated label is under 63 bytes.
pub open spec fn labels_fit(d: Seq<char>) -> bool {
    forall|i: int| 0 <= i < split(d, '.').len() ==> encode_utf8(#[trigger] split(d, '.')[i]).len() < 63
}

/// The DoH query that resolves `host` for `qtype`. Only a domain can be
/// resolved; a label of 63 bytes or more, or a packet over 512 bytes, is refused.
pub fn dns_query(host: &HostName, qtype: QueryKind) -> (r: Result<Vec<u8>, Error>)
    ensures
        match host@ {
            Host::Domain(d) => if !labels_fit(d) {
                r == Err::<Vec<u8>, Error>(Error::Dns)
            } else {
                match dns_query_of(d, qtype_code(qtype)) {
                    Some(b) => r is Ok && r->Ok_0@ == b,
                    None => r == Err::<Vec<u8>, Error>(Error::Dns),
                }
            },
            _ => r == Err::<Vec<u8>, Error>(Error::Config),
        },
{
    let d = match host {
        HostName::Domain(d) => d,
        _ => return Err(Error::Config),
    };
    let c = chars_of(d.as_str());
    let parts = split_chars(c.as_slice(), '.');
    let mut i: usize = 0;
    while i < parts.len()
        invariant
            c@ == d@,
            host@ == Host::Domain(d@),
            parts@.len() == split(d@, '.').len(),
            forall|k: int| 0 <= k < parts@.len() ==> #[trigger] parts@[k]@ == split(d@, '.')[k],
            i <= parts@.len(),
            forall|k: int| 0 <= k < i ==> encode_utf8(#[trigger] split(d@, '.')[k]).len() < 63,
        decreases parts@.len() - i,
    {
        let s = string_of(parts[i].as_slice());
        let b = s.as_str().as_bytes();
        if b.len() >= 63 {
            assert(encode_utf8(split(d@, '.')[i as int]).len() >= 63);
            return Err(Error::Dns);
        }
        i = i + 1;
    }
    match build_query(d.as_str(), qtype) {
        Some(b) => Ok(b),
        None => Err(Error::Dns),
    }
}

/// The first address of the asked type in a DoH response, if any; a
/// response that cannot be parsed is refused.
pub fn first_address(response: &[u8], qtype: QueryKind) -> (r: Result<Option<HostName>, Error>)
    ensures
        match dns_answers_of(response@) {
            None => r == Err::<Option<HostName>, Error>(Error::Dns),
            Some(a) => r is Ok && match r->Ok_0 {
                Some(h) => first_host(a, qtype) == Some(h@),
                None => first_host(a, qtype) is None,
            },
        },
{
    let answers = match parse_answers(response) {
        Some(a) => a,
        None => return Err(Error::Dns),
    };
    Ok(pick_address(&answers, qtype))
}

/// The first answer of class IN and of the asked type, as a host.
pub fn pick_address(answers: &Vec<DnsAnswer>, qtype: QueryKind) -> (r: Option<HostName>)
    ensures
        match r {
            Some(h) => first_host(answers@, qtype) == Some(h@),
            None => first_host(answers@, qtype) is None,
        },
{
    let mut i: usize = 0;
    assert(answers@.subrange(0, answers@.len() as int) =~= answers@);
    while i < answers.len()
        invariant
            i <= answers@.len(),
            first_host(answers@, qtype) == first_host(
                answers@.subrange(i as int, answers@.len() as int),
                qtype,
            ),
        decreases answers@.len() - i,
    {
        let ghost rest = answers@.subrange(i as int, answers@.len() as int);
        assert(rest.subrange(1, rest.len() as int) =~= answers@.subrange(
            i + 1,
            answers@.len() as int,
        ));
        let a = answers[i];
        if a.class == CLASS_IN {
            match (a.addr, qtype) {
                (AnswerAddr::V4(o), QueryKind::A) => return Some(HostName::V4(o)),
                (AnswerAddr::V6(g), QueryKind::Aaaa) => return Some(HostName::from_v6(g)),
                _ => {},
            }
        }
        i = i + 1;
    }
    None
}

} // verus!
