use local_proxy::addr::HostName;
use local_proxy::dns::{doh_lookup, doh_store, dns_query, first_address, pick_address, AnswerAddr, DnsAnswer, DnsCache, DohLookup, QueryKind};
use local_proxy::error::Error;

#[test]
fn queries_differing_in_id_share_a_cache_entry() {
    let mut cache = DnsCache::new(16);
    let q1 = vec![0x12, 0x34, 1, 0, 0, 1, 9, 9];
    let q2 = vec![0x56, 0x78, 1, 0, 0, 1, 9, 9];
    let (key, id) = match doh_lookup(&cache, &q1).unwrap() {
        DohLookup::Miss { key, id } => (key, id),
        DohLookup::Hit(_) => panic!("empty cache hit"),
    };
    assert_eq!(key, vec![0xab, 0xcd, 1, 0, 0, 1, 9, 9]);
    assert_eq!(id, (0x12, 0x34));
    let resp = doh_store(&mut cache, key, id, vec![0xab, 0xcd, 0x81, 0x80, 7]).unwrap();
    assert_eq!(resp, vec![0x12, 0x34, 0x81, 0x80, 7]);
    match doh_lookup(&cache, &q2).unwrap() {
        DohLookup::Hit(r) => assert_eq!(r, vec![0x56, 0x78, 0x81, 0x80, 7]),
        DohLookup::Miss { .. } => panic!("second query missed the cache"),
    }
}

#[test]
fn short_packets_are_refused() {
    let mut cache = DnsCache::new(16);
    assert!(matches!(doh_lookup(&cache, &vec![1]), Err(Error::Dns)));
    assert!(matches!(doh_store(&mut cache, vec![0xab, 0xcd], (1, 2), vec![9]), Err(Error::Dns)));
}

#[test]
fn zero_capacity_caches_nothing() {
    let mut cache = DnsCache::new(0);
    let _ = doh_store(&mut cache, vec![0xab, 0xcd, 5], (1, 2), vec![0, 0, 3]).unwrap();
    assert!(matches!(doh_lookup(&cache, &vec![1, 2, 5]).unwrap(), DohLookup::Miss { .. }));
}

#[test]
fn query_building() {
    let q = dns_query(&HostName::Domain("example.com".to_string()), QueryKind::A).unwrap();
    let mut expected = vec![0xab, 0xcd, 0x01, 0x00, 0, 1, 0, 0, 0, 0, 0, 0];
    expected.extend_from_slice(&[7, b'e', b'x', b'a', b'm', b'p', b'l', b'e', 3, b'c', b'o', b'm', 0, 0, 1, 0, 1]);
    assert_eq!(q, expected);
    let q6 = dns_query(&HostName::Domain("a.b".to_string()), QueryKind::Aaaa).unwrap();
    assert_eq!(&q6[q6.len() - 4..], &[0, 28, 0, 1]);
    assert!(matches!(dns_query(&HostName::V4([1, 1, 1, 1]), QueryKind::A), Err(Error::Config)));
    let long = format!("{}.com", "a".repeat(63));
    assert!(matches!(dns_query(&HostName::Domain(long), QueryKind::A), Err(Error::Dns)));
}

#[test]
fn answer_selection() {
    let answers = vec![
        DnsAnswer { class: 3, addr: AnswerAddr::V4([9, 9, 9, 9]) },
        DnsAnswer { class: 1, addr: AnswerAddr::Other },
        DnsAnswer { class: 1, addr: AnswerAddr::V6([0x2001, 0, 0, 0, 0, 0, 0, 1]) },
        DnsAnswer { class: 1, addr: AnswerAddr::V4([1, 2, 3, 4]) },
    ];
    assert!(matches!(pick_address(&answers, QueryKind::A), Some(HostName::V4([1, 2, 3, 4]))));
    assert!(matches!(pick_address(&answers, QueryKind::Aaaa), Some(HostName::V6(g)) if g[0] == 0x2001));
    assert!(pick_address(&answers[..2].to_vec(), QueryKind::A).is_none());
}

#[test]
fn response_parsing() {
    let mut p = vec![0xab, 0xcd, 0x81, 0x80, 0, 1, 0, 1, 0, 0, 0, 0];
    p.extend_from_slice(&[1, b'a', 0, 0, 1, 0, 1]);
    p.extend_from_slice(&[0xc0, 12, 0, 1, 0, 1, 0, 0, 0, 60, 0, 4, 10, 0, 0, 7]);
    assert!(matches!(first_address(&p, QueryKind::A), Ok(Some(HostName::V4([10, 0, 0, 7])))));
    assert!(matches!(first_address(&p, QueryKind::Aaaa), Ok(None)));
    assert!(matches!(first_address(&[1, 2, 3], QueryKind::A), Err(Error::Dns)));
}

#[test]
fn oversized_query_is_refused() {
    let name = vec!["a".repeat(62); 9].join(".");
    assert!(matches!(dns_query(&HostName::Domain(name), QueryKind::A), Err(Error::Dns)));
}

#[test]
fn newest_entry_survives_eviction() {
    let mut cache = DnsCache::new(1);
    doh_store(&mut cache, vec![0xab, 0xcd, 1], (0, 1), vec![0, 0, 1]).unwrap();
    doh_store(&mut cache, vec![0xab, 0xcd, 2], (0, 2), vec![0, 0, 2]).unwrap();
    assert!(matches!(doh_lookup(&cache, &vec![7, 7, 2]).unwrap(), DohLookup::Hit(r) if r == vec![7, 7, 2]));
    assert!(matches!(doh_lookup(&cache, &vec![7, 7, 1]).unwrap(), DohLookup::Miss { .. }));
}
