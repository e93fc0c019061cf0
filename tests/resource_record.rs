use simple_dns::{CharacterString, Name, RData, ResourceRecord, A, AAAA, CLASS, NULL, QCLASS, QTYPE};
use std::collections::hash_map::DefaultHasher;
use std::collections::HashMap;
use std::hash::{Hash, Hasher};

fn get_hash(rr: &ResourceRecord) -> u64 {
    let mut hasher = DefaultHasher::default();
    rr.hash(&mut hasher);
    hasher.finish()
}

#[test]
fn test_parse() {
    let bytes = b"\x04_srv\x04_udp\x05local\x00\x00\x01\x00\x01\x00\x00\x00\x0a\x00\x04\xff\xff\xff\xff";
    let rr = ResourceRecord::parse(&bytes[..], 0).unwrap();

    assert_eq!("_srv._udp.local", String::from_utf8(rr.name.text()).unwrap());
    assert_eq!(CLASS::IN, rr.class);
    assert_eq!(10, rr.ttl);
    assert_eq!(4, rr.rdata.len());
    match rr.rdata {
        RData::A(a) => assert_eq!(4294967295, a.address),
        _ => panic!("invalid rdata"),
    }
}

#[test]
fn test_append_to_vec() {
    let mut out = Vec::new();
    let mut name_refs = HashMap::new();
    let rdata = [255u8; 4];

    let rr = ResourceRecord {
        class: CLASS::IN,
        name: Name::new("_srv._udp.local").unwrap(),
        ttl: 10,
        rdata: RData::NULL(NULL::new(0, &rdata).unwrap()),
    };

    assert!(rr.append_to_vec(&mut out, &mut name_refs).is_ok());
    assert_eq!(
        b"\x04_srv\x04_udp\x05local\x00\x00\x00\x00\x01\x00\x00\x00\x0a\x00\x04\xff\xff\xff\xff",
        &out[..]
    );
    assert_eq!(out.len(), rr.len());
}

#[test]
fn test_match_qclass() {
    let rr = ResourceRecord {
        class: CLASS::IN,
        name: Name::new("_srv._udp.local").unwrap(),
        ttl: 10,
        rdata: RData::NULL(NULL::new(0, &[255u8; 4]).unwrap()),
    };

    assert!(rr.match_qclass(QCLASS::ANY));
    assert!(rr.match_qclass(QCLASS::IN));
    assert!(!rr.match_qclass(QCLASS::CS));
}

#[test]
fn test_match_qtype() {
    let rr = ResourceRecord {
        class: CLASS::IN,
        name: Name::new("_srv._udp.local").unwrap(),
        ttl: 10,
        rdata: RData::A(A { address: 0 }),
    };

    assert!(rr.match_qtype(QTYPE::ANY));
    assert!(rr.match_qtype(QTYPE::A));
    assert!(!rr.match_qtype(QTYPE::WKS));
}

#[test]
fn test_match_qtype_for_aaaa() {
    let mut rr = ResourceRecord {
        class: CLASS::IN,
        name: Name::new("_srv._udp.local").unwrap(),
        ttl: 10,
        rdata: RData::A(A { address: 0 }),
    };

    assert!(rr.match_qtype(QTYPE::A));
    assert!(rr.match_qtype(QTYPE::AAAA));

    rr.rdata = RData::AAAA(AAAA { address: 0 });

    assert!(rr.match_qtype(QTYPE::A));
    assert!(rr.match_qtype(QTYPE::AAAA));
}

#[test]
fn test_eq() {
    let a = ResourceRecord::new(
        Name::new("_srv.local").unwrap(),
        CLASS::IN,
        10,
        RData::TXT(CharacterString::new(b"text").unwrap()),
    );
    let b = ResourceRecord::new(
        Name::new("_srv.local").unwrap(),
        CLASS::IN,
        10,
        RData::TXT(CharacterString::new(b"text").unwrap()),
    );

    assert_eq!(a, b);
    assert_eq!(get_hash(&a), get_hash(&b));
}

#[test]
fn test_hash_ignore_ttl() {
    let a = ResourceRecord::new(
        Name::new("_srv.local").unwrap(),
        CLASS::IN,
        10,
        RData::TXT(CharacterString::new(b"text").unwrap()),
    );
    let mut b = ResourceRecord::new(
        Name::new("_srv.local").unwrap(),
        CLASS::IN,
        10,
        RData::TXT(CharacterString::new(b"text").unwrap()),
    );

    assert_eq!(get_hash(&a), get_hash(&b));
    b.ttl = 50;

    assert_eq!(get_hash(&a), get_hash(&b));
    assert_ne!(a, b);
}
