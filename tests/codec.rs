use simple_dns::{
    CharacterString, Name, RData, ResourceRecord, SimpleDnsError, A, AAAA, CLASS, NULL, QCLASS,
    QTYPE,
};
use std::collections::HashMap;

const SRV_UDP_LOCAL: &[u8] = b"\x04_srv\x04_udp\x05local\x00";
const SCENARIO: &[u8] =
    b"\x04_srv\x04_udp\x05local\x00\x00\x01\x00\x01\x00\x00\x00\x0a\x00\x04\xff\xff\xff\xff";

fn record(ttl: u32, rdata: RData) -> ResourceRecord {
    ResourceRecord::new(Name::from_wire(SRV_UDP_LOCAL).unwrap(), CLASS::IN, ttl, rdata)
}

fn encode(rr: &ResourceRecord) -> Vec<u8> {
    let mut out = Vec::new();
    let mut name_refs = HashMap::new();
    assert!(rr.append_to_vec(&mut out, &mut name_refs).is_ok());
    out
}

fn round_trip(rr: &ResourceRecord) {
    let bytes = encode(rr);
    assert_eq!(bytes.len(), rr.len());
    let back = ResourceRecord::parse(&bytes, 0).unwrap();
    assert_eq!(&back, rr);
}

#[test]
fn scenario_reencodes_identically() {
    let rr = ResourceRecord::parse(SCENARIO, 0).unwrap();
    assert_eq!(rr.rdata, RData::A(A { address: 4294967295 }));
    assert_eq!(encode(&rr), SCENARIO.to_vec());
}

#[test]
fn round_trip_every_variant() {
    round_trip(&record(10, RData::A(A { address: 0x0102_0304 })));
    round_trip(&record(0, RData::AAAA(AAAA { address: 0x2001_0db8_0000_0000_0000_0000_0000_0001 })));
    round_trip(&record(u32::MAX, RData::TXT(CharacterString::new(b"hello world").unwrap())));
    round_trip(&record(7, RData::TXT(CharacterString::new(b"").unwrap())));
    round_trip(&record(7, RData::TXT(CharacterString::new(&[b'x'; 255]).unwrap())));
    round_trip(&record(3600, RData::NULL(NULL::new(99, &[1, 2, 3]).unwrap())));
    round_trip(&record(3600, RData::NULL(NULL::new(10, &[]).unwrap())));
}

#[test]
fn encodes_big_endian_fields() {
    let rr = ResourceRecord::new(
        Name::from_wire(b"\x01a\x00").unwrap(),
        CLASS::CH,
        0x0102_0304,
        RData::A(A { address: 0x0a0b_0c0d }),
    );
    assert_eq!(
        encode(&rr),
        b"\x01a\x00\x00\x01\x00\x03\x01\x02\x03\x04\x00\x04\x0a\x0b\x0c\x0d".to_vec()
    );
    assert_eq!(rr.len(), 17);
}

#[test]
fn decodes_big_endian_address() {
    let bytes = b"\x00\x00\x1c\x00\x01\x00\x00\x00\x01\x00\x10\x00\x01\x02\x03\x04\x05\x06\x07\x08\x09\x0a\x0b\x0c\x0d\x0e\x0f";
    let rr = ResourceRecord::parse(bytes, 0).unwrap();
    assert_eq!(rr.rdata, RData::AAAA(AAAA { address: 0x0001_0203_0405_0607_0809_0a0b_0c0d_0e0f }));
    assert_eq!(rr.ttl, 1);
    assert_eq!(rr.len(), 1 + 10 + 16);
}

#[test]
fn every_truncation_is_reported() {
    for end in SRV_UDP_LOCAL.len()..SCENARIO.len() {
        assert_eq!(
            ResourceRecord::parse(&SCENARIO[..end], 0),
            Err(SimpleDnsError::InsufficientData)
        );
    }
}

#[test]
fn truncated_name_is_reported() {
    for end in 0..SRV_UDP_LOCAL.len() {
        assert_eq!(ResourceRecord::parse(&SCENARIO[..end], 0), Err(SimpleDnsError::InvalidName));
    }
}

#[test]
fn declared_length_beyond_buffer_is_reported() {
    let bytes = b"\x00\x00\x01\x00\x01\x00\x00\x00\x0a\xff\xff\x01\x02\x03\x04";
    assert_eq!(ResourceRecord::parse(bytes, 0), Err(SimpleDnsError::InsufficientData));
}

#[test]
fn unknown_class_is_reported() {
    let bytes = b"\x00\x00\x01\x00\x05\x00\x00\x00\x0a\x00\x04\x01\x02\x03\x04";
    assert_eq!(ResourceRecord::parse(bytes, 0), Err(SimpleDnsError::InvalidClass(5)));
}

#[test]
fn payload_decoder_errors_are_reported() {
    let short = b"\x00\x00\x01\x00\x01\x00\x00\x00\x0a\x00\x03\x01\x02\x03";
    assert_eq!(ResourceRecord::parse(short, 0), Err(SimpleDnsError::InvalidRData));
    let txt = b"\x00\x00\x10\x00\x01\x00\x00\x00\x0a\x00\x00";
    assert_eq!(ResourceRecord::parse(txt, 0), Err(SimpleDnsError::InvalidRData));
    let txt = b"\x00\x00\x10\x00\x01\x00\x00\x00\x0a\x00\x02\x05a";
    assert_eq!(ResourceRecord::parse(txt, 0), Err(SimpleDnsError::InvalidRData));
}

#[test]
fn malformed_names_are_reported() {
    assert_eq!(ResourceRecord::parse(b"\x80abc", 0), Err(SimpleDnsError::InvalidName));
    // a pointer that points at itself
    assert_eq!(ResourceRecord::parse(b"\xc0\x00", 0), Err(SimpleDnsError::InvalidName));
    assert_eq!(Name::from_wire(b"\x01a").unwrap_err(), SimpleDnsError::InvalidName);
    assert_eq!(Name::from_wire(b"\x01a\x00\x00").unwrap_err(), SimpleDnsError::InvalidName);
    let mut long = Vec::new();
    for _ in 0..5 {
        long.push(63u8);
        long.extend_from_slice(&[b'x'; 63]);
    }
    long.push(0);
    assert_eq!(Name::from_wire(&long).unwrap_err(), SimpleDnsError::InvalidName);
}

#[test]
fn payload_within_longer_declared_length_is_accepted() {
    let long = b"\x00\x00\x01\x00\x01\x00\x00\x00\x0a\x00\x05\x01\x02\x03\x04\x05";
    let rr = ResourceRecord::parse(long, 0).unwrap();
    assert_eq!(rr.rdata, RData::A(A { address: 0x0102_0304 }));
}

#[test]
fn raw_payload_refuses_typed_codes() {
    for code in [1u16, 16, 28] {
        assert_eq!(NULL::new(code, &[1, 2, 3, 4]).unwrap_err(), SimpleDnsError::InvalidRData);
    }
    let n = NULL::new(0, &[1, 2]).unwrap();
    assert_eq!(n.code(), 0);
    assert_eq!(n.bytes(), &[1u8, 2][..]);
}

#[test]
fn oversized_payloads_are_refused() {
    assert_eq!(
        CharacterString::new(&[0u8; 256]).unwrap_err(),
        SimpleDnsError::InvalidCharacterString
    );
    assert_eq!(NULL::new(10, &vec![0u8; 65536]).unwrap_err(), SimpleDnsError::InvalidRData);
    assert!(NULL::new(10, &vec![0u8; 65535]).is_ok());
}

#[test]
fn second_record_name_is_compressed() {
    let first = record(10, RData::A(A { address: 1 }));
    let second = record(20, RData::A(A { address: 2 }));
    let mut out = Vec::new();
    let mut name_refs = HashMap::new();
    first.append_to_vec(&mut out, &mut name_refs).unwrap();
    let at = out.len();
    second.append_to_vec(&mut out, &mut name_refs).unwrap();
    assert_eq!(&out[at..at + 2], b"\xc0\x00");
    assert_eq!(out.len(), at + 2 + 14);
    assert_eq!(ResourceRecord::parse(&out, 0).unwrap(), first);
    assert_eq!(ResourceRecord::parse(&out, at).unwrap(), second);
}

#[test]
fn class_matching() {
    let rr = ResourceRecord::new(
        Name::from_wire(SRV_UDP_LOCAL).unwrap(),
        CLASS::HS,
        1,
        RData::A(A { address: 0 }),
    );
    assert!(rr.match_qclass(QCLASS::ANY));
    assert!(rr.match_qclass(QCLASS::HS));
    assert!(!rr.match_qclass(QCLASS::IN));
    assert!(!rr.match_qclass(QCLASS::CS));
    assert!(!rr.match_qclass(QCLASS::CH));
}

#[test]
fn type_matching() {
    let all = [
        QTYPE::A, QTYPE::NS, QTYPE::MD, QTYPE::MF, QTYPE::CNAME, QTYPE::SOA, QTYPE::MB,
        QTYPE::MG, QTYPE::MR, QTYPE::NULL, QTYPE::WKS, QTYPE::PTR, QTYPE::HINFO, QTYPE::MINFO,
        QTYPE::MX, QTYPE::TXT, QTYPE::AAAA, QTYPE::SRV, QTYPE::AXFR, QTYPE::MAILB, QTYPE::MAILA,
        QTYPE::ANY,
    ];
    let a = record(1, RData::A(A { address: 0 }));
    let aaaa = record(1, RData::AAAA(AAAA { address: 0 }));
    let txt = record(1, RData::TXT(CharacterString::new(b"t").unwrap()));
    for q in all {
        let address = q == QTYPE::A || q == QTYPE::AAAA || q == QTYPE::ANY;
        assert_eq!(a.match_qtype(q), address);
        assert_eq!(aaaa.match_qtype(q), address);
        assert_eq!(txt.match_qtype(q), q == QTYPE::TXT || q == QTYPE::ANY);
    }
    let mx = record(1, RData::NULL(NULL::new(15, &[0, 1, 0]).unwrap()));
    assert!(mx.match_qtype(QTYPE::MX));
    assert!(!mx.match_qtype(QTYPE::NS));
}

#[test]
fn identity_ignores_ttl() {
    let a = record(10, RData::A(A { address: 7 }));
    let b = record(50, RData::A(A { address: 7 }));
    assert_ne!(a, b);
    assert_eq!(a.identity_bytes(), b.identity_bytes());
    let c = record(10, RData::A(A { address: 8 }));
    assert_ne!(a.identity_bytes(), c.identity_bytes());
}

#[test]
fn names_from_text() {
    assert_eq!(Name::new("_srv._udp.local").unwrap().as_bytes(), SRV_UDP_LOCAL);
    assert_eq!(Name::new("").unwrap().as_bytes(), b"\x00");
    assert_eq!(Name::new("a..b").unwrap_err(), SimpleDnsError::InvalidName);
    assert_eq!(Name::new(".a").unwrap_err(), SimpleDnsError::InvalidName);
    assert_eq!(Name::new("a.").unwrap_err(), SimpleDnsError::InvalidName);
    let label63 = "x".repeat(63);
    assert!(Name::new(&label63).is_ok());
    assert_eq!(Name::new(&"x".repeat(64)).unwrap_err(), SimpleDnsError::InvalidName);
    let long = vec![label63.as_str(); 4].join(".");
    assert_eq!(long.len(), 255);
    assert_eq!(Name::new(&long).unwrap_err(), SimpleDnsError::InvalidName);
    let fits = vec![label63.as_str(), label63.as_str(), label63.as_str(), "x".repeat(61).as_str()].join(".");
    assert_eq!(Name::new(&fits).unwrap().len(), 255);
}

#[test]
fn codes_and_text() {
    assert_eq!(CLASS::from_code(3), Ok(CLASS::CH));
    assert_eq!(CLASS::from_code(0), Err(SimpleDnsError::InvalidClass(0)));
    assert_eq!(CLASS::IN.code(), 1);
    assert_eq!(QCLASS::ANY.code(), 255);
    assert_eq!(QTYPE::AAAA.code(), 28);
    assert_eq!(QTYPE::SRV.code(), 33);
    let n = Name::from_wire(SRV_UDP_LOCAL).unwrap();
    assert_eq!(n.text(), b"_srv._udp.local".to_vec());
    assert_eq!(n.as_bytes(), SRV_UDP_LOCAL);
    assert_eq!(Name::from_wire(b"\x00").unwrap().text(), Vec::<u8>::new());
}

#[test]
fn encodes_ipv6_address_big_endian() {
    let rr = ResourceRecord::new(
        Name::new("").unwrap(),
        CLASS::IN,
        0,
        RData::AAAA(AAAA { address: 0x0001_0203_0405_0607_0809_0a0b_0c0d_0e0f }),
    );
    assert_eq!(
        encode(&rr),
        b"\x00\x00\x1c\x00\x01\x00\x00\x00\x00\x00\x10\x00\x01\x02\x03\x04\x05\x06\x07\x08\x09\x0a\x0b\x0c\x0d\x0e\x0f".to_vec()
    );
}

#[test]
fn pointer_to_name_running_past_itself_is_refused() {
    let mut data = vec![20u8, 0xc0, 0x00, 0x00, 0x0a, 0x00, 0x01, 0, 0, 0, 0, 0x00, 0x00];
    data.extend_from_slice(b"xxxxxxxx");
    data.push(0);
    assert_eq!(data.len(), 22);
    assert_eq!(ResourceRecord::parse(&data, 1), Err(SimpleDnsError::InvalidName));
    assert_eq!(ResourceRecord::parse(&data[..13], 1), Err(SimpleDnsError::InvalidName));
}

#[test]
fn bytes_after_payload_do_not_change_the_record() {
    let mut data = SCENARIO.to_vec();
    let first = ResourceRecord::parse(&data, 0).unwrap();
    data.extend_from_slice(b"\x01\x02\x03");
    assert_eq!(ResourceRecord::parse(&data, 0).unwrap(), first);
}

#[test]
fn existing_dictionary_entry_is_kept() {
    let rr = record(10, RData::A(A { address: 1 }));
    let key = rr.name.key();
    let mut out = Vec::new();
    let mut name_refs = HashMap::new();
    name_refs.insert(key, 0x5000usize);
    rr.append_to_vec(&mut out, &mut name_refs).unwrap();
    assert_eq!(name_refs.get(&key), Some(&0x5000usize));
    assert_eq!(name_refs.len(), 1);
    assert_eq!(out, encode(&rr));
}
