//! One resource record: decoding, encoding, length, query matching, and
//! identity.
use crate::codes::{
    class_code, class_of_code, qclass_code, qtype_code, SimpleDnsError, CLASS, QCLASS, QTYPE,
};
use crate::name::{
    earlier_offset, lemma_name_from_limit, lemma_name_from_ok, lemma_name_from_plain,
    lemma_name_from_prefix, name_emit, name_from, name_ok,
    refs_after, Name, MAX_NAME_LEN,
};
use crate::rdata::{
    lemma_rdata_from_prefix, rdata_canonical, rdata_from, rdata_ok, rdata_type, rdata_wire, RData, RDataModel, TYPE_A,
    TYPE_AAAA, TYPE_TXT,
};
use crate::wire::{
    be_bytes, be_u16_bytes, be_u32_bytes, be_value, copy_range, lemma_be_bytes_len,
    lemma_be_round_trip, lemma_pow256_values, lemma_prefix_range, read_be_u16, read_be_u32,
};
use std::collections::HashMap;
use vstd::std_specs::cmp::PartialEqSpec;
use vstd::prelude::*;

verus! {

/// Bytes between the name and the payload: type, class, ttl and payload length.
pub const FIXED_LEN: usize = 10;

/// What a record holds, as plain values.
pub struct RecordModel {
    pub name: Seq<u8>,
    pub class: CLASS,
    pub ttl: u32,
    pub rdata: RDataModel,
}

/// What every record keeps: a well-formed name, and a payload whose length
/// fits its 16-bit field and whose variant agrees with its type code.
pub open spec fn record_ok(m: RecordModel) -> bool {
    name_ok(m.name) && rdata_ok(m.rdata) && rdata_canonical(m.rdata)
}

/// The number of bytes a record takes with its name written in full.
pub open spec fn record_len(m: RecordModel) -> nat {
    m.name.len() + rdata_wire(m.rdata).len() + FIXED_LEN as nat
}

/// The fixed fields that follow the name, big-endian.
pub open spec fn record_header(m: RecordModel) -> Seq<u8> {
    be_bytes(rdata_type(m.rdata) as nat, 2) + be_bytes(class_code(m.class) as nat, 2) + be_bytes(
        m.ttl as nat,
        4,
    ) + be_bytes(rdata_wire(m.rdata).len(), 2)
}

/// The bytes of a record with its name written in full.
pub open spec fn record_wire(m: RecordModel) -> Seq<u8> {
    m.name + record_header(m) + rdata_wire(m.rdata)
}

/// The bytes that a record's hash is computed from: its name, class, type and
/// payload, and not its ttl.
pub open spec fn identity_wire(m: RecordModel) -> Seq<u8> {
    m.name + be_bytes(class_code(m.class) as nat, 2) + be_bytes(rdata_type(m.rdata) as nat, 2)
        + rdata_wire(m.rdata)
}

/// The record that starts at `pos` in the message `data`, or the error that
/// reading it meets first.
pub open spec fn record_from(data: Seq<u8>, pos: int) -> Result<RecordModel, SimpleDnsError> {
    match name_from(data, pos, data.len() as int, MAX_NAME_LEN as int) {
        None => Err(SimpleDnsError::InvalidName),
        Some((name, off)) => {
            if off + FIXED_LEN > data.len() {
                Err(SimpleDnsError::InsufficientData)
            } else {
                let type_code = be_value(data.subrange(off, off + 2)) as u16;
                let class_code = be_value(data.subrange(off + 2, off + 4)) as u16;
                let ttl = be_value(data.subrange(off + 4, off + 8)) as u32;
                let rdlen = be_value(data.subrange(off + 8, off + 10));
                match class_of_code(class_code) {
                    None => Err(SimpleDnsError::InvalidClass(class_code)),
                    Some(class) => {
                        let start = off + FIXED_LEN;
                        let end = start + rdlen;
                        if end > data.len() {
                            Err(SimpleDnsError::InsufficientData)
                        } else {
                            match rdata_from(data, start, end, type_code) {
                                None => Err(SimpleDnsError::InvalidRData),
                                Some(rdata) => Ok(RecordModel { name, class, ttl, rdata }),
                            }
                        }
                    },
                }
            }
        },
    }
}

/// Where the record that starts at `pos` in `data` ends, by its declared
/// payload length.
pub open spec fn record_end(data: Seq<u8>, pos: int) -> int {
    match name_from(data, pos, data.len() as int, MAX_NAME_LEN as int) {
        Some((_, off)) => off + FIXED_LEN + be_value(data.subrange(off + 8, off + 10)),
        None => pos,
    }
}

/// Whether a question of type `q` is answered by a record of type `code`:
/// the wildcard matches everything, and the two address types match each other.
pub open spec fn qtype_matches(q: QTYPE, code: u16) -> bool {
    match q {
        QTYPE::A | QTYPE::AAAA => code == TYPE_A || code == TYPE_AAAA,
        QTYPE::ANY => true,
        _ => code == qtype_code(q),
    }
}

/// An entry of the answer, authority or additional section of a message.
#[derive(Debug)]
pub struct ResourceRecord {
    /// The name that the record pertains to.
    pub name: Name,
    /// The class of the payload.
    pub class: CLASS,
    /// How many seconds the record may be cached; zero means that it is good
    /// for the transaction in progress only.
    pub ttl: u32,
    /// The payload, whose variant gives the record's type.
    pub rdata: RData,
}

impl View for ResourceRecord {
    type V = RecordModel;

    open spec fn view(&self) -> RecordModel {
        RecordModel { name: self.name@, class: self.class, ttl: self.ttl, rdata: self.rdata@ }
    }
}

impl ResourceRecord {
    /// A record of the given fields.
    pub fn new(name: Name, class: CLASS, ttl: u32, rdata: RData) -> (r: Self)
        ensures
            r@ == (RecordModel { name: name@, class, ttl, rdata: rdata@ }),
    {
        ResourceRecord { name, class, ttl, rdata }
    }

    /// Whether the record answers a question of class `qclass`.
    pub fn match_qclass(&self, qclass: QCLASS) -> (r: bool)
        ensures
            r == (qclass == QCLASS::ANY || qclass_code(qclass) == class_code(self.class)),
    {
        match qclass {
            QCLASS::ANY => true,
            _ => self.class.code() == qclass.code(),
        }
    }

    /// Whether the record answers a question of type `qtype`; the types `A`
    /// and `AAAA` match each other.
    pub fn match_qtype(&self, qtype: QTYPE) -> (r: bool)
        ensures
            r == qtype_matches(qtype, rdata_type(self.rdata@)),
    {
        let type_code = self.rdata.type_code();
        match qtype {
            QTYPE::A | QTYPE::AAAA => type_code == TYPE_A || type_code == TYPE_AAAA,
            QTYPE::ANY => true,
            _ => type_code == qtype.code(),
        }
    }

    /// The number of bytes that the record takes with its name written in full.
    pub fn len(&self) -> (r: usize)
        ensures
            r == record_len(self@),
            record_ok(self@),
    {
        self.name.len() + self.rdata.len() + FIXED_LEN
    }

    /// The bytes that identify the record for caching: its name, class, type
    /// and payload, without its ttl.
    pub fn identity_bytes(&self) -> (r: Vec<u8>)
        ensures
            r@ == identity_wire(self@),
    {
        let n = self.name.as_bytes();
        let mut out = copy_range(n, 0, n.len());
        assert(out@ =~= self.name@);
        let mut b = be_u16_bytes(self.class.code());
        out.append(&mut b);
        let mut b = be_u16_bytes(self.rdata.type_code());
        out.append(&mut b);
        self.rdata.append_to_vec(&mut out);
        assert(out@ =~= identity_wire(self@));
        out
    }

    /// Decodes the record whose name starts at `position` in the message
    /// `data`. The payload decoder sees the message up to the end of the
    /// declared payload, so that it can follow pointers to earlier names.
    pub fn parse(data: &[u8], position: usize) -> (r: Result<ResourceRecord, SimpleDnsError>)
        ensures
            match record_from(data@, position as int) {
                Ok(m) => r matches Ok(rr) && rr@ == m,
                Err(e) => r == Err::<ResourceRecord, SimpleDnsError>(e),
            },
    {
        let (name, offset) = match Name::parse(data, position) {
            Ok(x) => x,
            Err(e) => return Err(e),
        };
        proof {
            lemma_name_from_ok(data@, position as int, data@.len() as int, MAX_NAME_LEN as int);
        }
        if data.len() - offset < FIXED_LEN {
            return Err(SimpleDnsError::InsufficientData);
        }
        let type_code = read_be_u16(data, offset);
        let class_code = read_be_u16(data, offset + 2);
        let ttl = read_be_u32(data, offset + 4);
        let rdlen = read_be_u16(data, offset + 8) as usize;
        let class = match CLASS::from_code(class_code) {
            Ok(c) => c,
            Err(e) => return Err(e),
        };
        let start = offset + FIXED_LEN;
        if data.len() - start < rdlen {
            return Err(SimpleDnsError::InsufficientData);
        }
        let rdata = match RData::parse(data, start, start + rdlen, type_code) {
            Ok(d) => d,
            Err(e) => return Err(e),
        };
        Ok(ResourceRecord { name, class, ttl, rdata })
    }

    /// Appends the record to `out`, compressing its name through `name_refs`,
    /// the offsets of the names already written in this message.
    pub fn append_to_vec(&self, out: &mut Vec<u8>, name_refs: &mut HashMap<u64, usize>) -> (r:
        Result<(), SimpleDnsError>)
        ensures
            r is Ok,
            final(out)@ == old(out)@ + name_emit(self.name@, old(name_refs)@) + record_header(
                self@,
            ) + rdata_wire(self.rdata@),
            final(name_refs)@ == refs_after(self.name@, old(name_refs)@, old(out)@.len() as int),
            earlier_offset(self.name@, old(name_refs)@) is None ==> final(out)@ == old(out)@
                + record_wire(self@),
            earlier_offset(self.name@, old(name_refs)@) is None ==> final(out)@.len() == old(
                out,
            )@.len() + record_len(self@),
    {
        self.name.append_to_vec(out, name_refs);
        let ghost after_name = out@;
        let mut b = be_u16_bytes(self.rdata.type_code());
        out.append(&mut b);
        let mut b = be_u16_bytes(self.class.code());
        out.append(&mut b);
        let mut b = be_u32_bytes(self.ttl);
        out.append(&mut b);
        let l = self.rdata.len();
        let mut b = be_u16_bytes(l as u16);
        out.append(&mut b);
        self.rdata.append_to_vec(out);
        assert(final(out)@ =~= after_name + record_header(self@) + rdata_wire(self.rdata@));
        assert(final(out)@ =~= old(out)@ + name_emit(self.name@, old(name_refs)@) + record_header(
            self@,
        ) + rdata_wire(self.rdata@));
        proof {
            if earlier_offset(self.name@, old(name_refs)@) is None {
                assert(final(out)@ =~= old(out)@ + record_wire(self@));
                lemma_wire_len(self@);
            }
        }
        Ok(())
    }
}

impl PartialEq for ResourceRecord {
    fn eq(&self, o: &ResourceRecord) -> (r: bool) {
        self.name.eq(&o.name) && self.class == o.class && self.ttl == o.ttl && self.rdata.eq(
            &o.rdata,
        )
    }
}

impl vstd::std_specs::cmp::PartialEqSpecImpl for ResourceRecord {
    open spec fn obeys_eq_spec() -> bool {
        true
    }

    open spec fn eq_spec(&self, o: &ResourceRecord) -> bool {
        self@ == o@
    }
}

impl Eq for ResourceRecord {
}

/// Relies on std's `Hasher::write`: it feeds `bytes` to the hasher.
#[verifier::external_body]
fn hasher_write<H: core::hash::Hasher>(state: &mut H, bytes: &[u8]) {
    state.write(bytes)
}

impl core::hash::Hash for ResourceRecord {
    /// Hashes the record's identity bytes and nothing else, so that the ttl
    /// takes no part in the hash.
    fn hash<H: core::hash::Hasher>(&self, state: &mut H) {
        let b = self.identity_bytes();
        hasher_write(state, b.as_slice());
    }
}

/// Every record's bytes, with its name written in full, number exactly its
/// reported length.
pub proof fn lemma_wire_len(m: RecordModel)
    ensures
        record_wire(m).len() == record_len(m),
{
    lemma_be_bytes_len(rdata_type(m.rdata) as nat, 2);
    lemma_be_bytes_len(class_code(m.class) as nat, 2);
    lemma_be_bytes_len(m.ttl as nat, 4);
    lemma_be_bytes_len(rdata_wire(m.rdata).len(), 2);
}

/// A payload's bytes fit the 16-bit length field.
pub proof fn lemma_rdata_wire_fits(m: RDataModel)
    requires
        rdata_ok(m),
    ensures
        rdata_wire(m).len() < 0x10000,
{
    match m {
        RDataModel::A(a) => lemma_be_bytes_len(a as nat, 4),
        RDataModel::AAAA(a) => lemma_be_bytes_len(a as nat, 16),
        _ => {},
    }
}

/// Decoding the bytes of a record whose name is written in full gives the
/// record back, wherever in a message it stands and whatever follows it.
pub proof fn lemma_round_trip(m: RecordModel, before: Seq<u8>, after: Seq<u8>)
    requires
        record_ok(m),
    ensures
        record_from(before + record_wire(m) + after, before.len() as int) == Ok::<
            RecordModel,
            SimpleDnsError,
        >(m),
        record_wire(m).len() == record_len(m),
{
    let data = before + record_wire(m) + after;
    let p = before.len() as int;
    let n = m.name.len() as int;
    lemma_wire_len(m);
    lemma_rdata_wire_fits(m.rdata);
    lemma_pow256_values();
    assert(data.subrange(p, p + n) =~= m.name);
    lemma_name_from_plain(data, p, m.name, MAX_NAME_LEN as int);
    let off = p + n;
    let tc = rdata_type(m.rdata);
    let rw = rdata_wire(m.rdata);
    let rdlen = rw.len();
    lemma_be_round_trip(tc as nat, 2);
    lemma_be_round_trip(class_code(m.class) as nat, 2);
    lemma_be_round_trip(m.ttl as nat, 4);
    lemma_be_round_trip(rdlen, 2);
    assert(data.subrange(off, off + 2) =~= be_bytes(tc as nat, 2));
    assert(data.subrange(off + 2, off + 4) =~= be_bytes(class_code(m.class) as nat, 2));
    assert(data.subrange(off + 4, off + 8) =~= be_bytes(m.ttl as nat, 4));
    assert(data.subrange(off + 8, off + 10) =~= be_bytes(rdlen, 2));
    let start = off + 10;
    let end = start + rdlen;
    assert(data.subrange(start, end) =~= rw);
    match m.rdata {
        RDataModel::A(a) => {
            lemma_be_round_trip(a as nat, 4);
        },
        RDataModel::AAAA(a) => {
            lemma_be_round_trip(a as nat, 16);
        },
        RDataModel::TXT(t) => {
            assert(data[start] == rw[0]);
            assert(data.subrange(start + 1, start + 1 + t.len()) =~= t);
        },
        RDataModel::NULL(_, d) => {},
    }
}

/// The bytes at or beyond the end of a record's declared payload take no
/// part in decoding it: a message that agrees with `data` up to that end
/// decodes to the same record.
pub proof fn lemma_decode_ignores_later_bytes(data: Seq<u8>, data2: Seq<u8>, pos: int)
    requires
        record_from(data, pos) is Ok,
        record_end(data, pos) <= data2.len(),
        data2.subrange(0, record_end(data, pos)) == data.subrange(0, record_end(data, pos)),
    ensures
        record_from(data2, pos) == record_from(data, pos),
{
    let b = MAX_NAME_LEN as int;
    let (w, off) = name_from(data, pos, data.len() as int, b).unwrap();
    lemma_name_from_ok(data, pos, data.len() as int, b);
    let end = record_end(data, pos);
    lemma_name_from_limit(data, pos, data.len() as int, end, b);
    lemma_name_from_prefix(data, data2, pos, end, b);
    lemma_name_from_ok(data2, pos, end, b);
    lemma_name_from_limit(data2, pos, end, data2.len() as int, b);
    lemma_prefix_range(data, data2, end, off, off + 2);
    lemma_prefix_range(data, data2, end, off + 2, off + 4);
    lemma_prefix_range(data, data2, end, off + 4, off + 8);
    lemma_prefix_range(data, data2, end, off + 8, off + 10);
    let tc = be_value(data.subrange(off, off + 2)) as u16;
    lemma_rdata_from_prefix(data, data2, off + FIXED_LEN, end, tc);
}

/// Cutting the bytes of a record off anywhere after its name and before its
/// end, inside the fixed fields or inside the declared payload, gives
/// `InsufficientData`.
pub proof fn lemma_truncated(m: RecordModel, before: Seq<u8>, k: int)
    requires
        record_ok(m),
        m.name.len() <= k < record_len(m),
    ensures
        record_from((before + record_wire(m)).subrange(0, before.len() + k), before.len() as int)
            == Err::<RecordModel, SimpleDnsError>(SimpleDnsError::InsufficientData),
{
    let full = before + record_wire(m);
    let data = full.subrange(0, before.len() + k);
    let p = before.len() as int;
    let n = m.name.len() as int;
    lemma_wire_len(m);
    lemma_rdata_wire_fits(m.rdata);
    lemma_pow256_values();
    assert(data.subrange(p, p + n) =~= m.name);
    lemma_name_from_plain(data, p, m.name, MAX_NAME_LEN as int);
    let off = p + n;
    if k >= n + 10 {
        let rdlen = rdata_wire(m.rdata).len();
        lemma_be_round_trip(class_code(m.class) as nat, 2);
        lemma_be_round_trip(rdlen, 2);
        let h = record_header(m);
        lemma_be_bytes_len(rdata_type(m.rdata) as nat, 2);
        lemma_be_bytes_len(class_code(m.class) as nat, 2);
        lemma_be_bytes_len(m.ttl as nat, 4);
        lemma_be_bytes_len(rdlen, 2);
        assert(h.subrange(2, 4) =~= be_bytes(class_code(m.class) as nat, 2));
        assert(h.subrange(8, 10) =~= be_bytes(rdlen, 2));
        assert(full.subrange(off, off + 10) =~= h);
        assert(data.subrange(off + 2, off + 4) =~= h.subrange(2, 4));
        assert(data.subrange(off + 8, off + 10) =~= h.subrange(8, 10));
    }
}

/// Records that agree in name, class and payload hash from the same bytes,
/// whatever their ttls; they are equal exactly when their ttls are.
pub proof fn lemma_identity_ignores_ttl(a: ResourceRecord, b: ResourceRecord)
    requires
        a.name@ == b.name@,
        a.class == b.class,
        a.rdata@ == b.rdata@,
    ensures
        identity_wire(a@) == identity_wire(b@),
        a.eq_spec(&b) <==> a.ttl == b.ttl,
{
}

/// An address record answers questions of type `A`, `AAAA` and `ANY` and no
/// others, and so does an IPv6 address record; a text record answers `TXT`
/// and `ANY` only.
pub proof fn lemma_type_matching(q: QTYPE)
    ensures
        qtype_matches(q, TYPE_A) <==> (q == QTYPE::A || q == QTYPE::AAAA || q == QTYPE::ANY),
        qtype_matches(q, TYPE_AAAA) <==> (q == QTYPE::A || q == QTYPE::AAAA || q == QTYPE::ANY),
        qtype_matches(q, TYPE_TXT) <==> (q == QTYPE::TXT || q == QTYPE::ANY),
{
}

} // verus!
