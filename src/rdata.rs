//! Record payloads: a closed set of variants, each with its wire type code.
use crate::codes::SimpleDnsError;
use crate::wire::{
    be_bytes, be_u128_bytes, lemma_be_bytes_len, lemma_prefix_range, be_u32_bytes, be_value, bytes_eq, copy_range, read_be_u128,
    read_be_u32,
};
use vstd::prelude::*;

verus! {

/// Type code of an IPv4 address record.
pub const TYPE_A: u16 = 1;

/// Type code of a text record.
pub const TYPE_TXT: u16 = 16;

/// Type code of an IPv6 address record.
pub const TYPE_AAAA: u16 = 28;

/// The largest payload that a record's 16-bit length field can declare.
pub const MAX_RDATA_LEN: usize = 65535;

/// What a payload holds, as plain values.
pub enum RDataModel {
    A(u32),
    AAAA(u128),
    TXT(Seq<u8>),
    /// Any other type code, with its bytes kept as they are.
    NULL(u16, Seq<u8>),
}

/// The wire type code of a payload.
pub open spec fn rdata_type(m: RDataModel) -> u16 {
    match m {
        RDataModel::A(_) => TYPE_A,
        RDataModel::AAAA(_) => TYPE_AAAA,
        RDataModel::TXT(_) => TYPE_TXT,
        RDataModel::NULL(code, _) => code,
    }
}

/// The bytes that encode a payload.
pub open spec fn rdata_wire(m: RDataModel) -> Seq<u8> {
    match m {
        RDataModel::A(a) => be_bytes(a as nat, 4),
        RDataModel::AAAA(a) => be_bytes(a as nat, 16),
        RDataModel::TXT(t) => seq![t.len() as u8] + t,
        RDataModel::NULL(_, d) => d,
    }
}

/// The sizes that every payload value keeps.
pub open spec fn rdata_ok(m: RDataModel) -> bool {
    match m {
        RDataModel::TXT(t) => t.len() <= 255,
        RDataModel::NULL(_, d) => d.len() <= MAX_RDATA_LEN,
        _ => true,
    }
}

/// The payload decodes back to the same variant: raw bytes do not carry a
/// type code that has a variant of its own.
pub open spec fn rdata_canonical(m: RDataModel) -> bool {
    match m {
        RDataModel::NULL(code, _) => raw_code_ok(code),
        _ => true,
    }
}

/// The payload of type `code` that occupies `data[start..end]`; the bytes
/// before `start` stay readable for the decoder. `None` where they do not
/// decode.
pub open spec fn rdata_from(data: Seq<u8>, start: int, end: int, code: u16) -> Option<RDataModel> {
    if code == TYPE_A {
        if end - start >= 4 {
            Some(RDataModel::A(be_value(data.subrange(start, start + 4)) as u32))
        } else {
            None
        }
    } else if code == TYPE_AAAA {
        if end - start >= 16 {
            Some(RDataModel::AAAA(be_value(data.subrange(start, start + 16)) as u128))
        } else {
            None
        }
    } else if code == TYPE_TXT {
        if start < end && start + 1 + data[start] <= end {
            Some(RDataModel::TXT(data.subrange(start + 1, start + 1 + data[start])))
        } else {
            None
        }
    } else if end - start <= MAX_RDATA_LEN {
        Some(RDataModel::NULL(code, data.subrange(start, end)))
    } else {
        None
    }
}

/// Only the bytes before `end` decide the payload.
pub proof fn lemma_rdata_from_prefix(d1: Seq<u8>, d2: Seq<u8>, start: int, end: int, code: u16)
    requires
        0 <= start <= end,
        end <= d1.len(),
        end <= d2.len(),
        d1.subrange(0, end) == d2.subrange(0, end),
    ensures
        rdata_from(d1, start, end, code) == rdata_from(d2, start, end, code),
{
    if code == TYPE_A && end - start >= 4 {
        lemma_prefix_range(d1, d2, end, start, start + 4);
    } else if code == TYPE_AAAA && end - start >= 16 {
        lemma_prefix_range(d1, d2, end, start, start + 16);
    } else if code == TYPE_TXT && start < end {
        lemma_prefix_range(d1, d2, end, start, start + 1);
        assert(d1[start] == d1.subrange(start, start + 1)[0]);
        assert(d2[start] == d2.subrange(start, start + 1)[0]);
        if start + 1 + d1[start] <= end {
            lemma_prefix_range(d1, d2, end, start + 1, start + 1 + d1[start]);
        }
    } else {
        lemma_prefix_range(d1, d2, end, start, end);
    }
}

/// An IPv4 address.
#[derive(Clone, Copy, Debug, PartialEq, Eq, Hash, Structural)]
pub struct A {
    pub address: u32,
}

/// An IPv6 address.
#[derive(Clone, Copy, Debug, PartialEq, Eq, Hash, Structural)]
pub struct AAAA {
    pub address: u128,
}

/// A character string of at most 255 bytes.
#[derive(Debug, Hash)]
pub struct CharacterString {
    data: Vec<u8>,
}

impl View for CharacterString {
    type V = Seq<u8>;

    closed spec fn view(&self) -> Seq<u8> {
        self.data@
    }
}

impl CharacterString {
    #[verifier::type_invariant]
    spec fn inv(&self) -> bool {
        self.data@.len() <= 255
    }

    /// A character string holding `data`; more than 255 bytes is an error.
    pub fn new(data: &[u8]) -> (r: Result<CharacterString, SimpleDnsError>)
        ensures
            data@.len() <= 255 ==> (r matches Ok(c) && c@ == data@),
            data@.len() > 255 ==> r == Err::<CharacterString, SimpleDnsError>(
                SimpleDnsError::InvalidCharacterString,
            ),
    {
        if data.len() > 255 {
            return Err(SimpleDnsError::InvalidCharacterString);
        }
        let d = copy_range(data, 0, data.len());
        assert(d@ =~= data@);
        Ok(CharacterString { data: d })
    }

    /// The bytes of the string.
    pub fn bytes(&self) -> (r: &[u8])
        ensures
            r@ == self@,
            self@.len() <= 255,
    {
        proof {
            use_type_invariant(self);
        }
        self.data.as_slice()
    }
}

impl Clone for CharacterString {
    fn clone(&self) -> (r: Self)
        ensures
            r@ == self@,
    {
        proof {
            use_type_invariant(self);
        }
        let d = copy_range(self.data.as_slice(), 0, self.data.len());
        assert(d@ =~= self.data@);
        CharacterString { data: d }
    }
}

impl PartialEq for CharacterString {
    fn eq(&self, o: &CharacterString) -> (r: bool) {
        bytes_eq(&self.data, &o.data)
    }
}

impl vstd::std_specs::cmp::PartialEqSpecImpl for CharacterString {
    open spec fn obeys_eq_spec() -> bool {
        true
    }

    open spec fn eq_spec(&self, o: &CharacterString) -> bool {
        self@ == o@
    }
}

impl Eq for CharacterString {
}

/// Payload bytes kept as they are, at most 65535 of them, with their type
/// code, which is none of the codes that have a variant of their own.
#[derive(Debug, Hash)]
pub struct NULL {
    code: u16,
    data: Vec<u8>,
}

/// A type code whose payload is kept as raw bytes.
pub open spec fn raw_code_ok(code: u16) -> bool {
    code != TYPE_A && code != TYPE_TXT && code != TYPE_AAAA
}

impl View for NULL {
    type V = (u16, Seq<u8>);

    closed spec fn view(&self) -> (u16, Seq<u8>) {
        (self.code, self.data@)
    }
}

impl NULL {
    #[verifier::type_invariant]
    spec fn inv(&self) -> bool {
        self.data@.len() <= MAX_RDATA_LEN && raw_code_ok(self.code)
    }

    /// A raw payload of type `code` holding `data`. More than 65535 bytes, or
    /// a type code that has a variant of its own, is an error.
    pub fn new(code: u16, data: &[u8]) -> (r: Result<NULL, SimpleDnsError>)
        ensures
            data@.len() <= MAX_RDATA_LEN && raw_code_ok(code) ==> (r matches Ok(n) && n@ == (
            code,
            data@,
            )),
            !(data@.len() <= MAX_RDATA_LEN && raw_code_ok(code)) ==> r == Err::<
                NULL,
                SimpleDnsError,
            >(SimpleDnsError::InvalidRData),
    {
        if data.len() > MAX_RDATA_LEN || code == TYPE_A || code == TYPE_TXT || code == TYPE_AAAA {
            return Err(SimpleDnsError::InvalidRData);
        }
        let d = copy_range(data, 0, data.len());
        assert(d@ =~= data@);
        Ok(NULL { code, data: d })
    }

    /// The type code of the payload.
    pub fn code(&self) -> (r: u16)
        ensures
            r == self@.0,
            raw_code_ok(r),
    {
        proof {
            use_type_invariant(self);
        }
        self.code
    }

    /// The bytes of the payload.
    pub fn bytes(&self) -> (r: &[u8])
        ensures
            r@ == self@.1,
            self@.1.len() <= MAX_RDATA_LEN,
            raw_code_ok(self@.0),
    {
        proof {
            use_type_invariant(self);
        }
        self.data.as_slice()
    }
}

impl Clone for NULL {
    fn clone(&self) -> (r: Self)
        ensures
            r@ == self@,
    {
        proof {
            use_type_invariant(self);
        }
        let d = copy_range(self.data.as_slice(), 0, self.data.len());
        assert(d@ =~= self.data@);
        NULL { code: self.code, data: d }
    }
}

impl PartialEq for NULL {
    fn eq(&self, o: &NULL) -> (r: bool) {
        self.code == o.code && bytes_eq(&self.data, &o.data)
    }
}

impl vstd::std_specs::cmp::PartialEqSpecImpl for NULL {
    open spec fn obeys_eq_spec() -> bool {
        true
    }

    open spec fn eq_spec(&self, o: &NULL) -> bool {
        self@ == o@
    }
}

impl Eq for NULL {
}

/// The payload of a resource record.
#[derive(Debug, Hash)]
pub enum RData {
    A(A),
    AAAA(AAAA),
    TXT(CharacterString),
    /// A payload of any other type code, kept as raw bytes.
    NULL(NULL),
}

impl View for RData {
    type V = RDataModel;

    open spec fn view(&self) -> RDataModel {
        match self {
            RData::A(a) => RDataModel::A(a.address),
            RData::AAAA(a) => RDataModel::AAAA(a.address),
            RData::TXT(t) => RDataModel::TXT(t@),
            RData::NULL(n) => RDataModel::NULL(n@.0, n@.1),
        }
    }
}

impl RData {
    /// Decodes the payload of type `code` at `data[start..end]`.
    pub fn parse(data: &[u8], start: usize, end: usize, code: u16) -> (r: Result<
        RData,
        SimpleDnsError,
    >)
        requires
            start <= end <= data@.len(),
        ensures
            match rdata_from(data@, start as int, end as int, code) {
                Some(m) => r matches Ok(d) && d@ == m,
                None => r == Err::<RData, SimpleDnsError>(SimpleDnsError::InvalidRData),
            },
    {
        if code == TYPE_A {
            if end - start < 4 {
                return Err(SimpleDnsError::InvalidRData);
            }
            Ok(RData::A(A { address: read_be_u32(data, start) }))
        } else if code == TYPE_AAAA {
            if end - start < 16 {
                return Err(SimpleDnsError::InvalidRData);
            }
            Ok(RData::AAAA(AAAA { address: read_be_u128(data, start) }))
        } else if code == TYPE_TXT {
            if start >= end {
                return Err(SimpleDnsError::InvalidRData);
            }
            let l = data[start] as usize;
            if l + 1 > end - start {
                return Err(SimpleDnsError::InvalidRData);
            }
            let d = copy_range(data, start + 1, start + 1 + l);
            Ok(RData::TXT(CharacterString { data: d }))
        } else {
            if end - start > MAX_RDATA_LEN {
                return Err(SimpleDnsError::InvalidRData);
            }
            let d = copy_range(data, start, end);
            Ok(RData::NULL(NULL { code, data: d }))
        }
    }

    /// The wire type code of the payload.
    pub fn type_code(&self) -> (r: u16)
        ensures
            r == rdata_type(self@),
    {
        match self {
            RData::A(_) => TYPE_A,
            RData::AAAA(_) => TYPE_AAAA,
            RData::TXT(_) => TYPE_TXT,
            RData::NULL(n) => n.code(),
        }
    }

    /// The number of bytes that encode the payload.
    pub fn len(&self) -> (r: usize)
        ensures
            r == rdata_wire(self@).len(),
            rdata_ok(self@),
            rdata_canonical(self@),
            r <= MAX_RDATA_LEN,
    {
        match self {
            RData::A(a) => {
                proof {
                    lemma_be_bytes_len(a.address as nat, 4);
                }
                4
            },
            RData::AAAA(a) => {
                proof {
                    lemma_be_bytes_len(a.address as nat, 16);
                }
                16
            },
            RData::TXT(t) => t.bytes().len() + 1,
            RData::NULL(n) => n.bytes().len(),
        }
    }

    /// Appends the bytes that encode the payload to `out`.
    pub fn append_to_vec(&self, out: &mut Vec<u8>)
        ensures
            final(out)@ == old(out)@ + rdata_wire(self@),
    {
        match self {
            RData::A(a) => {
                let mut b = be_u32_bytes(a.address);
                out.append(&mut b);
            },
            RData::AAAA(a) => {
                let mut b = be_u128_bytes(a.address);
                out.append(&mut b);
            },
            RData::TXT(t) => {
                let s = t.bytes();
                out.push(s.len() as u8);
                let mut b = copy_range(s, 0, s.len());
                out.append(&mut b);
                assert(final(out)@ =~= old(out)@ + rdata_wire(self@));
            },
            RData::NULL(n) => {
                let s = n.bytes();
                let mut b = copy_range(s, 0, s.len());
                out.append(&mut b);
                assert(final(out)@ =~= old(out)@ + rdata_wire(self@));
            },
        }
    }
}

impl Clone for RData {
    fn clone(&self) -> (r: Self)
        ensures
            r@ == self@,
    {
        match self {
            RData::A(a) => RData::A(*a),
            RData::AAAA(a) => RData::AAAA(*a),
            RData::TXT(t) => RData::TXT(t.clone()),
            RData::NULL(n) => RData::NULL(n.clone()),
        }
    }
}

impl PartialEq for RData {
    fn eq(&self, o: &RData) -> (r: bool) {
        match (self, o) {
            (RData::A(a), RData::A(b)) => a.address == b.address,
            (RData::AAAA(a), RData::AAAA(b)) => a.address == b.address,
            (RData::TXT(a), RData::TXT(b)) => a.eq(b),
            (RData::NULL(a), RData::NULL(b)) => a.eq(b),
            _ => false,
        }
    }
}

impl vstd::std_specs::cmp::PartialEqSpecImpl for RData {
    open spec fn obeys_eq_spec() -> bool {
        true
    }

    open spec fn eq_spec(&self, o: &RData) -> bool {
        self@ == o@
    }
}

impl Eq for RData {
}

} // verus!
