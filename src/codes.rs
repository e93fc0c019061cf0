//! Record classes, query classes, query types, and the codec's errors.
use vstd::prelude::*;

verus! {

/// What can go wrong while reading or building a record.
#[derive(Clone, Copy, Debug, PartialEq, Eq, Structural)]
pub enum SimpleDnsError {
    /// The 16-bit class code names no known class.
    InvalidClass(u16),
    /// The domain name is malformed, truncated, or too long.
    InvalidName,
    /// A character string is longer than 255 bytes.
    InvalidCharacterString,
    /// The payload does not decode for its type, or a raw payload is too long
    /// or carries a type code that has a variant of its own.
    InvalidRData,
    /// The buffer ends before a fixed field or the declared payload.
    InsufficientData,
}

/// The class of a resource record.
#[derive(Clone, Copy, Debug, PartialEq, Eq, Hash, Structural)]
pub enum CLASS {
    /// The Internet.
    IN,
    /// CSNET.
    CS,
    /// CHAOS.
    CH,
    /// Hesiod.
    HS,
}

pub open spec fn class_code(c: CLASS) -> u16 {
    match c {
        CLASS::IN => 1,
        CLASS::CS => 2,
        CLASS::CH => 3,
        CLASS::HS => 4,
    }
}

/// The class with wire code `code`, if there is one.
pub open spec fn class_of_code(code: u16) -> Option<CLASS> {
    if code == 1 {
        Some(CLASS::IN)
    } else if code == 2 {
        Some(CLASS::CS)
    } else if code == 3 {
        Some(CLASS::CH)
    } else if code == 4 {
        Some(CLASS::HS)
    } else {
        None
    }
}

impl CLASS {
    /// The class's 16-bit wire code.
    pub fn code(self) -> (r: u16)
        ensures
            r == class_code(self),
    {
        match self {
            CLASS::IN => 1,
            CLASS::CS => 2,
            CLASS::CH => 3,
            CLASS::HS => 4,
        }
    }

    /// The class whose wire code is `code`; an unknown code is an error.
    pub fn from_code(code: u16) -> (r: Result<CLASS, SimpleDnsError>)
        ensures
            r == (match class_of_code(code) {
                Some(c) => Ok(c),
                None => Err(SimpleDnsError::InvalidClass(code)),
            }),
    {
        if code == 1 {
            Ok(CLASS::IN)
        } else if code == 2 {
            Ok(CLASS::CS)
        } else if code == 3 {
            Ok(CLASS::CH)
        } else if code == 4 {
            Ok(CLASS::HS)
        } else {
            Err(SimpleDnsError::InvalidClass(code))
        }
    }
}

/// The class asked for by a question: a record class, or the wildcard.
#[derive(Clone, Copy, Debug, PartialEq, Eq, Hash, Structural)]
pub enum QCLASS {
    IN,
    CS,
    CH,
    HS,
    /// Any class.
    ANY,
}

pub open spec fn qclass_code(q: QCLASS) -> u16 {
    match q {
        QCLASS::IN => 1,
        QCLASS::CS => 2,
        QCLASS::CH => 3,
        QCLASS::HS => 4,
        QCLASS::ANY => 255,
    }
}

impl QCLASS {
    /// The query class's 16-bit wire code.
    pub fn code(self) -> (r: u16)
        ensures
            r == qclass_code(self),
    {
        match self {
            QCLASS::IN => 1,
            QCLASS::CS => 2,
            QCLASS::CH => 3,
            QCLASS::HS => 4,
            QCLASS::ANY => 255,
        }
    }
}

/// The type asked for by a question: a record type, or one of the
/// question-only values.
#[derive(Clone, Copy, Debug, PartialEq, Eq, Hash, Structural)]
pub enum QTYPE {
    A,
    NS,
    MD,
    MF,
    CNAME,
    SOA,
    MB,
    MG,
    MR,
    NULL,
    WKS,
    PTR,
    HINFO,
    MINFO,
    MX,
    TXT,
    AAAA,
    SRV,
    AXFR,
    MAILB,
    MAILA,
    /// Any type.
    ANY,
}

pub open spec fn qtype_code(q: QTYPE) -> u16 {
    match q {
        QTYPE::A => 1,
        QTYPE::NS => 2,
        QTYPE::MD => 3,
        QTYPE::MF => 4,
        QTYPE::CNAME => 5,
        QTYPE::SOA => 6,
        QTYPE::MB => 7,
        QTYPE::MG => 8,
        QTYPE::MR => 9,
        QTYPE::NULL => 10,
        QTYPE::WKS => 11,
        QTYPE::PTR => 12,
        QTYPE::HINFO => 13,
        QTYPE::MINFO => 14,
        QTYPE::MX => 15,
        QTYPE::TXT => 16,
        QTYPE::AAAA => 28,
        QTYPE::SRV => 33,
        QTYPE::AXFR => 252,
        QTYPE::MAILB => 253,
        QTYPE::MAILA => 254,
        QTYPE::ANY => 255,
    }
}

impl QTYPE {
    /// The query type's 16-bit wire code.
    pub fn code(self) -> (r: u16)
        ensures
            r == qtype_code(self),
    {
        match self {
            QTYPE::A => 1,
            QTYPE::NS => 2,
            QTYPE::MD => 3,
            QTYPE::MF => 4,
            QTYPE::CNAME => 5,
            QTYPE::SOA => 6,
            QTYPE::MB => 7,
            QTYPE::MG => 8,
            QTYPE::MR => 9,
            QTYPE::NULL => 10,
            QTYPE::WKS => 11,
            QTYPE::PTR => 12,
            QTYPE::HINFO => 13,
            QTYPE::MINFO => 14,
            QTYPE::MX => 15,
            QTYPE::TXT => 16,
            QTYPE::AAAA => 28,
            QTYPE::SRV => 33,
            QTYPE::AXFR => 252,
            QTYPE::MAILB => 253,
            QTYPE::MAILA => 254,
            QTYPE::ANY => 255,
        }
    }
}

} // verus!
