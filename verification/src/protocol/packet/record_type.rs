//! The types of resource record that the codec knows by name.

use vstd::prelude::*;
use vstd::std_specs::convert::FromSpecImpl;

verus! {

/// The type of a resource record or of a query.
#[derive(Copy, Clone, Debug, PartialEq, Eq, Structural)]
pub enum RecordType {
    A,
    NS,
    MD,
    MF,
    CNAME,
    SOA,
    MB,
    MG,
    MR,
    NULL,
    WKS,
    PTR,
    HINFO,
    MINFO,
    MX,
    TXT,
    AAAA,
    HTTPS,
    AXFR,
    MAILB,
    MAILA,
    BROADCAST,
}

impl RecordType {
    /// The number that stands for the type on the wire.
    pub open spec fn number(self) -> u16 {
        match self {
            RecordType::A => 1,
            RecordType::NS => 2,
            RecordType::MD => 3,
            RecordType::MF => 4,
            RecordType::CNAME => 5,
            RecordType::SOA => 6,
            RecordType::MB => 7,
            RecordType::MG => 8,
            RecordType::MR => 9,
            RecordType::NULL => 10,
            RecordType::WKS => 11,
            RecordType::PTR => 12,
            RecordType::HINFO => 13,
            RecordType::MINFO => 14,
            RecordType::MX => 15,
            RecordType::TXT => 16,
            RecordType::AAAA => 28,
            RecordType::HTTPS => 65,
            RecordType::AXFR => 252,
            RecordType::MAILB => 253,
            RecordType::MAILA => 254,
            RecordType::BROADCAST => 255,
        }
    }

    /// The type that a number stands for. A number without a name stands for
    /// `NULL`.
    pub open spec fn of(code: u16) -> RecordType {
        if code == 1 {
            RecordType::A
        } else if code == 2 {
            RecordType::NS
        } else if code == 3 {
            RecordType::MD
        } else if code == 4 {
            RecordType::MF
        } else if code == 5 {
            RecordType::CNAME
        } else if code == 6 {
            RecordType::SOA
        } else if code == 7 {
            RecordType::MB
        } else if code == 8 {
            RecordType::MG
        } else if code == 9 {
            RecordType::MR
        } else if code == 11 {
            RecordType::WKS
        } else if code == 12 {
            RecordType::PTR
        } else if code == 13 {
            RecordType::HINFO
        } else if code == 14 {
            RecordType::MINFO
        } else if code == 15 {
            RecordType::MX
        } else if code == 16 {
            RecordType::TXT
        } else if code == 28 {
            RecordType::AAAA
        } else if code == 65 {
            RecordType::HTTPS
        } else if code == 252 {
            RecordType::AXFR
        } else if code == 253 {
            RecordType::MAILB
        } else if code == 254 {
            RecordType::MAILA
        } else if code == 255 {
            RecordType::BROADCAST
        } else {
            RecordType::NULL
        }
    }

    /// The number that stands for the type on the wire.
    pub fn code(self) -> (code: u16)
        ensures
            code == self.number(),
    {
        match self {
            RecordType::A => 1,
            RecordType::NS => 2,
            RecordType::MD => 3,
            RecordType::MF => 4,
            RecordType::CNAME => 5,
            RecordType::SOA => 6,
            RecordType::MB => 7,
            RecordType::MG => 8,
            RecordType::MR => 9,
            RecordType::NULL => 10,
            RecordType::WKS => 11,
            RecordType::PTR => 12,
            RecordType::HINFO => 13,
            RecordType::MINFO => 14,
            RecordType::MX => 15,
            RecordType::TXT => 16,
            RecordType::AAAA => 28,
            RecordType::HTTPS => 65,
            RecordType::AXFR => 252,
            RecordType::MAILB => 253,
            RecordType::MAILA => 254,
            RecordType::BROADCAST => 255,
        }
    }
}

impl From<u16> for RecordType {
    fn from(value: u16) -> (rtype: RecordType) {
        match value {
            1 => RecordType::A,
            2 => RecordType::NS,
            3 => RecordType::MD,
            4 => RecordType::MF,
            5 => RecordType::CNAME,
            6 => RecordType::SOA,
            7 => RecordType::MB,
            8 => RecordType::MG,
            9 => RecordType::MR,
            10 => RecordType::NULL,
            11 => RecordType::WKS,
            12 => RecordType::PTR,
            13 => RecordType::HINFO,
            14 => RecordType::MINFO,
            15 => RecordType::MX,
            16 => RecordType::TXT,
            28 => RecordType::AAAA,
            65 => RecordType::HTTPS,
            252 => RecordType::AXFR,
            253 => RecordType::MAILB,
            254 => RecordType::MAILA,
            255 => RecordType::BROADCAST,
            _ => RecordType::NULL,
        }
    }
}

impl FromSpecImpl<u16> for RecordType {
    open spec fn obeys_from_spec() -> bool {
        true
    }

    open spec fn from_spec(value: u16) -> RecordType {
        RecordType::of(value)
    }
}

impl From<RecordType> for u16 {
    fn from(rtype: RecordType) -> (code: u16) {
        rtype.code()
    }
}

impl FromSpecImpl<RecordType> for u16 {
    open spec fn obeys_from_spec() -> bool {
        true
    }

    open spec fn from_spec(rtype: RecordType) -> u16 {
        rtype.number()
    }
}

/// Every type is the type that its own number stands for.
pub proof fn lemma_number_names_type(rtype: RecordType)
    ensures
        RecordType::of(rtype.number()) == rtype,
{
}

/// A number that stands for a type other than `NULL` is that type's number.
pub proof fn lemma_named_number(code: u16)
    requires
        RecordType::of(code) != RecordType::NULL,
    ensures
        RecordType::of(code).number() == code,
{
}

} // verus!
