//! The packed flags word of a message header.
//!
//! The sixteen bits hold, from the top: the response bit QR (15), one bit that
//! carries no name (14), the operation code (13 to 11), the bits AA, TC, RD and
//! RA (10 to 7), three more bits without a name (6 to 4) and the response code
//! (3 to 0).

use vstd::prelude::*;
use vstd::std_specs::convert::FromSpecImpl;

verus! {

/// The bits of the flags word that belong neither to the operation code nor to
/// the response code: the five named flags and the four bits without a name.
pub const FLAG_BITS: u16 = 0xC7F0;

/// The kind of query a message carries.
#[derive(Copy, Clone, Debug, PartialEq, Eq, Structural)]
pub enum OpCode {
    Query,
    IQuery,
    Status,
    Unknown,
}

impl OpCode {
    /// The operation that a code stands for.
    pub open spec fn of(value: u16) -> OpCode {
        if value == 0 {
            OpCode::Query
        } else if value == 1 {
            OpCode::IQuery
        } else if value == 2 {
            OpCode::Status
        } else {
            OpCode::Unknown
        }
    }

    pub fn from_u16(value: u16) -> (op: OpCode)
        ensures
            op == OpCode::of(value),
    {
        match value {
            0 => OpCode::Query,
            1 => OpCode::IQuery,
            2 => OpCode::Status,
            _ => OpCode::Unknown,
        }
    }
}

impl Default for OpCode {
    fn default() -> (op: OpCode)
        ensures
            op == OpCode::Query,
    {
        OpCode::Query
    }
}

/// The outcome that a response reports.
#[derive(Copy, Clone, Debug, PartialEq, Eq, Structural)]
pub enum ResponseCode {
    NoError,
    FormatError,
    ServerFailure,
    NameError,
    NotImplemented,
    Refused,
    Unknown,
}

impl ResponseCode {
    /// The outcome that a code stands for.
    pub open spec fn of(value: u16) -> ResponseCode {
        if value == 0 {
            ResponseCode::NoError
        } else if value == 1 {
            ResponseCode::FormatError
        } else if value == 2 {
            ResponseCode::ServerFailure
        } else if value == 3 {
            ResponseCode::NameError
        } else if value == 4 {
            ResponseCode::NotImplemented
        } else if value == 5 {
            ResponseCode::Refused
        } else {
            ResponseCode::Unknown
        }
    }

    pub fn from_u16(value: u16) -> (rcode: ResponseCode)
        ensures
            rcode == ResponseCode::of(value),
    {
        match value {
            0 => ResponseCode::NoError,
            1 => ResponseCode::FormatError,
            2 => ResponseCode::ServerFailure,
            3 => ResponseCode::NameError,
            4 => ResponseCode::NotImplemented,
            5 => ResponseCode::Refused,
            _ => ResponseCode::Unknown,
        }
    }
}

impl Default for ResponseCode {
    fn default() -> (rcode: ResponseCode)
        ensures
            rcode == ResponseCode::NoError,
    {
        ResponseCode::NoError
    }
}

/// The single-bit flags of the header that have a name.
#[derive(Copy, Clone, Debug, PartialEq, Eq, Structural)]
pub enum Flags {
    QR,
    AA,
    TC,
    RD,
    RA,
    /// No flag at all.
    NULL,
}

impl Flags {
    /// The bit of the flags word that the flag occupies.
    pub open spec fn mask(self) -> u16 {
        match self {
            Flags::QR => 0x8000,
            Flags::AA => 0x0400,
            Flags::TC => 0x0200,
            Flags::RD => 0x0100,
            Flags::RA => 0x0080,
            Flags::NULL => 0,
        }
    }

    /// The bit of the flags word that the flag occupies.
    pub fn bit(self) -> (mask: u16)
        ensures
            mask == self.mask(),
    {
        match self {
            Flags::QR => 0x8000,
            Flags::AA => 0x0400,
            Flags::TC => 0x0200,
            Flags::RD => 0x0100,
            Flags::RA => 0x0080,
            Flags::NULL => 0,
        }
    }
}

impl Default for Flags {
    fn default() -> (flag: Flags)
        ensures
            flag == Flags::NULL,
    {
        Flags::NULL
    }
}

/// The flags word taken apart: the operation code, the word as it was read or
/// built (flags and nameless bits), and the response code.
///
/// A code that has a name is packed by its number. `Unknown` is packed as the
/// number it was read with, kept in the middle field, or as all ones where the
/// middle field holds a number with a name.
#[derive(Copy, Clone, Debug, PartialEq, Eq, Structural)]
pub struct HeaderFlags(pub OpCode, pub u16, pub ResponseCode);

/// The three bits that an operation code is packed as.
pub open spec fn opcode_number(opcode: OpCode, word: u16) -> u16 {
    match opcode {
        OpCode::Query => 0,
        OpCode::IQuery => 1,
        OpCode::Status => 2,
        OpCode::Unknown => if ((word >> 11) & 7) >= 3 {
            (word >> 11) & 7
        } else {
            7
        },
    }
}

/// The four bits that a response code is packed as.
pub open spec fn rcode_number(rcode: ResponseCode, word: u16) -> u16 {
    match rcode {
        ResponseCode::NoError => 0,
        ResponseCode::FormatError => 1,
        ResponseCode::ServerFailure => 2,
        ResponseCode::NameError => 3,
        ResponseCode::NotImplemented => 4,
        ResponseCode::Refused => 5,
        ResponseCode::Unknown => if (word & 15) >= 6 {
            word & 15
        } else {
            15
        },
    }
}

impl HeaderFlags {
    /// The flags word that the value packs to.
    pub open spec fn word(self) -> u16 {
        (self.1 & FLAG_BITS) | (opcode_number(self.0, self.1) << 11) | rcode_number(self.2, self.1)
    }

    /// The value that a flags word unpacks to.
    pub open spec fn unpack(word: u16) -> HeaderFlags {
        HeaderFlags(OpCode::of((word >> 11) & 7), word, ResponseCode::of(word & 15))
    }

    /// Whether the flag is set in the packed word.
    pub open spec fn has(self, flag: Flags) -> bool {
        self.1 & flag.mask() == flag.mask()
    }

    pub fn new() -> (flags: HeaderFlags)
        ensures
            flags == HeaderFlags(OpCode::Query, 0, ResponseCode::NoError),
            flags.word() == 0,
    {
        assert((0u16 & 0xC7F0) | (0u16 << 11) | 0u16 == 0) by (bit_vector);
        HeaderFlags(OpCode::Query, 0, ResponseCode::NoError)
    }

    pub fn with_opcode(self, opcode: OpCode) -> (flags: HeaderFlags)
        ensures
            flags == HeaderFlags(opcode, self.1, self.2),
    {
        HeaderFlags(opcode, self.1, self.2)
    }

    pub fn with_rcode(self, rcode: ResponseCode) -> (flags: HeaderFlags)
        ensures
            flags == HeaderFlags(self.0, self.1, rcode),
    {
        HeaderFlags(self.0, self.1, rcode)
    }

    pub fn with_flag(self, flag: Flags) -> (flags: HeaderFlags)
        ensures
            flags == HeaderFlags(self.0, self.1 | flag.mask(), self.2),
            flags.has(flag),
    {
        let mask = flag.bit();
        let word = self.1;
        assert((word | mask) & mask == mask) by (bit_vector);
        HeaderFlags(self.0, self.1 | mask, self.2)
    }

    pub fn without_flag(self, flag: Flags) -> (flags: HeaderFlags)
        ensures
            flags == HeaderFlags(self.0, self.1 & !flag.mask(), self.2),
            flag != Flags::NULL ==> !flags.has(flag),
    {
        let mask = flag.bit();
        let word = self.1;
        assert(mask != 0 ==> (word & !mask) & mask != mask) by (bit_vector);
        HeaderFlags(self.0, self.1 & !mask, self.2)
    }

    /// Whether the flag is set.
    pub fn has_flag(&self, flag: Flags) -> (set: bool)
        ensures
            set == self.has(flag),
    {
        let mask = flag.bit();
        self.1 & mask == mask
    }

    pub fn serialize(&self) -> (word: u16)
        ensures
            word == self.word(),
    {
        let raw = self.1;
        let opcode: u16 = match self.0 {
            OpCode::Query => 0,
            OpCode::IQuery => 1,
            OpCode::Status => 2,
            OpCode::Unknown => {
                let read = (raw >> 11) & 7;
                if read >= 3 {
                    read
                } else {
                    7
                }
            },
        };
        let rcode: u16 = match self.2 {
            ResponseCode::NoError => 0,
            ResponseCode::FormatError => 1,
            ResponseCode::ServerFailure => 2,
            ResponseCode::NameError => 3,
            ResponseCode::NotImplemented => 4,
            ResponseCode::Refused => 5,
            ResponseCode::Unknown => {
                let read = raw & 15;
                if read >= 6 {
                    read
                } else {
                    15
                }
            },
        };
        (raw & FLAG_BITS) | (opcode << 11) | rcode
    }
}

impl Default for HeaderFlags {
    fn default() -> (flags: HeaderFlags)
        ensures
            flags == HeaderFlags(OpCode::Query, 0, ResponseCode::NoError),
    {
        HeaderFlags(OpCode::Query, 0, ResponseCode::NoError)
    }
}

impl From<u16> for HeaderFlags {
    fn from(flags: u16) -> (unpacked: HeaderFlags) {
        HeaderFlags(OpCode::from_u16((flags >> 11) & 7), flags, ResponseCode::from_u16(flags & 15))
    }
}

impl FromSpecImpl<u16> for HeaderFlags {
    open spec fn obeys_from_spec() -> bool {
        true
    }

    open spec fn from_spec(flags: u16) -> HeaderFlags {
        HeaderFlags::unpack(flags)
    }
}

/// Unpacking a flags word and packing it again gives the word back, bit for
/// bit: the named parts and the bits without a name alike.
pub proof fn lemma_unpack_then_pack(word: u16)
    ensures
        HeaderFlags::unpack(word).word() == word,
{
    let opcode = (word >> 11) & 7;
    let rcode = word & 15;
    assert(opcode < 8 && rcode < 16) by (bit_vector)
        requires
            opcode == (word >> 11) & 7,
            rcode == word & 15,
    ;
    assert(opcode_number(OpCode::of(opcode), word) == opcode);
    assert(rcode_number(ResponseCode::of(rcode), word) == rcode);
    assert((word & 0xC7F0) | (((word >> 11) & 7) << 11) | (word & 15) == word) by (bit_vector);
}

/// Packing a value and unpacking the word gives back the same operation code
/// and response code, every named flag as it was set, and a value that packs to
/// the same word.
pub proof fn lemma_pack_then_unpack(flags: HeaderFlags, flag: Flags)
    ensures
        HeaderFlags::unpack(flags.word()).0 == flags.0,
        HeaderFlags::unpack(flags.word()).2 == flags.2,
        HeaderFlags::unpack(flags.word()).has(flag) == flags.has(flag),
        HeaderFlags::unpack(flags.word()).word() == flags.word(),
{
    let raw = flags.1;
    let opcode = opcode_number(flags.0, raw);
    let rcode = rcode_number(flags.2, raw);
    let mask = flag.mask();
    assert(((raw >> 11) & 7) < 8 && (raw & 15) < 16) by (bit_vector);
    let word = (raw & 0xC7F0) | (opcode << 11) | rcode;
    assert(word == flags.word());
    assert(opcode < 8 && rcode < 16 ==> (word >> 11) & 7 == opcode && word & 15 == rcode)
        by (bit_vector)
        requires
            word == (raw & 0xC7F0) | (opcode << 11) | rcode,
    ;
    assert(opcode < 8 && rcode < 16 && (mask == 0x8000 || mask == 0x0400 || mask == 0x0200 || mask
        == 0x0100 || mask == 0x0080 || mask == 0) ==> (word & mask == mask) == (raw & mask
        == mask)) by (bit_vector)
        requires
            word == (raw & 0xC7F0) | (opcode << 11) | rcode,
    ;
    lemma_unpack_then_pack(word);
}

/// The named flags that are set in a flags word, in the order QR, AA, TC, RD, RA.
#[derive(Debug)]
pub struct FlagsVec(Vec<Flags>);

/// The named flags set in a word, in the order QR, AA, TC, RD, RA.
pub open spec fn named_flags(word: u16) -> Seq<Flags> {
    let qr = if word & 0x8000 != 0 { seq![Flags::QR] } else { Seq::<Flags>::empty() };
    let aa = if word & 0x0400 != 0 { seq![Flags::AA] } else { Seq::<Flags>::empty() };
    let tc = if word & 0x0200 != 0 { seq![Flags::TC] } else { Seq::<Flags>::empty() };
    let rd = if word & 0x0100 != 0 { seq![Flags::RD] } else { Seq::<Flags>::empty() };
    let ra = if word & 0x0080 != 0 { seq![Flags::RA] } else { Seq::<Flags>::empty() };
    qr + aa + tc + rd + ra
}

impl View for FlagsVec {
    type V = Seq<Flags>;

    closed spec fn view(&self) -> Seq<Flags> {
        self.0@
    }
}

impl FlagsVec {
    /// The flags, in order.
    pub fn flags(&self) -> (list: Vec<Flags>)
        ensures
            list@ == self@,
    {
        let mut list: Vec<Flags> = Vec::new();
        let mut i: usize = 0;
        while i < self.0.len()
            invariant
                i <= self.0.len(),
                list@ == self.0@.take(i as int),
            decreases self.0.len() - i,
        {
            list.push(self.0[i]);
            assert(self.0@.take(i + 1) == self.0@.take(i as int).push(self.0@[i as int]));
            i += 1;
        }
        assert(self.0@.take(i as int) == self.0@);
        list
    }
}

impl From<u16> for FlagsVec {
    fn from(flags: u16) -> (list: FlagsVec)
        ensures
            list@ == named_flags(flags),
    {
        let mut vec: Vec<Flags> = Vec::new();
        if flags & Flags::QR.bit() != 0 {
            vec.push(Flags::QR);
        }
        if flags & Flags::AA.bit() != 0 {
            vec.push(Flags::AA);
        }
        if flags & Flags::TC.bit() != 0 {
            vec.push(Flags::TC);
        }
        if flags & Flags::RD.bit() != 0 {
            vec.push(Flags::RD);
        }
        if flags & Flags::RA.bit() != 0 {
            vec.push(Flags::RA);
        }
        assert(vec@ == named_flags(flags));
        FlagsVec(vec)
    }
}

/// Two lists that hold the same flags need not be the same value. So what the
/// conversion gives is stated on `from` itself, as the view of its result,
/// and `from_spec` is not claimed to give that very value.
impl FromSpecImpl<u16> for FlagsVec {
    open spec fn obeys_from_spec() -> bool {
        false
    }

    open spec fn from_spec(flags: u16) -> FlagsVec {
        FlagsVec::listing(named_flags(flags))
    }
}

impl FlagsVec {
    /// Some list that holds exactly these flags.
    pub closed spec fn listing(flags: Seq<Flags>) -> FlagsVec {
        FlagsVec(choose|vec: Vec<Flags>| vec@ == flags)
    }
}

} // verus!
