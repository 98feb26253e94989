//! The entries of the answer, authority and additional sections.

use super::question::{byte_len, capped};
use super::record_type::RecordType;
use crate::error::DnsError;
use crate::protocol::name::{
    canonical_name, decode_name, encode_name, lemma_canonical_encodes, lemma_encoded_length,
    lemma_name_round_trip, name_at,
};
use crate::protocol::util::encode_domain;
use crate::protocol::wire::{
    be16, be32, lemma_be16_round_trip, lemma_be32_round_trip, push_bytes, push_u16, push_u32,
    read_u16, read_u32, u16_at, u32_at,
};
use vstd::prelude::*;
use vstd::slice::{slice_subrange, slice_to_vec};
use vstd::std_specs::cmp::PartialEqSpecImpl;
use vstd::utf8::encode_utf8;

verus! {

/// What a resource record is: the name it belongs to, the numbers of its type
/// and class, the seconds it may be kept, and its data.
pub struct RecordView {
    pub name: Seq<char>,
    pub rtype: u16,
    pub rclass: u16,
    pub ttl: u32,
    pub rdata: Seq<u8>,
}

/// The length of the data as the wire states it: the low sixteen bits of the
/// true length, which is the true length for data of up to 65535 bytes.
pub open spec fn wire_rdlength(rdata: Seq<u8>) -> u16 {
    (rdata.len() % 65536) as u16
}

/// The bytes that a resource record is encoded as. The length of the data is
/// taken from the data.
pub open spec fn record_wire(record: RecordView) -> Result<Seq<u8>, DnsError> {
    match encode_name(encode_utf8(record.name)) {
        Ok(name) => Ok(
            name + be16(record.rtype) + be16(record.rclass) + be32(record.ttl) + be16(
                wire_rdlength(record.rdata),
            ) + record.rdata,
        ),
        Err(error) => Err(error),
    }
}

/// The resource record that is read at an offset of a message, and the offset
/// behind it: a name, type and class, the time to live, the length of the
/// data, and as many bytes of data as the length says.
pub open spec fn record_at(buffer: Seq<u8>, at: int) -> Result<(RecordView, int), DnsError> {
    match name_at(buffer, at) {
        Ok((name, end)) => if end + 10 > buffer.len() {
            Err(DnsError::Truncated)
        } else if end + 10 + u16_at(buffer, end + 8) > buffer.len() {
            Err(DnsError::Truncated)
        } else {
            Ok(
                (
                    RecordView {
                        name,
                        rtype: u16_at(buffer, end),
                        rclass: u16_at(buffer, end + 2),
                        ttl: u32_at(buffer, end + 4),
                        rdata: buffer.subrange(end + 10, end + 10 + u16_at(buffer, end + 8)),
                    },
                    end + 10 + u16_at(buffer, end + 8),
                ),
            )
        },
        Err(error) => Err(error),
    }
}

/// Whether a record is encoded without loss: its name is canonical, and its
/// data are at most 65535 bytes long, so that their length fits the wire.
pub open spec fn canonical_record(record: RecordView) -> bool {
    canonical_name(encode_utf8(record.name)) && record.rdata.len() <= 65535
}

/// A canonical record states on the wire, as the length of its data, the
/// length that its data have.
pub proof fn lemma_rdlength_is_length(record: RecordView)
    requires
        record.rdata.len() <= 65535,
    ensures
        wire_rdlength(record.rdata) == record.rdata.len(),
{
}

/// A canonical record that was written to a buffer is read back as it was
/// written, and the cursor stops where its bytes end.
pub proof fn lemma_record_round_trip(record: RecordView, buffer: Seq<u8>, at: int)
    requires
        canonical_record(record),
        0 <= at,
        at + record_wire(record).unwrap().len() <= buffer.len(),
        buffer.subrange(at, at + record_wire(record).unwrap().len()) == record_wire(
            record,
        ).unwrap(),
    ensures
        record_wire(record) is Ok,
        record_at(buffer, at) == Ok::<(RecordView, int), DnsError>(
            (record, at + record_wire(record).unwrap().len()),
        ),
{
    let bytes = encode_utf8(record.name);
    lemma_canonical_encodes(bytes);
    let name = encode_name(bytes).unwrap();
    let wire = record_wire(record).unwrap();
    let window = buffer.subrange(at, at + wire.len());
    let length = wire_rdlength(record.rdata);
    assert(wire == name + be16(record.rtype) + be16(record.rclass) + be32(record.ttl) + be16(
        length,
    ) + record.rdata);
    assert(buffer.subrange(at, at + name.len()) =~= name) by {
        assert forall|k: int| 0 <= k < name.len() implies buffer.subrange(at, at + name.len())[k]
            == name[k] by {
            assert(window[k] == wire[k]);
        }
    }
    lemma_name_round_trip(record.name, buffer, at);
    let n = name.len() as int;
    let end = at + n;
    lemma_be16_round_trip(record.rtype);
    lemma_be16_round_trip(record.rclass);
    lemma_be32_round_trip(record.ttl);
    lemma_be16_round_trip(length);
    assert(buffer[end] == window[n]);
    assert(buffer[end + 1] == window[n + 1]);
    assert(buffer[end + 2] == window[n + 2]);
    assert(buffer[end + 3] == window[n + 3]);
    assert(buffer[end + 4] == window[n + 4]);
    assert(buffer[end + 5] == window[n + 5]);
    assert(buffer[end + 6] == window[n + 6]);
    assert(buffer[end + 7] == window[n + 7]);
    assert(buffer[end + 8] == window[n + 8]);
    assert(buffer[end + 9] == window[n + 9]);
    assert(wire[n] == be16(record.rtype)[0]);
    assert(wire[n + 1] == be16(record.rtype)[1]);
    assert(wire[n + 2] == be16(record.rclass)[0]);
    assert(wire[n + 3] == be16(record.rclass)[1]);
    assert(wire[n + 4] == be32(record.ttl)[0]);
    assert(wire[n + 5] == be32(record.ttl)[1]);
    assert(wire[n + 6] == be32(record.ttl)[2]);
    assert(wire[n + 7] == be32(record.ttl)[3]);
    assert(wire[n + 8] == be16(length)[0]);
    assert(wire[n + 9] == be16(length)[1]);
    assert(u16_at(buffer, end) == record.rtype);
    assert(u16_at(buffer, end + 2) == record.rclass);
    assert(u32_at(buffer, end + 4) == record.ttl);
    assert(u16_at(buffer, end + 8) == length);
    assert(buffer.subrange(end + 10, end + 10 + length) =~= record.rdata) by {
        assert forall|k: int| 0 <= k < record.rdata.len() implies buffer.subrange(
            end + 10,
            end + 10 + length,
        )[k] == record.rdata[k] by {
            assert(window[n + 10 + k] == wire[n + 10 + k]);
        }
    }
}

/// A canonical record with a name other than the root reports the length of
/// its encoding as its size, as far as `usize` can hold it.
pub proof fn lemma_record_size(record: RecordView)
    requires
        canonical_record(record),
        record.name.len() > 0,
    ensures
        record_wire(record) is Ok,
        ResourceRecord::size_of(record.name, record.rdata) == capped(
            record_wire(record).unwrap().len(),
        ),
{
    let bytes = encode_utf8(record.name);
    lemma_canonical_encodes(bytes);
    vstd::utf8::encode_utf8_decode_utf8(record.name);
    if bytes.len() == 0 {
        assert(vstd::utf8::decode_utf8(bytes) =~= Seq::<char>::empty());
    }
    lemma_encoded_length(bytes);
}

/// One resource record.
#[derive(Debug)]
pub struct ResourceRecord {
    name: String,
    rtype: u16,
    rclass: u16,
    ttl: u32,
    rdata: Vec<u8>,
    size: usize,
}

impl View for ResourceRecord {
    type V = RecordView;

    closed spec fn view(&self) -> RecordView {
        RecordView {
            name: self.name@,
            rtype: self.rtype,
            rclass: self.rclass,
            ttl: self.ttl,
            rdata: self.rdata@,
        }
    }
}

impl ResourceRecord {
    /// The size that a record of the name and the data reports: their lengths
    /// and twelve bytes more, held to what `usize` can hold. For a name that is
    /// encoded as it is written, this is the length of the encoded record.
    pub open spec fn size_of(name: Seq<char>, rdata: Seq<u8>) -> usize {
        capped(12 + encode_utf8(name).len() + rdata.len())
    }

    #[verifier::type_invariant]
    spec fn well_formed(self) -> bool {
        self.size == ResourceRecord::size_of(self.name@, self.rdata@)
    }

    /// The reported size of a name and data of the given lengths.
    fn measure(name: usize, rdata: usize) -> (size: usize)
        ensures
            size == capped((12 + name + rdata) as nat),
    {
        name.saturating_add(rdata).saturating_add(12)
    }

    pub fn with_name(self, name: String) -> (record: ResourceRecord)
        ensures
            record@ == (RecordView { name: name@, ..self@ }),
    {
        let size: usize = ResourceRecord::measure(byte_len(&name), self.rdata.len());
        ResourceRecord {
            name,
            rtype: self.rtype,
            rclass: self.rclass,
            ttl: self.ttl,
            rdata: self.rdata,
            size,
        }
    }

    pub fn with_rtype(self, rtype: RecordType) -> (record: ResourceRecord)
        ensures
            record@ == (RecordView { rtype: rtype.number(), ..self@ }),
    {
        proof {
            use_type_invariant(&self);
        }
        ResourceRecord {
            name: self.name,
            rtype: rtype.code(),
            rclass: self.rclass,
            ttl: self.ttl,
            rdata: self.rdata,
            size: self.size,
        }
    }

    pub fn with_rclass(self, rclass: u16) -> (record: ResourceRecord)
        ensures
            record@ == (RecordView { rclass, ..self@ }),
    {
        proof {
            use_type_invariant(&self);
        }
        ResourceRecord {
            name: self.name,
            rtype: self.rtype,
            rclass,
            ttl: self.ttl,
            rdata: self.rdata,
            size: self.size,
        }
    }

    pub fn with_ttl(self, ttl: u32) -> (record: ResourceRecord)
        ensures
            record@ == (RecordView { ttl, ..self@ }),
    {
        proof {
            use_type_invariant(&self);
        }
        ResourceRecord {
            name: self.name,
            rtype: self.rtype,
            rclass: self.rclass,
            ttl,
            rdata: self.rdata,
            size: self.size,
        }
    }

    pub fn with_rdata(self, rdata: Vec<u8>) -> (record: ResourceRecord)
        ensures
            record@ == (RecordView { rdata: rdata@, ..self@ }),
    {
        let size: usize = ResourceRecord::measure(byte_len(&self.name), rdata.len());
        ResourceRecord {
            name: self.name,
            rtype: self.rtype,
            rclass: self.rclass,
            ttl: self.ttl,
            rdata,
            size,
        }
    }

    /// Encodes the record: its name as labels, type, class and time to live,
    /// the length of its data, and the data.
    pub fn serialize(&self) -> (outcome: Result<Vec<u8>, DnsError>)
        ensures
            match record_wire(self@) {
                Ok(wire) => outcome matches Ok(bytes) && bytes@ == wire,
                Err(error) => outcome == Err::<Vec<u8>, DnsError>(error),
            },
    {
        let mut buf: Vec<u8> = match encode_domain(self.name.clone()) {
            Ok(name) => name,
            Err(error) => {
                return Err(error);
            },
        };
        push_u16(&mut buf, self.rtype);
        push_u16(&mut buf, self.rclass);
        push_u32(&mut buf, self.ttl);
        push_u16(&mut buf, (self.rdata.len() % 65536) as u16);
        push_bytes(&mut buf, self.rdata.as_slice());
        Ok(buf)
    }

    /// Decodes the record at the cursor and moves the cursor behind it. When
    /// the record cannot be read, the cursor stays.
    pub fn deserialize(buffer: &[u8], offset: &mut usize) -> (outcome: Result<
        ResourceRecord,
        DnsError,
    >)
        ensures
            match record_at(buffer@, *old(offset) as int) {
                Ok((record, next)) => outcome matches Ok(read) && read@ == record && *final(offset)
                    == next,
                Err(error) => outcome == Err::<ResourceRecord, DnsError>(error) && *final(offset)
                    == *old(offset),
            },
    {
        let (name, end) = match decode_name(buffer, *offset) {
            Ok(read) => read,
            Err(error) => {
                return Err(error);
            },
        };
        if end > buffer.len() || buffer.len() - end < 10 {
            return Err(DnsError::Truncated);
        }
        let rtype: u16 = read_u16(buffer, end);
        let rclass: u16 = read_u16(buffer, end + 2);
        let ttl: u32 = read_u32(buffer, end + 4);
        let rdlength: usize = read_u16(buffer, end + 8) as usize;
        if buffer.len() - end - 10 < rdlength {
            return Err(DnsError::Truncated);
        }
        let rdata: Vec<u8> = slice_to_vec(slice_subrange(buffer, end + 10, end + 10 + rdlength));
        *offset = end + 10 + rdlength;
        let size: usize = ResourceRecord::measure(byte_len(&name), rdata.len());
        Ok(ResourceRecord { name, rtype, rclass, ttl, rdata, size })
    }

    pub fn size(&self) -> (size: usize)
        ensures
            size == ResourceRecord::size_of(self@.name, self@.rdata),
    {
        proof {
            use_type_invariant(self);
        }
        self.size
    }

    pub fn name(&self) -> (name: String)
        ensures
            name@ == self@.name,
    {
        self.name.clone()
    }

    pub fn rtype(&self) -> (rtype: RecordType)
        ensures
            rtype == RecordType::of(self@.rtype),
    {
        RecordType::from(self.rtype)
    }

    pub fn rclass(&self) -> (rclass: u16)
        ensures
            rclass == self@.rclass,
    {
        self.rclass
    }

    pub fn ttl(&self) -> (ttl: u32)
        ensures
            ttl == self@.ttl,
    {
        self.ttl
    }

    pub fn rdata(&self) -> (rdata: Vec<u8>)
        ensures
            rdata@ == self@.rdata,
    {
        self.rdata.clone()
    }

    /// The number of the record's type, as it stands on the wire.
    pub fn rtype_code(&self) -> (rtype: u16)
        ensures
            rtype == self@.rtype,
    {
        self.rtype
    }
}

impl Default for ResourceRecord {
    fn default() -> (record: ResourceRecord)
        ensures
            record@ == (RecordView {
                name: Seq::<char>::empty(),
                rtype: 1,
                rclass: 1,
                ttl: 0,
                rdata: Seq::<u8>::empty(),
            }),
    {
        let name = String::new();
        let rdata: Vec<u8> = Vec::new();
        let size: usize = ResourceRecord::measure(byte_len(&name), rdata.len());
        ResourceRecord { name, rtype: 1, rclass: 1, ttl: 0, rdata, size }
    }
}

impl Clone for ResourceRecord {
    fn clone(&self) -> (copy: ResourceRecord)
        ensures
            copy@ == self@,
    {
        proof {
            use_type_invariant(self);
        }
        ResourceRecord {
            name: self.name.clone(),
            rtype: self.rtype,
            rclass: self.rclass,
            ttl: self.ttl,
            rdata: self.rdata.clone(),
            size: self.size,
        }
    }
}

impl PartialEq for ResourceRecord {
    fn eq(&self, other: &ResourceRecord) -> (equal: bool) {
        let same_data: bool = self.rdata == other.rdata;
        assert(same_data == (self.rdata@ == other.rdata@)) by {
            if same_data {
                assert(self.rdata@ =~= other.rdata@);
            }
        }
        self.name == other.name && self.rtype == other.rtype && self.rclass == other.rclass
            && self.ttl == other.ttl && same_data
    }
}

impl PartialEqSpecImpl for ResourceRecord {
    open spec fn obeys_eq_spec() -> bool {
        true
    }

    open spec fn eq_spec(&self, other: &ResourceRecord) -> bool {
        self@ == other@
    }
}

} // verus!
