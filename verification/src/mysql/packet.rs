use vstd::prelude::*;
use super::constants::{StatusFlags, OK_PACKET_HEADER_MARK};
use super::errors::MysqlError;
use super::utils::{self, le_read_u16, read_length_encoded_int, write_length_encoded_int};

verus! {

/// A MySQL OK packet (protocol 4.1 layout).
#[derive(Debug, Clone, Copy, PartialEq, Eq, Structural)]
pub struct OkPacket {
    affected_rows: u64,
    last_insert_id: u64,
    status: StatusFlags,
    warnings: u16,
}

/// The two little-endian bytes of `v`.
pub open spec fn u16_le(v: u16) -> Seq<u8> {
    seq![v as u8, (v >> 8) as u8]
}

/// Where the last-insert-id field of an OK packet starts in `data`.
pub open spec fn ok_insert_id_pos(data: Seq<u8>) -> int {
    1 + utils::spec_read_lenenc(data.skip(1)).0
}

/// Where the status field of an OK packet starts in `data`.
pub open spec fn ok_status_pos(data: Seq<u8>) -> int {
    let p1 = ok_insert_id_pos(data);
    p1 + utils::spec_read_lenenc(data.skip(p1)).0
}

/// Whether parsing `data` as an OK packet stays inside `data`.
pub open spec fn ok_parse_in_bounds(data: Seq<u8>) -> bool {
    data.len() >= 7 && data[0] == OK_PACKET_HEADER_MARK ==> ok_status_pos(data) + 4 <= data.len()
}

impl OkPacket {
    pub closed spec fn spec_affected_rows(self) -> u64 {
        self.affected_rows
    }

    pub closed spec fn spec_last_insert_id(self) -> u64 {
        self.last_insert_id
    }

    pub closed spec fn spec_status(self) -> StatusFlags {
        self.status
    }

    pub closed spec fn spec_warnings(self) -> u16 {
        self.warnings
    }

    /// The packet with these fields.
    pub closed spec fn spec_new(affected_rows: u64, last_insert_id: u64, status: StatusFlags, warnings: u16) -> OkPacket {
        OkPacket { affected_rows, last_insert_id, status, warnings }
    }

    /// The bytes that encode this packet.
    pub open spec fn spec_to_bits(self) -> Seq<u8> {
        seq![OK_PACKET_HEADER_MARK] + utils::spec_lenenc(self.spec_affected_rows()) + utils::spec_lenenc(
            self.spec_last_insert_id(),
        ) + u16_le(self.spec_status().spec_bits()) + u16_le(self.spec_warnings())
    }

    /// The packet that an OK packet `data` holds.
    pub open spec fn spec_parse(data: Seq<u8>) -> OkPacket {
        let p1 = ok_insert_id_pos(data);
        let p2 = ok_status_pos(data);
        Self::spec_new(
            utils::spec_read_lenenc(data.skip(1)).1,
            utils::spec_read_lenenc(data.skip(p1)).1,
            StatusFlags::spec_from_bits_truncate(utils::le_value(data.subrange(p2, p2 + 2)) as u16),
            utils::le_value(data.subrange(p2 + 2, p2 + 4)) as u16,
        )
    }

    /// An OK packet with the given status and nothing else.
    pub fn empty(status: StatusFlags) -> (p: OkPacket)
        ensures
            p == Self::spec_new(0, 0, status, 0),
            p.spec_affected_rows() == 0,
            p.spec_last_insert_id() == 0,
            p.spec_status() == status,
            p.spec_warnings() == 0,
    {
        OkPacket { status, last_insert_id: 0, affected_rows: 0, warnings: 0 }
    }

    pub fn new(affected_rows: u64, last_insert_id: u64, status: StatusFlags, warnings: u16) -> (p: OkPacket)
        ensures
            p == Self::spec_new(affected_rows, last_insert_id, status, warnings),
            p.spec_affected_rows() == affected_rows,
            p.spec_last_insert_id() == last_insert_id,
            p.spec_status() == status,
            p.spec_warnings() == warnings,
    {
        OkPacket { affected_rows, last_insert_id, status, warnings }
    }

    pub fn affected_rows(&self) -> (r: u64)
        ensures
            r == self.spec_affected_rows(),
    {
        self.affected_rows
    }

    pub fn last_insert_id(&self) -> (r: u64)
        ensures
            r == self.spec_last_insert_id(),
    {
        self.last_insert_id
    }

    pub fn status(&self) -> (r: StatusFlags)
        ensures
            r == self.spec_status(),
    {
        self.status
    }

    pub fn warnings(&self) -> (r: u16)
        ensures
            r == self.spec_warnings(),
    {
        self.warnings
    }

    /// Parses an OK packet: too short a packet is `OkPacketWrongSize`, one
    /// that does not start with the OK mark is `OkPacketILL`.
    pub fn parse(data: &[u8]) -> (res: Result<OkPacket, MysqlError>)
        requires
            ok_parse_in_bounds(data@),
        ensures
            data@.len() < 7 ==> res matches Err(MysqlError::OkPacketWrongSize),
            data@.len() >= 7 && data@[0] != OK_PACKET_HEADER_MARK ==> res matches Err(
                MysqlError::OkPacketILL,
            ),
            data@.len() >= 7 && data@[0] == OK_PACKET_HEADER_MARK ==> (res matches Ok(p) && p
                == Self::spec_parse(data@)),
            res matches Ok(p) ==> {
                &&& p.spec_affected_rows() == utils::spec_read_lenenc(data@.skip(1)).1
                &&& p.spec_last_insert_id() == utils::spec_read_lenenc(data@.skip(ok_insert_id_pos(data@))).1
                &&& p.spec_status() == StatusFlags::spec_from_bits_truncate(
                    utils::le_value(data@.subrange(ok_status_pos(data@), ok_status_pos(data@) + 2)) as u16,
                )
                &&& p.spec_warnings() == utils::le_value(
                    data@.subrange(ok_status_pos(data@) + 2, ok_status_pos(data@) + 4),
                ) as u16
            },
    {
        if data.len() < 7 {
            return Err(MysqlError::OkPacketWrongSize);
        }
        let mut pos: usize = 0;
        if data[pos] == OK_PACKET_HEADER_MARK {
            pos += 1;
            let affected_rows = read_length_encoded_int(&data[pos..data.len()]);
            proof { assert(data@.subrange(1, data@.len() as int) =~= data@.skip(1)); }
            pos += affected_rows.0;
            let last_insert_id = read_length_encoded_int(&data[pos..data.len()]);
            proof { assert(data@.subrange(pos as int, data@.len() as int) =~= data@.skip(pos as int)); }
            pos += last_insert_id.0;
            let status = le_read_u16(&data[pos..data.len()]);
            proof { assert(data@.subrange(pos as int, data@.len() as int).subrange(0, 2) =~= data@.subrange(pos as int, pos + 2)); }
            pos += 2;
            let warnings = le_read_u16(&data[pos..data.len()]);
            proof { assert(data@.subrange(pos as int, data@.len() as int).subrange(0, 2) =~= data@.subrange(pos as int, pos + 2)); }
            let status_flags = StatusFlags::from_bits_truncate(status);
            return Ok(
                OkPacket {
                    affected_rows: affected_rows.1,
                    last_insert_id: last_insert_id.1,
                    status: status_flags,
                    warnings: warnings,
                },
            );
        }
        Err(MysqlError::OkPacketILL)
    }

    /// Encodes the packet.
    pub fn to_bits(&self) -> (data: Vec<u8>)
        ensures
            data@ == self.spec_to_bits(),
    {
        let mut data: Vec<u8> = Vec::new();
        data.push(OK_PACKET_HEADER_MARK);
        let mut a = write_length_encoded_int(self.affected_rows);
        data.append(&mut a);
        let mut l = write_length_encoded_int(self.last_insert_id);
        data.append(&mut l);
        let status_bits = self.status.bits();
        data.push(#[verifier::truncate] (status_bits as u8));
        data.push(#[verifier::truncate] ((status_bits >> 8) as u8));
        data.push(#[verifier::truncate] (self.warnings as u8));
        data.push(#[verifier::truncate] ((self.warnings >> 8) as u8));
        proof {
            assert(data@ =~= self.spec_to_bits());
        }
        data
    }
}

/// The packet made of some fields has those fields.
pub proof fn lemma_spec_new_fields(affected_rows: u64, last_insert_id: u64, status: StatusFlags, warnings: u16)
    ensures
        OkPacket::spec_new(affected_rows, last_insert_id, status, warnings).spec_affected_rows() == affected_rows,
        OkPacket::spec_new(affected_rows, last_insert_id, status, warnings).spec_last_insert_id() == last_insert_id,
        OkPacket::spec_new(affected_rows, last_insert_id, status, warnings).spec_status() == status,
        OkPacket::spec_new(affected_rows, last_insert_id, status, warnings).spec_warnings() == warnings,
{
}

/// The two bytes of a `u16`, read back little-endian, give the `u16`.
pub proof fn lemma_u16_le_roundtrip(v: u16)
    ensures
        utils::le_value(u16_le(v)) == v,
{
    let s = u16_le(v);
    reveal_with_fuel(utils::le_value, 3);
    assert(s.drop_first() =~= seq![(v >> 8) as u8]);
    assert(s.drop_first().drop_first() =~= Seq::<u8>::empty());
    assert(v as u8 + 256 * ((v >> 8) as u8) == v) by (bit_vector);
}

/// Parsing the encoding of an OK packet gives the packet back.
pub proof fn lemma_ok_packet_roundtrip(p: OkPacket)
    requires
        p.spec_status().wf(),
    ensures
        p.spec_to_bits().len() >= 7,
        p.spec_to_bits()[0] == OK_PACKET_HEADER_MARK,
        ok_parse_in_bounds(p.spec_to_bits()),
        OkPacket::spec_parse(p.spec_to_bits()) == p,
{
    let a = utils::spec_lenenc(p.spec_affected_rows());
    let l = utils::spec_lenenc(p.spec_last_insert_id());
    let st = u16_le(p.spec_status().spec_bits());
    let w = u16_le(p.spec_warnings());
    let data = p.spec_to_bits();
    assert(data =~= seq![OK_PACKET_HEADER_MARK] + a + l + st + w);
    assert(data.skip(1) =~= a + (l + st + w));
    utils::lemma_lenenc_roundtrip(p.spec_affected_rows(), l + st + w);
    let p1: int = 1 + a.len() as int;
    assert(data.skip(p1) =~= l + (st + w));
    utils::lemma_lenenc_roundtrip(p.spec_last_insert_id(), st + w);
    let p2: int = p1 + l.len() as int;
    assert(ok_status_pos(data) == p2);
    assert(data.subrange(p2, p2 + 2) =~= st);
    assert(data.subrange(p2 + 2, p2 + 4) =~= w);
    lemma_u16_le_roundtrip(p.spec_status().spec_bits());
    lemma_u16_le_roundtrip(p.spec_warnings());
    p.spec_status().lemma_from_own_bits();
    assert(OkPacket::spec_parse(data) == p);
}

} // verus!
