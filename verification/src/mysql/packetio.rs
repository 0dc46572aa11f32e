//! Framing of MySQL packets: a payload travels in frames of at most
//! `MAX_PAYLOAD_LEN` bytes, each behind a four-byte header (length in three
//! little-endian bytes, then a sequence number). The connection itself is
//! the caller's: it hands the bytes it read to the reading steps here and
//! sends the bytes that writing gives.
use vstd::prelude::*;
use byteorder::{ByteOrder, LittleEndian};
use super::constants::MAX_PAYLOAD_LEN;
use super::errors::MysqlError;
use super::utils;

verus! {

/// The sequence number that follows `s`, wrapping after 255.
pub open spec fn next_seq(s: u8) -> u8 {
    if s == 255 {
        0
    } else {
        (s + 1) as u8
    }
}

/// The header of a frame of `len` bytes with sequence number `seq`.
pub open spec fn spec_header(len: nat, seq: u8) -> Seq<u8> {
    utils::le_bytes(len, 3).push(seq)
}

/// The frames that carry `payload`, the first with sequence number `seq`:
/// full frames while at least `MAX_PAYLOAD_LEN` bytes are left, then one
/// frame of what is left, which may be nothing.
pub open spec fn spec_frames(payload: Seq<u8>, seq: u8) -> Seq<u8>
    decreases payload.len(),
{
    if payload.len() >= MAX_PAYLOAD_LEN {
        spec_header(MAX_PAYLOAD_LEN as nat, seq) + payload.take(MAX_PAYLOAD_LEN as int) + spec_frames(
            payload.skip(MAX_PAYLOAD_LEN as int),
            next_seq(seq),
        )
    } else {
        spec_header(payload.len(), seq) + payload
    }
}

/// The sequence number that follows the frames of `payload` sent from `seq`.
pub open spec fn spec_seq_after(payload: Seq<u8>, seq: u8) -> u8
    decreases payload.len(),
{
    if payload.len() >= MAX_PAYLOAD_LEN {
        spec_seq_after(payload.skip(MAX_PAYLOAD_LEN as int), next_seq(seq))
    } else {
        next_seq(seq)
    }
}

/// The framing state of one connection: the sequence number of the next
/// frame, and the payload gathered so far of a packet being read.
#[derive(Debug)]
pub struct PacketIO {
    sequence: u8,
    pending: Vec<u8>,
}

/// What the framing state holds.
pub struct PacketIOView {
    pub sequence: u8,
    pub pending: Seq<u8>,
}

impl View for PacketIO {
    type V = PacketIOView;

    closed spec fn view(&self) -> PacketIOView {
        PacketIOView { sequence: self.sequence, pending: self.pending@ }
    }
}

/// Why a packet could not be read.
pub enum ReadFailure {
    InvalidHeader,
    Mismatch,
    ZeroPayload,
    Incomplete,
    Other,
}

/// What a reading step gives: a failure, the whole packet, the length of
/// the payload to read next, or the need of the next header.
pub enum ReadEvent {
    Failed(ReadFailure),
    Packet(Seq<u8>),
    Payload(nat),
    More,
}

/// What a header tells the reader.
#[derive(Debug)]
pub enum HeaderStep {
    /// Read this many bytes of payload next.
    Payload(usize),
    /// The packet is complete.
    Packet(Vec<u8>),
}

/// The failure an error stands for.
pub open spec fn failure_of(e: MysqlError) -> ReadFailure {
    match e {
        MysqlError::InvalidPacketHeader => ReadFailure::InvalidHeader,
        MysqlError::MismatchPacketSequence => ReadFailure::Mismatch,
        MysqlError::PacketlZeroPayload => ReadFailure::ZeroPayload,
        MysqlError::IncompletePacketPayload => ReadFailure::Incomplete,
        _ => ReadFailure::Other,
    }
}

/// The event a header step stands for.
pub open spec fn header_event(r: Result<HeaderStep, MysqlError>) -> ReadEvent {
    match r {
        Ok(HeaderStep::Payload(n)) => ReadEvent::Payload(n as nat),
        Ok(HeaderStep::Packet(p)) => ReadEvent::Packet(p@),
        Err(e) => ReadEvent::Failed(failure_of(e)),
    }
}

/// The event a payload step stands for.
pub open spec fn payload_event(r: Result<Option<Vec<u8>>, MysqlError>) -> ReadEvent {
    match r {
        Ok(Some(p)) => ReadEvent::Packet(p@),
        Ok(None) => ReadEvent::More,
        Err(e) => ReadEvent::Failed(failure_of(e)),
    }
}

/// The reader after a header `h`: a header of the wrong size or sequence
/// number fails; a length of zero ends the packet (fails if nothing came
/// before it); any other length is the payload to read next. A packet or a
/// failure leaves nothing gathered.
pub open spec fn spec_on_header(st: PacketIOView, h: Seq<u8>) -> (PacketIOView, ReadEvent) {
    if h.len() != 4 {
        (PacketIOView { sequence: st.sequence, pending: Seq::empty() }, ReadEvent::Failed(ReadFailure::InvalidHeader))
    } else if h[3] != st.sequence {
        (PacketIOView { sequence: st.sequence, pending: Seq::empty() }, ReadEvent::Failed(ReadFailure::Mismatch))
    } else {
        let s2 = next_seq(st.sequence);
        let n = utils::le_value(h.take(3));
        if n == 0 {
            if st.pending.len() == 0 {
                (PacketIOView { sequence: s2, pending: Seq::empty() }, ReadEvent::Failed(ReadFailure::ZeroPayload))
            } else {
                (PacketIOView { sequence: s2, pending: Seq::empty() }, ReadEvent::Packet(st.pending))
            }
        } else {
            (PacketIOView { sequence: s2, pending: st.pending }, ReadEvent::Payload(n))
        }
    }
}

/// The reader after a payload `buf` that should have been `expected` bytes
/// long: a short one fails; one shorter than a full frame ends the packet;
/// a full one is gathered and the next header is needed.
pub open spec fn spec_on_payload(st: PacketIOView, expected: nat, buf: Seq<u8>) -> (PacketIOView, ReadEvent) {
    if buf.len() != expected {
        (PacketIOView { sequence: st.sequence, pending: Seq::empty() }, ReadEvent::Failed(ReadFailure::Incomplete))
    } else if expected < MAX_PAYLOAD_LEN {
        (PacketIOView { sequence: st.sequence, pending: Seq::empty() }, ReadEvent::Packet(st.pending + buf))
    } else {
        (PacketIOView { sequence: st.sequence, pending: st.pending + buf }, ReadEvent::More)
    }
}

/// The reader run over the bytes `wire` of a connection, header by payload,
/// until a packet or a failure; `More` where the bytes end first.
pub open spec fn spec_read_wire(st: PacketIOView, wire: Seq<u8>) -> (PacketIOView, ReadEvent)
    decreases wire.len(),
{
    if wire.len() < 4 {
        (st, ReadEvent::More)
    } else {
        let (st1, ev) = spec_on_header(st, wire.take(4));
        match ev {
            ReadEvent::Payload(n) => {
                let rest = wire.skip(4);
                if rest.len() < n {
                    (st1, ReadEvent::More)
                } else {
                    let (st2, ev2) = spec_on_payload(st1, n, rest.take(n as int));
                    match ev2 {
                        ReadEvent::More => spec_read_wire(st2, rest.skip(n as int)),
                        other => (st2, other),
                    }
                }
            },
            other => (st1, other),
        }
    }
}

/// `d` with the four bytes of `h` written from position `at` on.
pub open spec fn stamp(d: Seq<u8>, at: int, h: Seq<u8>) -> Seq<u8> {
    d.update(at, h[0]).update(at + 1, h[1]).update(at + 2, h[2]).update(at + 3, h[3])
}

/// A packet buffer `d` (a header's room at `start`, then the payload) after
/// its frame headers are written in place, the first with sequence number
/// `seq`: while a full frame's worth of payload follows the header's room,
/// a full frame's header goes there and the next header's room is the last
/// four bytes of that frame; then the header of what is left.
pub open spec fn spec_stamped(d: Seq<u8>, start: int, seq: u8) -> Seq<u8>
    decreases d.len() - start,
{
    if start < 0 || start + 4 > d.len() {
        d
    } else if d.len() - start - 4 >= MAX_PAYLOAD_LEN {
        spec_stamped(
            stamp(d, start, spec_header(MAX_PAYLOAD_LEN as nat, seq)),
            start + MAX_PAYLOAD_LEN,
            next_seq(seq),
        )
    } else {
        stamp(d, start, spec_header((d.len() - start - 4) as nat, seq))
    }
}

/// A frame header is the payload length in three bytes, least significant
/// first, then the sequence number.
pub proof fn lemma_header_bytes(len: nat, seq: u8)
    requires
        len < 0x100_0000,
    ensures
        spec_header(len, seq) == seq![(len % 256) as u8, ((len / 256) % 256) as u8, (len / 65536) as u8, seq],
{
    reveal_with_fuel(utils::le_bytes, 4);
    assert((len / 256) / 256 == len / 65536) by (nonlinear_arith);
    assert(((len / 65536) % 256) == len / 65536) by (nonlinear_arith)
        requires
            len < 0x100_0000,
    ;
    assert(spec_header(len, seq) =~= seq![(len % 256) as u8, ((len / 256) % 256) as u8, (len / 65536) as u8, seq]);
}

/// Writes `n < 2^24` in three little-endian bytes.
#[verifier::external_body]
fn le_write_u24(n: u32) -> (r: [u8; 3])
    requires
        n < 0x100_0000,
    ensures
        r@ == utils::le_bytes(n as nat, 3),
{
    let mut buf = [0u8; 3];
    LittleEndian::write_u24(&mut buf, n);
    buf
}

proof fn lemma_full_header(seq: u8)
    ensures
        spec_header(MAX_PAYLOAD_LEN as nat, seq) == seq![0xffu8, 0xffu8, 0xffu8, seq],
{
    reveal_with_fuel(utils::le_bytes, 4);
    assert(utils::le_bytes(MAX_PAYLOAD_LEN as nat, 3) =~= seq![0xffu8, 0xffu8, 0xffu8]);
    assert(spec_header(MAX_PAYLOAD_LEN as nat, seq) =~= seq![0xffu8, 0xffu8, 0xffu8, seq]);
}

impl PacketIO {
    /// A fresh connection: sequence number 0, nothing gathered.
    pub fn new() -> (p: PacketIO)
        ensures
            p@.sequence == 0,
            p@.pending == Seq::<u8>::empty(),
    {
        PacketIO { sequence: 0, pending: Vec::new() }
    }

    /// Starts a new command: the sequence number goes back to 0.
    pub fn reset_seq(&mut self)
        ensures
            final(self)@.sequence == 0,
            final(self)@.pending == old(self)@.pending,
    {
        self.sequence = 0;
    }

    /// The sequence number of the next frame.
    pub fn sequence(&self) -> (r: u8)
        ensures
            r == self@.sequence,
    {
        self.sequence
    }

    /// Starts reading a packet: nothing gathered yet.
    pub fn begin_read(&mut self)
        ensures
            final(self)@.sequence == old(self)@.sequence,
            final(self)@.pending == Seq::<u8>::empty(),
    {
        self.pending = Vec::new();
    }

    /// The frames that carry a packet. `data` holds four bytes reserved for
    /// a header, then the payload. Each frame's header is written into
    /// `data` in place, in front of the frame's payload (so a header after
    /// the first one covers the last four bytes of the frame before it, once
    /// that frame is out); the result is what goes on the wire, and the
    /// sequence number moves on by one per frame.
    pub fn write_packet(&mut self, data: &mut [u8]) -> (wire: Vec<u8>)
        requires
            old(data)@.len() >= 4,
        ensures
            wire@ == spec_frames(old(data)@.skip(4), old(self)@.sequence),
            final(data)@ == spec_stamped(old(data)@, 0, old(self)@.sequence),
            final(self)@.sequence == spec_seq_after(old(data)@.skip(4), old(self)@.sequence),
            final(self)@.pending == old(self)@.pending,
    {
        let ghost orig = data@;
        let ghost payload = orig.skip(4);
        let ghost s0 = self.sequence;
        let mut out: Vec<u8> = Vec::new();
        let mut pos: usize = 4;
        let mut data_len: usize = data.len() - 4;
        proof {
            assert(orig.skip(4) =~= payload);
            assert(out@ + spec_frames(orig.skip(pos as int), self.sequence) =~= spec_frames(payload, s0));
        }
        while data_len >= MAX_PAYLOAD_LEN
            invariant
                4 <= pos <= data@.len(),
                data.len() == data@.len(),
                data@.len() == orig.len(),
                data_len == data@.len() - pos,
                payload == orig.skip(4),
                forall|j: int| pos <= j < orig.len() ==> data@[j] == orig[j],
                spec_stamped(data@, pos - 4, self.sequence) == spec_stamped(orig, 0, s0),
                out@ + spec_frames(orig.skip(pos as int), self.sequence) == spec_frames(payload, s0),
                spec_seq_after(orig.skip(pos as int), self.sequence) == spec_seq_after(payload, s0),
                self.pending@ == old(self)@.pending,
            decreases data_len,
        {
            let ghost rest = orig.skip(pos as int);
            let ghost before = out@;
            let ghost d0 = data@;
            data[pos - 4] = 0xff;
            data[pos - 3] = 0xff;
            data[pos - 2] = 0xff;
            data[pos - 1] = self.sequence;
            utils::append_slice(&mut out, data, pos - 4, pos + MAX_PAYLOAD_LEN);
            proof {
                lemma_full_header(self.sequence);
                let h = spec_header(MAX_PAYLOAD_LEN as nat, self.sequence);
                assert(data@ =~= stamp(d0, pos - 4, h));
                assert(rest.take(MAX_PAYLOAD_LEN as int) =~= orig.subrange(pos as int, pos + MAX_PAYLOAD_LEN));
                assert(rest.skip(MAX_PAYLOAD_LEN as int) =~= orig.skip(pos + MAX_PAYLOAD_LEN));
                assert(data@.subrange(pos - 4, pos + MAX_PAYLOAD_LEN) =~= h + rest.take(MAX_PAYLOAD_LEN as int));
                assert(out@ =~= before + h + rest.take(MAX_PAYLOAD_LEN as int));
                assert(spec_frames(rest, self.sequence) == h + rest.take(MAX_PAYLOAD_LEN as int) + spec_frames(
                    rest.skip(MAX_PAYLOAD_LEN as int),
                    next_seq(self.sequence),
                ));
                assert(out@ + spec_frames(orig.skip(pos + MAX_PAYLOAD_LEN), next_seq(self.sequence)) =~= before
                    + spec_frames(rest, self.sequence));
                assert(spec_stamped(d0, pos - 4, self.sequence) == spec_stamped(
                    data@,
                    pos + MAX_PAYLOAD_LEN - 4,
                    next_seq(self.sequence),
                ));
            }
            self.sequence = self.sequence.wrapping_add(1);
            pos += MAX_PAYLOAD_LEN;
            data_len -= MAX_PAYLOAD_LEN;
        }
        let ghost rest = orig.skip(pos as int);
        let ghost before = out@;
        let ghost d0 = data@;
        let h = le_write_u24(data_len as u32);
        data[pos - 4] = h[0];
        data[pos - 3] = h[1];
        data[pos - 2] = h[2];
        data[pos - 1] = self.sequence;
        let len = data.len();
        utils::append_slice(&mut out, data, pos - 4, len);
        proof {
            utils::lemma_le_bytes_len(data_len as nat, 3);
            let hs = spec_header(data_len as nat, self.sequence);
            assert(data@ =~= stamp(d0, pos - 4, hs));
            assert(rest =~= orig.subrange(pos as int, orig.len() as int));
            assert(data@.subrange(pos - 4, len as int) =~= hs + rest);
            assert(out@ =~= before + hs + rest);
        }
        self.sequence = self.sequence.wrapping_add(1);
        out
    }

    /// Reads a frame header: what to read next, or the end of the packet.
    pub fn on_header(&mut self, header: &[u8]) -> (r: Result<HeaderStep, MysqlError>)
        ensures
            (final(self)@, header_event(r)) == spec_on_header(old(self)@, header@),
    {
        if header.len() != 4 {
            self.pending = Vec::new();
            return Err(MysqlError::InvalidPacketHeader);
        }
        if header[3] != self.sequence {
            self.pending = Vec::new();
            return Err(MysqlError::MismatchPacketSequence);
        }
        self.sequence = self.sequence.wrapping_add(1);
        let payload_len = utils::le_read_uint(header, 3);
        proof {
            assert(header@.subrange(0, 3) =~= header@.take(3));
            utils::lemma_le_value_subrange_bound(header@.take(3));
            vstd::arithmetic::power::lemma_pow_positive(256, 3);
            reveal_with_fuel(vstd::arithmetic::power::pow, 4);
        }
        if payload_len == 0 {
            let mut packet: Vec<u8> = Vec::new();
            std::mem::swap(&mut packet, &mut self.pending);
            if packet.len() == 0 {
                return Err(MysqlError::PacketlZeroPayload);
            }
            return Ok(HeaderStep::Packet(packet));
        }
        Ok(HeaderStep::Payload(payload_len as usize))
    }

    /// Takes the payload `buf` of a frame whose header announced `expected`
    /// bytes: the whole packet, or `None` where the next header is needed.
    pub fn on_payload(&mut self, expected: usize, buf: Vec<u8>) -> (r: Result<Option<Vec<u8>>, MysqlError>)
        ensures
            (final(self)@, payload_event(r)) == spec_on_payload(old(self)@, expected as nat, buf@),
    {
        if buf.len() != expected {
            self.pending = Vec::new();
            return Err(MysqlError::IncompletePacketPayload);
        }
        let mut buf = buf;
        if expected < MAX_PAYLOAD_LEN {
            let mut packet: Vec<u8> = Vec::new();
            std::mem::swap(&mut packet, &mut self.pending);
            if packet.len() == 0 {
                proof {
                    assert(packet@ + buf@ =~= buf@);
                }
                return Ok(Some(buf));
            }
            packet.append(&mut buf);
            return Ok(Some(packet));
        }
        self.pending.append(&mut buf);
        Ok(None)
    }
}

/// The length a header of `len < 2^24` bytes announces is `len`.
proof fn lemma_header_len(len: nat, seq: u8)
    requires
        len < 0x100_0000,
    ensures
        spec_header(len, seq).len() == 4,
        spec_header(len, seq)[3] == seq,
        utils::le_value(spec_header(len, seq).take(3)) == len,
{
    utils::lemma_le_bytes_len(len, 3);
    utils::lemma_le_value_of_bytes(len, 3);
    assert(vstd::arithmetic::power::pow(256, 3) == 0x100_0000) by {
        reveal_with_fuel(vstd::arithmetic::power::pow, 4);
    }
    assert((len as int) % 0x100_0000 == len);
    assert(spec_header(len, seq).take(3) =~= utils::le_bytes(len, 3));
}

/// Reading frames of `payload` after `gathered` was read gives both.
proof fn lemma_frames_read_back_from(gathered: Seq<u8>, payload: Seq<u8>, seq: u8, tail: Seq<u8>)
    requires
        gathered.len() + payload.len() > 0,
    ensures
        spec_read_wire(PacketIOView { sequence: seq, pending: gathered }, spec_frames(payload, seq) + tail)
            == (PacketIOView { sequence: spec_seq_after(payload, seq), pending: Seq::<u8>::empty() }, ReadEvent::Packet(
            gathered + payload,
        )),
    decreases payload.len(),
{
    let wire = spec_frames(payload, seq) + tail;
    if payload.len() >= MAX_PAYLOAD_LEN {
        let m = MAX_PAYLOAD_LEN as int;
        let h = spec_header(MAX_PAYLOAD_LEN as nat, seq);
        let later = spec_frames(payload.skip(m), next_seq(seq));
        lemma_header_len(MAX_PAYLOAD_LEN as nat, seq);
        assert(wire =~= h + (payload.take(m) + later + tail));
        assert(wire.take(4) =~= h);
        let rest = wire.skip(4);
        assert(rest =~= payload.take(m) + (later + tail));
        assert(rest.take(m) =~= payload.take(m));
        assert(rest.skip(m) =~= later + tail);
        lemma_frames_read_back_from(gathered + payload.take(m), payload.skip(m), next_seq(seq), tail);
        assert(gathered + payload.take(m) + payload.skip(m) =~= gathered + payload);
    } else {
        let n = payload.len();
        let h = spec_header(n, seq);
        lemma_header_len(n, seq);
        assert(wire =~= h + (payload + tail));
        assert(wire.take(4) =~= h);
        if n == 0 {
            assert(gathered + payload =~= gathered);
        } else {
            let rest = wire.skip(4);
            assert(rest =~= payload + tail);
            assert(rest.take(n as int) =~= payload);
        }
    }
}

/// What `write_packet` sends of a non-empty payload, a reader whose
/// sequence number is the writer's reads back whole, whatever bytes follow,
/// and both end at the same sequence number.
pub proof fn lemma_frames_read_back(payload: Seq<u8>, seq: u8, tail: Seq<u8>)
    requires
        payload.len() > 0,
    ensures
        spec_read_wire(PacketIOView { sequence: seq, pending: Seq::empty() }, spec_frames(payload, seq) + tail)
            == (PacketIOView { sequence: spec_seq_after(payload, seq), pending: Seq::<u8>::empty() }, ReadEvent::Packet(
            payload,
        )),
{
    lemma_frames_read_back_from(Seq::empty(), payload, seq, tail);
    assert(Seq::<u8>::empty() + payload =~= payload);
}

} // verus!
