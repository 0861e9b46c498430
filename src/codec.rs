//! The fixed 32-byte header and the word/byte blocks of an SMB message.
use crate::bytes::{
    from_le16, le16, le32, lemma_le16_round_trip, lemma_le32_round_trip, push_all, push_le16, push_le32, read_le16, read_le32,
};
use crate::error::{ProtocolError, SMBError};
use vstd::prelude::*;

verus! {

pub const SMB_COM_CREATE_DIRECTORY: u8 = 0x00;
pub const SMB_COM_DELETE_DIRECTORY: u8 = 0x01;
pub const SMB_COM_OPEN: u8 = 0x02;
pub const SMB_COM_CREATE: u8 = 0x03;
pub const SMB_COM_CLOSE: u8 = 0x04;
pub const SMB_COM_FLUSH: u8 = 0x05;
pub const SMB_COM_DELETE: u8 = 0x06;
pub const SMB_COM_RENAME: u8 = 0x07;
pub const SMB_COM_TRANSACTION: u8 = 0x25;
pub const SMB_COM_ECHO: u8 = 0x2B;
pub const SMB_COM_WRITE_ANDX: u8 = 0x2F;
pub const SMB_COM_TRANSACTION2: u8 = 0x32;
pub const SMB_COM_NEGOTIATE: u8 = 0x72;
pub const SMB_COM_SESSION_SETUP_ANDX: u8 = 0x73;
pub const SMB_COM_TREE_CONNECT_ANDX: u8 = 0x75;

pub const FLAGS1_LOCK_AND_READ_OK: u8 = 0x01;
pub const FLAGS1_PATHCASELESS: u8 = 0x08;
pub const FLAGS2_LONG_NAMES: u16 = 0x0001;
pub const FLAGS2_EAS: u16 = 0x0002;
pub const FLAGS2_SECURITY_SIGNATURE: u16 = 0x0004;
pub const FLAGS2_EXTENDED_SECURITY: u16 = 0x0800;
pub const FLAGS2_UNICODE: u16 = 0x8000;

/// Length of the fixed header.
pub const HEADER_LEN: usize = 32;

/// The largest word block: 255 words of two bytes.
pub const MAX_PARAMS_LEN: usize = 510;

/// The largest byte block that a 16-bit byte count can declare.
pub const MAX_DATA_LEN: usize = 65535;

#[derive(Debug, Clone, Copy)]
pub struct SMBHeader {
    pub protocol: [u8; 4],
    pub command: u8,
    pub status: u32,
    pub flags: u8,
    pub flags2: u16,
    pub pid_high: u16,
    pub security_features: [u8; 8],
    pub tid: u16,
    pub pid: u16,
    pub uid: u16,
    pub mid: u16,
}

/// `0xFF 'S' 'M' 'B'`, the first four bytes of every message.
pub open spec fn signature() -> Seq<u8> {
    seq![0xFFu8, 0x53u8, 0x4Du8, 0x42u8]
}

/// A header is valid when it carries the protocol signature.
pub open spec fn header_valid(h: SMBHeader) -> bool {
    h.protocol@ == signature()
}

/// The 22 bytes from the signature through the security field.
pub open spec fn header_head(h: SMBHeader) -> Seq<u8> {
    h.protocol@ + seq![h.command] + le32(h.status) + seq![h.flags] + le16(h.flags2) + le16(
        h.pid_high,
    ) + h.security_features@
}

/// The 8 bytes of tree, process, user and multiplex ids.
pub open spec fn header_tail(h: SMBHeader) -> Seq<u8> {
    le16(h.tid) + le16(h.pid) + le16(h.uid) + le16(h.mid)
}

/// The 32 bytes of a header, in wire order; the two reserved bytes are zero.
pub open spec fn header_bytes(h: SMBHeader) -> Seq<u8> {
    header_head(h) + seq![0u8, 0u8] + header_tail(h)
}

/// `h` is the header that the first 32 bytes of `b` encode (the reserved
/// bytes are not read).
pub open spec fn decodes_to(b: Seq<u8>, h: SMBHeader) -> bool {
    &&& b.len() >= HEADER_LEN
    &&& header_head(h) == b.subrange(0, 22)
    &&& header_tail(h) == b.subrange(24, HEADER_LEN as int)
}

/// What decoding a header from `b` yields, when it fails.
pub open spec fn header_error(b: Seq<u8>) -> Option<SMBError> {
    if b.len() < HEADER_LEN {
        Some(SMBError::Protocol(ProtocolError::LengthMismatch))
    } else if b.subrange(0, 4) != signature() {
        Some(SMBError::Protocol(ProtocolError::BadSignature))
    } else {
        None
    }
}

impl SMBHeader {
    /// A request header for `command` from process `pid`: caseless paths,
    /// Unicode strings and extended security requested, every id zero.
    pub fn new(command: u8, pid: u16) -> (r: Self)
        ensures
            header_valid(r),
            r.command == command,
            r.status == 0,
            r.flags == FLAGS1_PATHCASELESS,
            r.flags2 == FLAGS2_UNICODE | FLAGS2_EXTENDED_SECURITY,
            r.pid_high == 0,
            r.security_features@ == seq![0u8, 0, 0, 0, 0, 0, 0, 0],
            r.tid == 0,
            r.pid == pid,
            r.uid == 0,
            r.mid == 0,
    {
        let r = SMBHeader {
            protocol: [0xFF, 0x53, 0x4D, 0x42],
            command,
            status: 0,
            flags: FLAGS1_PATHCASELESS,
            flags2: FLAGS2_UNICODE | FLAGS2_EXTENDED_SECURITY,
            pid_high: 0,
            security_features: [0; 8],
            tid: 0,
            pid,
            uid: 0,
            mid: 0,
        };
        assert(r.protocol@ =~= signature());
        assert(r.security_features@ =~= seq![0u8, 0, 0, 0, 0, 0, 0, 0]);
        r
    }

    /// Appends the 32 wire bytes of this header.
    pub fn write(&self, out: &mut Vec<u8>)
        ensures
            final(out)@ == old(out)@ + header_bytes(*self),
    {
        push_all(out, &self.protocol);
        out.push(self.command);
        push_le32(out, self.status);
        out.push(self.flags);
        push_le16(out, self.flags2);
        push_le16(out, self.pid_high);
        push_all(out, &self.security_features);
        out.push(0);
        out.push(0);
        push_le16(out, self.tid);
        push_le16(out, self.pid);
        push_le16(out, self.uid);
        push_le16(out, self.mid);
        assert(out@ =~= old(out)@ + header_bytes(*self));
    }

    /// Replaces every field by those that the first 32 bytes of `b` encode.
    /// On error the header is left as it was.
    pub fn read(&mut self, b: &[u8]) -> (r: Result<(), SMBError>)
        ensures
            r is Ok <==> header_error(b@) is None,
            r matches Err(e) ==> header_error(b@) == Some(e) && *final(self) == *old(self),
            r is Ok ==> decodes_to(b@, *final(self)),
    {
        if b.len() < HEADER_LEN {
            return Err(SMBError::Protocol(ProtocolError::LengthMismatch));
        }
        if !(b[0] == 0xFF && b[1] == 0x53 && b[2] == 0x4D && b[3] == 0x42) {
            assert(b@.subrange(0, 4) != signature()) by {
                if b@.subrange(0, 4) == signature() {
                    assert(b@[0] == b@.subrange(0, 4)[0]);
                    assert(b@[1] == b@.subrange(0, 4)[1]);
                    assert(b@[2] == b@.subrange(0, 4)[2]);
                    assert(b@[3] == b@.subrange(0, 4)[3]);
                }
            }
            return Err(SMBError::Protocol(ProtocolError::BadSignature));
        }
        assert(b@.subrange(0, 4) =~= signature());
        self.protocol = [b[0], b[1], b[2], b[3]];
        self.command = b[4];
        self.status = read_le32(b, 5);
        self.flags = b[9];
        self.flags2 = read_le16(b, 10);
        self.pid_high = read_le16(b, 12);
        self.security_features = [b[14], b[15], b[16], b[17], b[18], b[19], b[20], b[21]];
        self.tid = read_le16(b, 24);
        self.pid = read_le16(b, 26);
        self.uid = read_le16(b, 28);
        self.mid = read_le16(b, 30);
        proof {
            let s = b@;
            lemma_le32_bytes(s[5], s[6], s[7], s[8]);
            assert(s.subrange(5, 9) =~= seq![s[5], s[6], s[7], s[8]]);
            lemma_le16_at(s, 10);
            lemma_le16_at(s, 12);
            lemma_le16_at(s, 24);
            lemma_le16_at(s, 26);
            lemma_le16_at(s, 28);
            lemma_le16_at(s, 30);
            assert(self.protocol@ =~= s.subrange(0, 4));
            assert(self.security_features@ =~= s.subrange(14, 22));
            assert(le32(self.status) == s.subrange(5, 9));
            let head = s.subrange(0, 4) + seq![s[4]] + s.subrange(5, 9) + seq![s[9]]
                + s.subrange(10, 12) + s.subrange(12, 14) + s.subrange(14, 22);
            assert(header_head(*self) == head);
            assert(head =~= s.subrange(0, 22));
            let tail = s.subrange(24, 26) + s.subrange(26, 28) + s.subrange(28, 30)
                + s.subrange(30, 32);
            assert(header_tail(*self) == tail);
            assert(tail =~= s.subrange(24, 32));
        }
        Ok(())
    }
}

proof fn lemma_le16_bytes(b0: u8, b1: u8)
    ensures
        le16(from_le16(b0, b1)) == seq![b0, b1],
{
    let n = from_le16(b0, b1);
    assert(((((b0 as u16) | ((b1 as u16) << 8)) & 0xff) as u8) == b0) by (bit_vector);
    assert(((((b0 as u16) | ((b1 as u16) << 8)) >> 8) as u8) == b1) by (bit_vector);
    assert(le16(n) =~= seq![b0, b1]);
}

proof fn lemma_le32_bytes(b0: u8, b1: u8, b2: u8, b3: u8)
    ensures
        le32(crate::bytes::from_le32(b0, b1, b2, b3)) == seq![b0, b1, b2, b3],
{
    let n = crate::bytes::from_le32(b0, b1, b2, b3);
    assert((((b0 as u32) | ((b1 as u32) << 8) | ((b2 as u32) << 16) | ((b3 as u32) << 24))
        & 0xff) as u8 == b0) by (bit_vector);
    assert(((((b0 as u32) | ((b1 as u32) << 8) | ((b2 as u32) << 16) | ((b3 as u32) << 24))
        >> 8) & 0xff) as u8 == b1) by (bit_vector);
    assert(((((b0 as u32) | ((b1 as u32) << 8) | ((b2 as u32) << 16) | ((b3 as u32) << 24))
        >> 16) & 0xff) as u8 == b2) by (bit_vector);
    assert((((b0 as u32) | ((b1 as u32) << 8) | ((b2 as u32) << 16) | ((b3 as u32) << 24))
        >> 24) as u8 == b3) by (bit_vector);
    assert(le32(n) =~= seq![b0, b1, b2, b3]);
}

/// A 16-bit field read back from `b` at `i` re-encodes to the bytes it came from.
proof fn lemma_le16_at(b: Seq<u8>, i: int)
    requires
        0 <= i && i + 2 <= b.len(),
    ensures
        le16(from_le16(b[i], b[i + 1])) == b.subrange(i, i + 2),
{
    lemma_le16_bytes(b[i], b[i + 1]);
    assert(b.subrange(i, i + 2) =~= seq![b[i], b[i + 1]]);
}

/// Decodes the header at the front of `b`.
pub fn decode_header(b: &[u8]) -> (r: Result<SMBHeader, SMBError>)
    ensures
        r is Ok <==> header_error(b@) is None,
        r matches Err(e) ==> header_error(b@) == Some(e),
        r matches Ok(h) ==> decodes_to(b@, h),
{
    let mut h = SMBHeader::new(0, 0);
    match h.read(b) {
        Ok(()) => Ok(h),
        Err(e) => Err(e),
    }
}

/// The 32 wire bytes of `h`.
pub fn encode_header(h: &SMBHeader) -> (r: Vec<u8>)
    ensures
        r@ == header_bytes(*h),
{
    let mut out: Vec<u8> = Vec::new();
    h.write(&mut out);
    assert(out@ =~= header_bytes(*h));
    out
}

/// Decoding the encoding of a valid header gives that header back.
pub proof fn lemma_header_round_trip(h: SMBHeader, d: SMBHeader)
    requires
        header_valid(h),
        decodes_to(header_bytes(h), d),
    ensures
        header_error(header_bytes(h)) is None,
        d == h,
{
    let hb = header_bytes(h);
    assert(hb.subrange(0, 22) =~= header_head(h));
    assert(hb.subrange(24, 32) =~= header_tail(h));
    let hh = header_head(h);
    let dh = header_head(d);
    let ht = header_tail(h);
    let dt = header_tail(d);
    assert(hh.subrange(0, 4) =~= h.protocol@);
    assert(dh.subrange(0, 4) =~= d.protocol@);
    assert(d.protocol =~= h.protocol);
    assert(hh.subrange(14, 22) =~= h.security_features@);
    assert(dh.subrange(14, 22) =~= d.security_features@);
    assert(d.security_features =~= h.security_features);
    assert(hh.subrange(5, 9) =~= le32(h.status));
    assert(dh.subrange(5, 9) =~= le32(d.status));
    lemma_le32_round_trip(h.status);
    lemma_le32_round_trip(d.status);
    assert(hh.subrange(10, 12) =~= le16(h.flags2));
    assert(dh.subrange(10, 12) =~= le16(d.flags2));
    assert(hh.subrange(12, 14) =~= le16(h.pid_high));
    assert(dh.subrange(12, 14) =~= le16(d.pid_high));
    assert(ht.subrange(0, 2) =~= le16(h.tid));
    assert(dt.subrange(0, 2) =~= le16(d.tid));
    assert(ht.subrange(2, 4) =~= le16(h.pid));
    assert(dt.subrange(2, 4) =~= le16(d.pid));
    assert(ht.subrange(4, 6) =~= le16(h.uid));
    assert(dt.subrange(4, 6) =~= le16(d.uid));
    assert(ht.subrange(6, 8) =~= le16(h.mid));
    assert(dt.subrange(6, 8) =~= le16(d.mid));
    lemma_le16_round_trip(h.flags2);
    lemma_le16_round_trip(d.flags2);
    lemma_le16_round_trip(h.pid_high);
    lemma_le16_round_trip(d.pid_high);
    lemma_le16_round_trip(h.tid);
    lemma_le16_round_trip(d.tid);
    lemma_le16_round_trip(h.pid);
    lemma_le16_round_trip(d.pid);
    lemma_le16_round_trip(h.uid);
    lemma_le16_round_trip(d.uid);
    lemma_le16_round_trip(h.mid);
    lemma_le16_round_trip(d.mid);
    assert(hh[4] == h.command && dh[4] == d.command && hh[9] == h.flags && dh[9] == d.flags);
    assert(hb.subrange(0, 4) =~= h.protocol@);
}

/// The fields of a decoded header, read from the bytes they came from.
pub proof fn lemma_decoded_fields(b: Seq<u8>, h: SMBHeader)
    requires
        decodes_to(b, h),
    ensures
        h.command == b[4],
        h.status == crate::bytes::from_le32(b[5], b[6], b[7], b[8]),
        h.flags2 == from_le16(b[10], b[11]),
        h.tid == from_le16(b[24], b[25]),
        h.uid == from_le16(b[28], b[29]),
        h.mid == from_le16(b[30], b[31]),
{
    let hd = b.subrange(0, 22);
    let t = b.subrange(24, HEADER_LEN as int);
    assert(hd[4] == b[4] && hd[5] == b[5] && hd[6] == b[6] && hd[7] == b[7] && hd[8] == b[8]);
    assert(hd[10] == b[10] && hd[11] == b[11]);
    assert(t[0] == b[24] && t[1] == b[25] && t[4] == b[28] && t[5] == b[29]);
    assert(t[6] == b[30] && t[7] == b[31]);
    assert(header_head(h)[4] == h.command);
    assert(header_head(h).subrange(5, 9) =~= le32(h.status));
    assert(header_head(h).subrange(10, 12) =~= le16(h.flags2));
    assert(header_tail(h).subrange(0, 2) =~= le16(h.tid));
    assert(header_tail(h).subrange(4, 6) =~= le16(h.uid));
    assert(header_tail(h).subrange(6, 8) =~= le16(h.mid));
    lemma_le32_round_trip(h.status);
    lemma_le16_round_trip(h.flags2);
    lemma_le16_round_trip(h.tid);
    lemma_le16_round_trip(h.uid);
    lemma_le16_round_trip(h.mid);
}

/// A decoded message: header, word block as raw bytes, byte block.
#[derive(Debug)]
pub struct SmbMessage {
    pub header: SMBHeader,
    /// The parameter words, two little-endian bytes each.
    pub params: Vec<u8>,
    pub data: Vec<u8>,
}

/// The word block holds whole words and both blocks fit their count fields.
pub open spec fn blocks_fit(params: Seq<u8>, data: Seq<u8>) -> bool {
    &&& params.len() % 2 == 0
    &&& params.len() <= MAX_PARAMS_LEN
    &&& data.len() <= MAX_DATA_LEN
}

/// The wire bytes of a message with header `h`, word block `params` and byte block `data`.
pub open spec fn message_bytes(h: SMBHeader, params: Seq<u8>, data: Seq<u8>) -> Seq<u8> {
    header_bytes(h) + seq![(params.len() / 2) as u8] + params + le16(data.len() as u16) + data
}

/// Offset of the byte count in `b`, as given by its word count.
pub open spec fn byte_count_at(b: Seq<u8>) -> int {
    HEADER_LEN + 1 + 2 * b[HEADER_LEN as int]
}

/// The byte count that `b` declares.
pub open spec fn declared_data_len(b: Seq<u8>) -> int {
    from_le16(b[byte_count_at(b)], b[byte_count_at(b) + 1]) as int
}

/// What decoding `b` as a response to `command` yields, when it fails.
pub open spec fn message_error(b: Seq<u8>, command: u8) -> Option<SMBError> {
    if header_error(b) is Some {
        header_error(b)
    } else if b.len() < HEADER_LEN + 1 || b.len() < byte_count_at(b) + 2 {
        Some(SMBError::Protocol(ProtocolError::LengthMismatch))
    } else if b.len() != byte_count_at(b) + 2 + declared_data_len(b) {
        Some(SMBError::Protocol(ProtocolError::LengthMismatch))
    } else if b[4] != command {
        Some(SMBError::Protocol(ProtocolError::UnknownCommand))
    } else {
        None
    }
}

/// The bytes of `b` from `from` up to `to`.
pub fn copy_range(b: &[u8], from: usize, to: usize) -> (r: Vec<u8>)
    requires
        from <= to <= b@.len(),
    ensures
        r@ == b@.subrange(from as int, to as int),
{
    let mut r: Vec<u8> = Vec::new();
    let mut i: usize = from;
    while i < to
        invariant
            from <= i <= to <= b@.len(),
            r@ == b@.subrange(from as int, i as int),
        decreases to - i,
    {
        r.push(b[i]);
        i = i + 1;
        assert(r@ =~= b@.subrange(from as int, i as int));
    }
    r
}

/// The wire bytes of a message.
pub fn encode_message(h: &SMBHeader, params: &[u8], data: &[u8]) -> (r: Vec<u8>)
    requires
        blocks_fit(params@, data@),
    ensures
        r@ == message_bytes(*h, params@, data@),
{
    let mut out = encode_header(h);
    out.push((params.len() / 2) as u8);
    push_all(&mut out, params);
    push_le16(&mut out, data.len() as u16);
    push_all(&mut out, data);
    out
}

/// Decodes a response to `command`: the signature is checked first, then the
/// declared block lengths against the bytes present, then the command code.
pub fn decode_message(b: &[u8], command: u8) -> (r: Result<SmbMessage, SMBError>)
    ensures
        r is Ok <==> message_error(b@, command) is None,
        r matches Err(e) ==> message_error(b@, command) == Some(e),
        r matches Ok(m) ==> {
            &&& decodes_to(b@, m.header)
            &&& m.header.command == command
            &&& m.params@ == b@.subrange(HEADER_LEN + 1, byte_count_at(b@))
            &&& m.data@ == b@.subrange(byte_count_at(b@) + 2, b@.len() as int)
        },
{
    let header = match decode_header(b) {
        Ok(h) => h,
        Err(e) => return Err(e),
    };
    if b.len() < HEADER_LEN + 1 {
        return Err(SMBError::Protocol(ProtocolError::LengthMismatch));
    }
    let at = HEADER_LEN + 1 + 2 * (b[HEADER_LEN] as usize);
    if b.len() < at + 2 {
        return Err(SMBError::Protocol(ProtocolError::LengthMismatch));
    }
    let declared = read_le16(b, at) as usize;
    if b.len() != at + 2 + declared {
        return Err(SMBError::Protocol(ProtocolError::LengthMismatch));
    }
    if b[4] != command {
        return Err(SMBError::Protocol(ProtocolError::UnknownCommand));
    }
    proof {
        assert(header_head(header)[4] == header.command);
        assert(b@.subrange(0, 22)[4] == b@[4]);
    }
    let params = copy_range(b, HEADER_LEN + 1, at);
    let data = copy_range(b, at + 2, b.len());
    Ok(SmbMessage { header, params, data })
}

/// A message whose declared byte count differs from the number of bytes
/// that follow it is rejected as a length mismatch, whatever its command.
pub proof fn lemma_byte_count_mismatch_rejected(b: Seq<u8>, command: u8)
    requires
        b.len() >= HEADER_LEN + 1,
        b.subrange(0, 4) == signature(),
        b.len() >= byte_count_at(b) + 2,
        declared_data_len(b) != b.len() - byte_count_at(b) - 2,
    ensures
        message_error(b, command) == Some(SMBError::Protocol(ProtocolError::LengthMismatch)),
{
}

/// Decoding the encoding of a message with a valid header, as a response to
/// its own command, succeeds and gives back its header and both blocks.
pub proof fn lemma_message_round_trip(h: SMBHeader, params: Seq<u8>, data: Seq<u8>)
    requires
        header_valid(h),
        blocks_fit(params, data),
    ensures
        message_error(message_bytes(h, params, data), h.command) is None,
        decodes_to(message_bytes(h, params, data), h),
        message_bytes(h, params, data).subrange(
            HEADER_LEN + 1,
            byte_count_at(message_bytes(h, params, data)),
        ) == params,
        message_bytes(h, params, data).subrange(
            byte_count_at(message_bytes(h, params, data)) + 2,
            message_bytes(h, params, data).len() as int,
        ) == data,
{
    let b = message_bytes(h, params, data);
    let hb = header_bytes(h);
    let wc = (params.len() / 2) as u8;
    assert(hb.len() == 32);
    assert(b[32] == wc);
    assert(wc as int == params.len() / 2);
    let at: int = 33 + params.len() as int;
    assert(byte_count_at(b) == at);
    let n = data.len() as u16;
    assert(b.subrange(at, at + 2) =~= le16(n));
    assert(b[at] == le16(n)[0] && b[at + 1] == le16(n)[1]);
    lemma_le16_round_trip(n);
    assert(declared_data_len(b) == data.len());
    assert(b.subrange(0, 4) =~= h.protocol@);
    assert(b.subrange(0, 22) =~= header_head(h));
    assert(b.subrange(24, 32) =~= header_tail(h));
    assert(b[4] == header_head(h)[4]);
    assert(b.subrange(HEADER_LEN + 1, at) =~= params);
    assert(b.subrange(at + 2, b.len() as int) =~= data);
}

/// A buffer of 32 bytes or more whose first four bytes are not the signature
/// is rejected for its signature, as a header and as a message.
pub proof fn lemma_bad_signature_rejected(b: Seq<u8>)
    requires
        b.len() >= HEADER_LEN,
        b.subrange(0, 4) != signature(),
    ensures
        header_error(b) == Some(SMBError::Protocol(ProtocolError::BadSignature)),
        forall|command: u8|
            message_error(b, command) == Some(
                SMBError::Protocol(ProtocolError::BadSignature),
            ),
{
}

} // verus!
