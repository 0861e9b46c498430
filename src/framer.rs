//! The session-service envelope: a 4-byte big-endian length whose top byte
//! is reserved and zero, followed by the SMB message.
use crate::bytes::{be32, be32_bytes, from_be32, lemma_be32_round_trip, push_all, read_be32};
use crate::codec::copy_range;
use crate::error::{ProtocolError, SMBError};
use vstd::prelude::*;

verus! {

/// The largest body that three length bytes can declare.
pub const MAX_FRAME_BODY: usize = 0xFF_FFFF;

/// Length of the envelope's prefix.
pub const FRAME_PREFIX_LEN: usize = 4;

/// `body` with its length prefix.
pub open spec fn frame_bytes(body: Seq<u8>) -> Seq<u8> {
    be32(body.len() as u32) + body
}

/// The body length that a four-byte prefix declares, or why it is not one.
pub open spec fn prefix_length(p: Seq<u8>) -> Result<int, SMBError> {
    if p.len() < FRAME_PREFIX_LEN || p[0] != 0 {
        Err(SMBError::Protocol(ProtocolError::Framing))
    } else if from_be32(p[0], p[1], p[2], p[3]) == 0 {
        Err(SMBError::Protocol(ProtocolError::Framing))
    } else {
        Ok(from_be32(p[0], p[1], p[2], p[3]) as int)
    }
}

/// What unwrapping the whole envelope `b` yields, when it fails.
pub open spec fn unframe_error(b: Seq<u8>) -> Option<SMBError> {
    match prefix_length(b) {
        Err(e) => Some(e),
        Ok(n) => if b.len() != FRAME_PREFIX_LEN + n {
            Some(SMBError::Protocol(ProtocolError::Framing))
        } else {
            None
        },
    }
}

/// Wraps `body` in its envelope; a body too long for three length bytes is refused.
pub fn frame(body: &[u8]) -> (r: Result<Vec<u8>, SMBError>)
    ensures
        r is Err <==> body@.len() > MAX_FRAME_BODY,
        r matches Err(e) ==> e == SMBError::Protocol(ProtocolError::Framing),
        r matches Ok(v) ==> v@ == frame_bytes(body@),
{
    if body.len() > MAX_FRAME_BODY {
        return Err(SMBError::Protocol(ProtocolError::Framing));
    }
    let p = be32_bytes(body.len() as u32);
    let mut out: Vec<u8> = Vec::new();
    push_all(&mut out, &p);
    push_all(&mut out, body);
    assert(out@ =~= frame_bytes(body@));
    Ok(out)
}

/// Reads the body length from the first four bytes of `prefix`: the
/// reserved byte must be zero and the length must not be zero.
pub fn parse_frame_prefix(prefix: &[u8]) -> (r: Result<usize, SMBError>)
    ensures
        r matches Ok(n) ==> prefix_length(prefix@) == Ok::<int, SMBError>(n as int),
        r matches Err(e) ==> prefix_length(prefix@) == Err::<int, SMBError>(e),
{
    if prefix.len() < FRAME_PREFIX_LEN || prefix[0] != 0 {
        return Err(SMBError::Protocol(ProtocolError::Framing));
    }
    let n = read_be32(prefix, 0);
    if n == 0 {
        return Err(SMBError::Protocol(ProtocolError::Framing));
    }
    Ok(n as usize)
}

/// Unwraps a complete envelope: the body must be exactly as long as declared.
pub fn unframe(b: &[u8]) -> (r: Result<Vec<u8>, SMBError>)
    ensures
        r is Ok <==> unframe_error(b@) is None,
        r matches Err(e) ==> unframe_error(b@) == Some(e),
        r matches Ok(body) ==> body@ == b@.subrange(FRAME_PREFIX_LEN as int, b@.len() as int),
{
    let n = match parse_frame_prefix(b) {
        Ok(n) => n,
        Err(e) => return Err(e),
    };
    if b.len() - FRAME_PREFIX_LEN != n {
        return Err(SMBError::Protocol(ProtocolError::Framing));
    }
    Ok(copy_range(b, FRAME_PREFIX_LEN, b.len()))
}

/// Unwrapping a wrapped body gives the body back, for every body from one
/// byte up to the largest that the prefix can declare.
pub proof fn lemma_frame_round_trip(body: Seq<u8>)
    requires
        1 <= body.len() <= MAX_FRAME_BODY,
    ensures
        unframe_error(frame_bytes(body)) is None,
        frame_bytes(body).subrange(FRAME_PREFIX_LEN as int, frame_bytes(body).len() as int)
            == body,
{
    let n = body.len() as u32;
    let f = frame_bytes(body);
    lemma_be32_round_trip(n);
    assert(n <= 0xFF_FFFF);
    assert(n <= 0xFF_FFFF ==> (n >> 24) as u8 == 0) by (bit_vector);
    assert(f[0] == be32(n)[0]);
    assert(f[1] == be32(n)[1] && f[2] == be32(n)[2] && f[3] == be32(n)[3]);
    assert(f.subrange(FRAME_PREFIX_LEN as int, f.len() as int) =~= body);
}

/// An envelope whose reserved byte is not zero is always refused.
pub proof fn lemma_reserved_byte_rejected(b: Seq<u8>)
    requires
        b.len() >= 1,
        b[0] != 0,
    ensures
        unframe_error(b) == Some(SMBError::Protocol(ProtocolError::Framing)),
{
}

} // verus!
