//! LM and NTLM password hashes and their challenge responses.
//!
//! DES and MD4 come from the `des` and `md4` crates; what surrounds them
//! (password encoding, key expansion, the layout of hashes and responses)
//! is verified here.
use crate::bytes::{le16, push_all, push_le16};
use des::cipher::generic_array::GenericArray;
use des::cipher::{BlockEncrypt, KeyInit};
use des::Des;
use md4::{Digest, Md4};
use vstd::prelude::*;

verus! {

/// The MD4 digest of `data`.
pub uninterp spec fn md4_of(data: Seq<u8>) -> Seq<u8>;

/// The DES encryption of the 8-byte `block` under the 8-byte `key`.
pub uninterp spec fn des_of(key: Seq<u8>, block: Seq<u8>) -> Seq<u8>;

/// Relies on `md4::Md4::digest`: the 16-byte MD4 digest of the input.
#[verifier::external_body]
fn md4_digest(data: &[u8]) -> (r: [u8; 16])
    ensures
        r@ == md4_of(data@),
{
    Md4::digest(data).into()
}

/// Relies on `des::Des` (`KeyInit::new`, `BlockEncrypt::encrypt_block`): one
/// block encrypted under one key.
#[verifier::external_body]
fn des_encrypt(key: &[u8; 8], block: &[u8; 8]) -> (r: [u8; 8])
    ensures
        r@ == des_of(key@, block@),
{
    let cipher = Des::new(&GenericArray::from(*key));
    let mut b = GenericArray::from(*block);
    cipher.encrypt_block(&mut b);
    b.into()
}

/// The UTF-16LE bytes of one character.
pub open spec fn char_utf16le(c: char) -> Seq<u8> {
    if (c as u32) < 0x10000 {
        le16(c as u16)
    } else {
        let v = (c as u32 - 0x10000) as u32;
        le16((0xD800 + (v >> 10)) as u16) + le16((0xDC00 + (v & 0x3FF)) as u16)
    }
}

/// The UTF-16LE bytes of a string.
pub open spec fn utf16le(s: Seq<char>) -> Seq<u8>
    decreases s.len(),
{
    if s.len() == 0 {
        Seq::empty()
    } else {
        utf16le(s.drop_last()) + char_utf16le(s.last())
    }
}

/// Whether `v` is a lowercase Latin-1 letter whose uppercase is Latin-1 too,
/// 32 code points lower: `a` to `z`, and `à` to `þ` but for `÷`.
pub open spec fn is_latin1_lower(v: u32) -> bool {
    (0x61 <= v && v <= 0x7A) || (0xE0 <= v && v <= 0xFE && v != 0xF7)
}

/// The byte that stands for `c` in an LM password: Latin-1 letters are
/// uppercased, other characters below 256 are kept, the rest become `?`.
/// (`ÿ`, `µ` and `ß`, whose uppercase lies outside Latin-1, are kept.)
pub open spec fn lm_byte(c: char) -> u8 {
    if is_latin1_lower(c as u32) {
        (c as u32 - 32) as u8
    } else if (c as u32) < 256 {
        c as u8
    } else {
        0x3Fu8
    }
}

/// The 14-byte LM password block: the first 14 characters, zero-padded.
pub open spec fn lm_block(s: Seq<char>) -> Seq<u8> {
    Seq::new(14, |i: int| if i < s.len() { lm_byte(s[i]) } else { 0u8 })
}

/// Spreads 56 key bits over 8 bytes, seven per byte in the high bits; the
/// low bit, DES's parity bit, is zero.
pub open spec fn des_key(k: Seq<u8>) -> Seq<u8> {
    seq![
        k[0] & 0xFE,
        ((k[0] << 7u8) | (k[1] >> 1u8)) & 0xFE,
        ((k[1] << 6u8) | (k[2] >> 2u8)) & 0xFE,
        ((k[2] << 5u8) | (k[3] >> 3u8)) & 0xFE,
        ((k[3] << 4u8) | (k[4] >> 4u8)) & 0xFE,
        ((k[4] << 3u8) | (k[5] >> 5u8)) & 0xFE,
        ((k[5] << 2u8) | (k[6] >> 6u8)) & 0xFE,
        k[6] << 1u8,
    ]
}

/// `KGS!@#$%`, the plaintext that LM encrypts under each password half.
pub open spec fn lm_magic() -> Seq<u8> {
    seq![0x4Bu8, 0x47, 0x53, 0x21, 0x40, 0x23, 0x24, 0x25]
}

/// The LM hash of a password.
pub open spec fn lm_hash_of(s: Seq<char>) -> Seq<u8> {
    let b = lm_block(s);
    des_of(des_key(b.subrange(0, 7)), lm_magic()) + des_of(des_key(b.subrange(7, 14)), lm_magic())
}

/// The NTLM hash of a password.
pub open spec fn ntlm_hash_of(s: Seq<char>) -> Seq<u8> {
    md4_of(utf16le(s))
}

/// The 24-byte response to `challenge` of a 16-byte hash: the hash padded
/// with zeros to 21 bytes gives three DES keys, each encrypting the challenge.
pub open spec fn challenge_response(hash: Seq<u8>, challenge: Seq<u8>) -> Seq<u8> {
    let k = hash + seq![0u8, 0, 0, 0, 0];
    des_of(des_key(k.subrange(0, 7)), challenge) + des_of(des_key(k.subrange(7, 14)), challenge)
        + des_of(des_key(k.subrange(14, 21)), challenge)
}

/// The password as UTF-16LE bytes, case preserved.
pub fn password_utf16le(password: &str) -> (r: Vec<u8>)
    ensures
        r@ == utf16le(password@),
{
    let n = password.unicode_len();
    let mut out: Vec<u8> = Vec::new();
    let mut i: usize = 0;
    while i < n
        invariant
            n == password@.len(),
            i <= n,
            out@ == utf16le(password@.subrange(0, i as int)),
        decreases n - i,
    {
        let c = password.get_char(i);
        let v: u32 = c as u32;
        if v < 0x10000 {
            push_le16(&mut out, v as u16);
        } else {
            let w: u32 = v - 0x10000;
            let hi: u32 = w >> 10;
            let lo: u32 = w & 0x3FF;
            assert(hi < 0x400000 && lo < 0x400) by (bit_vector)
                requires
                    hi == w >> 10,
                    lo == w & 0x3FF,
            ;
            let high_unit: u32 = 0xD800 + hi;
            let low_unit: u32 = 0xDC00 + lo;
            push_le16(&mut out, #[verifier::truncate] (high_unit as u16));
            push_le16(&mut out, #[verifier::truncate] (low_unit as u16));
        }
        proof {
            let next = password@.subrange(0, i + 1);
            assert(next.drop_last() =~= password@.subrange(0, i as int));
            assert(next.last() == c);
        }
        i = i + 1;
    }
    assert(password@.subrange(0, n as int) =~= password@);
    out
}

/// The 14-byte LM password block of `password`.
pub fn lm_password_block(password: &str) -> (r: Vec<u8>)
    ensures
        r@ == lm_block(password@),
{
    let n = password.unicode_len();
    let mut out: Vec<u8> = Vec::new();
    let mut i: usize = 0;
    while i < 14
        invariant
            n == password@.len(),
            i <= 14,
            out@ =~= lm_block(password@).subrange(0, i as int),
        decreases 14 - i,
    {
        let b: u8 = if i < n {
            let c = password.get_char(i);
            let v: u32 = c as u32;
            if (0x61 <= v && v <= 0x7A) || (0xE0 <= v && v <= 0xFE && v != 0xF7) {
                (v - 32) as u8
            } else if v < 256 {
                c as u8
            } else {
                0x3F
            }
        } else {
            0
        };
        out.push(b);
        i = i + 1;
    }
    out
}

/// The DES key built from the seven bytes of `k` starting at `at`.
pub fn des_key_from_7(k: &[u8], at: usize) -> (r: [u8; 8])
    requires
        at + 7 <= k@.len(),
    ensures
        r@ == des_key(k@.subrange(at as int, at + 7)),
{
    let r = [
        k[at] & 0xFE,
        ((k[at] << 7u8) | (k[at + 1] >> 1u8)) & 0xFE,
        ((k[at + 1] << 6u8) | (k[at + 2] >> 2u8)) & 0xFE,
        ((k[at + 2] << 5u8) | (k[at + 3] >> 3u8)) & 0xFE,
        ((k[at + 3] << 4u8) | (k[at + 4] >> 4u8)) & 0xFE,
        ((k[at + 4] << 3u8) | (k[at + 5] >> 5u8)) & 0xFE,
        ((k[at + 5] << 2u8) | (k[at + 6] >> 6u8)) & 0xFE,
        k[at + 6] << 1u8,
    ];
    assert(r@ =~= des_key(k@.subrange(at as int, at + 7)));
    r
}

/// The NTLM hash: MD4 of the password's UTF-16LE bytes.
pub fn compute_ntlm_hash(password: &str) -> (r: Vec<u8>)
    ensures
        r@ == ntlm_hash_of(password@),
        r@.len() == 16,
{
    let bytes = password_utf16le(password);
    let d = md4_digest(bytes.as_slice());
    let mut out: Vec<u8> = Vec::new();
    push_all(&mut out, &d);
    assert(out@ =~= ntlm_hash_of(password@));
    out
}

/// The LM hash: each half of the password block, as a DES key, encrypts
/// `KGS!@#$%`.
pub fn compute_lm_hash(password: &str) -> (r: Vec<u8>)
    ensures
        r@ == lm_hash_of(password@),
        r@.len() == 16,
{
    let block = lm_password_block(password);
    let magic: [u8; 8] = [0x4B, 0x47, 0x53, 0x21, 0x40, 0x23, 0x24, 0x25];
    assert(magic@ =~= lm_magic());
    let k1 = des_key_from_7(block.as_slice(), 0);
    let k2 = des_key_from_7(block.as_slice(), 7);
    let h1 = des_encrypt(&k1, &magic);
    let h2 = des_encrypt(&k2, &magic);
    let mut out: Vec<u8> = Vec::new();
    push_all(&mut out, &h1);
    push_all(&mut out, &h2);
    assert(out@ =~= lm_hash_of(password@));
    out
}

/// The 24-byte response of a 16-byte hash to an 8-byte challenge.
fn des_response(hash: &[u8], challenge: &[u8]) -> (r: Vec<u8>)
    requires
        hash@.len() == 16,
        challenge@.len() == 8,
    ensures
        r@ == challenge_response(hash@, challenge@),
{
    let mut k: Vec<u8> = Vec::new();
    push_all(&mut k, hash);
    let mut i: usize = 0;
    while i < 5
        invariant
            i <= 5,
            k@ =~= hash@ + seq![0u8, 0, 0, 0, 0].subrange(0, i as int),
        decreases 5 - i,
    {
        k.push(0);
        i = i + 1;
    }
    let ch: [u8; 8] = [
        challenge[0],
        challenge[1],
        challenge[2],
        challenge[3],
        challenge[4],
        challenge[5],
        challenge[6],
        challenge[7],
    ];
    assert(ch@ =~= challenge@);
    let r1 = des_encrypt(&des_key_from_7(k.as_slice(), 0), &ch);
    let r2 = des_encrypt(&des_key_from_7(k.as_slice(), 7), &ch);
    let r3 = des_encrypt(&des_key_from_7(k.as_slice(), 14), &ch);
    let mut out: Vec<u8> = Vec::new();
    push_all(&mut out, &r1);
    push_all(&mut out, &r2);
    push_all(&mut out, &r3);
    assert(out@ =~= challenge_response(hash@, challenge@));
    out
}

/// The NTLM user session key: the MD4 digest of the NTLM hash.
pub fn ntlm_session_key(ntlm_hash: &[u8]) -> (r: Vec<u8>)
    ensures
        r@ == md4_of(ntlm_hash@),
        r@.len() == 16,
{
    let d = md4_digest(ntlm_hash);
    let mut out: Vec<u8> = Vec::new();
    push_all(&mut out, &d);
    assert(out@ =~= md4_of(ntlm_hash@));
    out
}

/// The LM response: the LM hash answering the server's challenge.
pub fn lm_response(lm_hash: &[u8], challenge: &[u8]) -> (r: Vec<u8>)
    requires
        lm_hash@.len() == 16,
        challenge@.len() == 8,
    ensures
        r@ == challenge_response(lm_hash@, challenge@),
{
    des_response(lm_hash, challenge)
}

/// The NTLM response: the NTLM hash answering the server's challenge.
pub fn ntlm_response(ntlm_hash: &[u8], challenge: &[u8]) -> (r: Vec<u8>)
    requires
        ntlm_hash@.len() == 16,
        challenge@.len() == 8,
    ensures
        r@ == challenge_response(ntlm_hash@, challenge@),
{
    des_response(ntlm_hash, challenge)
}

} // verus!
