use smolder_proto::client::{
    Phase, SMBClient, STATUS_ACCESS_DENIED, STATUS_BAD_NETWORK_NAME, STATUS_LOGON_FAILURE,
    STATUS_OBJECT_NAME_COLLISION, STATUS_OBJECT_NAME_NOT_FOUND,
};
use smolder_proto::codec::{
    decode_header, decode_message, encode_header, encode_message, SMBHeader, FLAGS1_PATHCASELESS,
    FLAGS2_EXTENDED_SECURITY, FLAGS2_UNICODE, SMB_COM_CLOSE, SMB_COM_CREATE, SMB_COM_ECHO,
    SMB_COM_NEGOTIATE, SMB_COM_SESSION_SETUP_ANDX, SMB_COM_TREE_CONNECT_ANDX,
};
use smolder_proto::error::{ProtocolError, SMBError};
use smolder_proto::framer::{frame, parse_frame_prefix, unframe};
use smolder_proto::ntlm::{
    compute_lm_hash, compute_ntlm_hash, des_key_from_7, lm_password_block, lm_response,
    ntlm_response, ntlm_session_key, password_utf16le,
};

fn hex(s: &str) -> Vec<u8> {
    (0..s.len() / 2)
        .map(|i| u8::from_str_radix(&s[2 * i..2 * i + 2], 16).unwrap())
        .collect()
}

fn sample_header() -> SMBHeader {
    let mut h = SMBHeader::new(SMB_COM_TREE_CONNECT_ANDX, 0x1234);
    h.status = 0xC000_0022;
    h.flags = 0x98;
    h.flags2 = 0xC807;
    h.pid_high = 0xBEEF;
    h.security_features = [1, 2, 3, 4, 5, 6, 7, 8];
    h.tid = 0x0102;
    h.uid = 0x0304;
    h.mid = 0x0506;
    h
}

/// A server's reply to `req`: same command and multiplex id.
fn reply(req: &[u8], status: u32, tid: u16, uid: u16, params: &[u8], data: &[u8]) -> Vec<u8> {
    let mut h = decode_header(req).unwrap();
    h.status = status;
    h.tid = tid;
    h.uid = uid;
    h.flags2 = FLAGS2_UNICODE;
    encode_message(&h, params, data)
}

fn negotiate_params(index: u16, challenge_len: u8) -> Vec<u8> {
    let mut p = vec![0u8; 34];
    p[0..2].copy_from_slice(&index.to_le_bytes());
    p[2] = 0x03;
    p[7..11].copy_from_slice(&16644u32.to_le_bytes());
    p[19..23].copy_from_slice(&0x8000_E3FDu32.to_le_bytes());
    p[33] = challenge_len;
    p
}

const CHALLENGE: [u8; 8] = [0x01, 0x23, 0x45, 0x67, 0x89, 0xAB, 0xCD, 0xEF];

fn negotiated_client() -> SMBClient {
    let mut c = SMBClient::new(77);
    let req = c.negotiate_request().unwrap();
    let resp = reply(&req, 0, 0, 0, &negotiate_params(0, 8), &CHALLENGE);
    c.negotiate_response(&resp).unwrap();
    c
}

fn authenticated_client() -> SMBClient {
    let mut c = negotiated_client();
    let req = c.session_setup_request("alice", "secret", "CORP").unwrap();
    let resp = reply(&req, 0, 0, 100, &[0xFF, 0, 0, 0, 0, 0], &[]);
    c.session_setup_response(&resp).unwrap();
    c
}

fn connected_client() -> (SMBClient, u16) {
    let mut c = authenticated_client();
    let req = c.tree_connect_request("\\\\server\\share").unwrap();
    let resp = reply(&req, 0, 7, 100, &[0xFF, 0, 0, 0, 0, 0], &[]);
    let tid = c.tree_connect_response(&resp).unwrap();
    (c, tid)
}

#[test]
fn test_smb_header() {
    let h = SMBHeader::new(SMB_COM_NEGOTIATE, 42);
    let bytes = encode_header(&h);
    assert_eq!(bytes.len(), 32);
    assert_eq!(&bytes[0..4], &[0xFF, b'S', b'M', b'B']);
    assert_eq!(bytes[4], SMB_COM_NEGOTIATE);
    assert_eq!(bytes[9], FLAGS1_PATHCASELESS);
    let flags2 = FLAGS2_UNICODE | FLAGS2_EXTENDED_SECURITY;
    assert_eq!(&bytes[10..12], &flags2.to_le_bytes());
    assert_eq!(&bytes[26..28], &[42, 0]);
}

#[test]
fn header_round_trip() {
    let h = sample_header();
    let bytes = encode_header(&h);
    assert_eq!(
        bytes,
        vec![
            0xFF, b'S', b'M', b'B', 0x75, 0x22, 0x00, 0x00, 0xC0, 0x98, 0x07, 0xC8, 0xEF, 0xBE, 1, 2,
            3, 4, 5, 6, 7, 8, 0, 0, 0x02, 0x01, 0x34, 0x12, 0x04, 0x03, 0x06, 0x05
        ]
    );
    let d = decode_header(&bytes).unwrap();
    assert_eq!(d.protocol, h.protocol);
    assert_eq!(d.command, h.command);
    assert_eq!(d.status, h.status);
    assert_eq!(d.flags, h.flags);
    assert_eq!(d.flags2, h.flags2);
    assert_eq!(d.pid_high, h.pid_high);
    assert_eq!(d.security_features, h.security_features);
    assert_eq!(d.tid, h.tid);
    assert_eq!(d.pid, h.pid);
    assert_eq!(d.uid, h.uid);
    assert_eq!(d.mid, h.mid);
}

#[test]
fn header_read_in_place() {
    let bytes = encode_header(&sample_header());
    let mut h = SMBHeader::new(0, 0);
    h.read(&bytes).unwrap();
    assert_eq!(h.mid, 0x0506);
    assert_eq!(h.status, 0xC000_0022);
}

#[test]
fn bad_signature_rejected() {
    let mut bytes = encode_header(&sample_header());
    bytes[1] = b'X';
    assert!(matches!(
        decode_header(&bytes),
        Err(SMBError::Protocol(ProtocolError::BadSignature))
    ));
    let all_zero = [0u8; 32];
    assert!(matches!(
        decode_header(&all_zero),
        Err(SMBError::Protocol(ProtocolError::BadSignature))
    ));
}

#[test]
fn short_header_rejected() {
    let bytes = encode_header(&sample_header());
    assert!(matches!(
        decode_header(&bytes[..31]),
        Err(SMBError::Protocol(ProtocolError::LengthMismatch))
    ));
}

#[test]
fn message_round_trip() {
    let h = SMBHeader::new(SMB_COM_ECHO, 9);
    let msg = encode_message(&h, &[1, 0], b"hello");
    assert_eq!(msg.len(), 32 + 1 + 2 + 2 + 5);
    assert_eq!(msg[32], 1);
    assert_eq!(&msg[35..37], &[5, 0]);
    let m = decode_message(&msg, SMB_COM_ECHO).unwrap();
    assert_eq!(m.params, vec![1, 0]);
    assert_eq!(m.data, b"hello".to_vec());
    assert_eq!(m.header.pid, 9);
}

#[test]
fn byte_count_mismatch_rejected() {
    let h = SMBHeader::new(SMB_COM_ECHO, 9);
    let mut msg = encode_message(&h, &[1, 0], b"hello");
    msg[35] = 6;
    assert!(matches!(
        decode_message(&msg, SMB_COM_ECHO),
        Err(SMBError::Protocol(ProtocolError::LengthMismatch))
    ));
    let mut longer = encode_message(&h, &[1, 0], b"hello");
    longer.push(0);
    assert!(matches!(
        decode_message(&longer, SMB_COM_CLOSE),
        Err(SMBError::Protocol(ProtocolError::LengthMismatch))
    ));
}

#[test]
fn mismatched_command_rejected() {
    let h = SMBHeader::new(SMB_COM_ECHO, 9);
    let msg = encode_message(&h, &[], &[]);
    assert!(matches!(
        decode_message(&msg, SMB_COM_CLOSE),
        Err(SMBError::Protocol(ProtocolError::UnknownCommand))
    ));
}

#[test]
fn frame_round_trip() {
    let body = b"\xFFSMB body".to_vec();
    let framed = frame(&body).unwrap();
    assert_eq!(&framed[0..4], &[0, 0, 0, 9]);
    assert_eq!(unframe(&framed).unwrap(), body);
    let big = vec![0xAB; 0x01_0203];
    let framed = frame(&big).unwrap();
    assert_eq!(&framed[0..4], &[0, 0x01, 0x02, 0x03]);
    assert_eq!(unframe(&framed).unwrap(), big);
    assert_eq!(parse_frame_prefix(&[0, 0x01, 0x02, 0x03]).unwrap(), 0x01_0203);
}

#[test]
fn frame_largest_body() {
    let body = vec![7u8; 0xFF_FFFF];
    let framed = frame(&body).unwrap();
    assert_eq!(&framed[0..4], &[0, 0xFF, 0xFF, 0xFF]);
    assert_eq!(unframe(&framed).unwrap().len(), 0xFF_FFFF);
    let too_big = vec![7u8; 0x100_0000];
    assert!(matches!(frame(&too_big), Err(SMBError::Protocol(ProtocolError::Framing))));
}

#[test]
fn frame_violations_rejected() {
    let framing = |r: Result<Vec<u8>, SMBError>| {
        matches!(r, Err(SMBError::Protocol(ProtocolError::Framing)))
    };
    assert!(framing(unframe(&[1, 0, 0, 1, 0xAA])));
    assert!(framing(unframe(&[0, 0, 0, 0])));
    assert!(framing(unframe(&[0, 0, 0, 2, 0xAA])));
    assert!(framing(unframe(&[0, 0])));
    assert!(matches!(
        parse_frame_prefix(&[0x80, 0, 0, 1]),
        Err(SMBError::Protocol(ProtocolError::Framing))
    ));
}

#[test]
fn ntlm_hash_vector() {
    assert_eq!(compute_ntlm_hash("password"), hex("8846f7eaee8fb117ad06bdd830b7586c"));
    assert_eq!(compute_ntlm_hash("SecREt01"), hex("cd06ca7c7e10c99b1d33b7485a2ed808"));
}

#[test]
fn lm_hash_vector() {
    assert_eq!(compute_lm_hash("password"), hex("e52cac67419a9a224a3b108f3fa6cb6d"));
    assert_eq!(compute_lm_hash("SecREt01"), hex("ff3750bcc2b22412c2265b23734e0dac"));
}

#[test]
fn challenge_response_vectors() {
    let lm = compute_lm_hash("SecREt01");
    let nt = compute_ntlm_hash("SecREt01");
    assert_eq!(
        lm_response(&lm, &CHALLENGE),
        hex("c337cd5cbd44fc9782a667af6d427c6de67c20c2d3e77c56")
    );
    assert_eq!(
        ntlm_response(&nt, &CHALLENGE),
        hex("25a98c1c31e81847466b29b2df4680f39958fb8c213a9cc6")
    );
}

#[test]
fn password_encodings() {
    assert_eq!(password_utf16le("Ab"), vec![b'A', 0, b'b', 0]);
    assert_eq!(password_utf16le("é"), vec![0xE9, 0]);
    assert_eq!(password_utf16le("\u{1D11E}"), vec![0x34, 0xD8, 0x1E, 0xDD]);
    assert_eq!(password_utf16le(""), Vec::<u8>::new());
    assert_eq!(lm_password_block("pass"), b"PASS\0\0\0\0\0\0\0\0\0\0".to_vec());
    assert_eq!(lm_password_block("abcdefghijklmnopq"), b"ABCDEFGHIJKLMN".to_vec());
    assert_eq!(lm_password_block("\u{263A}é"), vec![b'?', 0xC9, 0, 0, 0, 0, 0, 0, 0, 0, 0, 0, 0, 0]);
    assert_eq!(lm_password_block("÷ÿß"), vec![0xF7, 0xFF, 0xDF, 0, 0, 0, 0, 0, 0, 0, 0, 0, 0, 0]);
    assert_eq!(compute_lm_hash("pässword"), compute_lm_hash("PÄSSWORD"));
}

#[test]
fn des_key_expansion() {
    assert_eq!(des_key_from_7(&[0xFF; 7], 0), [0xFE; 8]);
    assert_eq!(des_key_from_7(&[0, 0, 0, 0, 0, 0, 0], 0), [0; 8]);
    assert_eq!(
        des_key_from_7(&[9, 0x80, 0, 0, 0, 0, 0, 0x01], 1),
        [0x80, 0, 0, 0, 0, 0, 0, 0x02]
    );
}

#[test]
fn session_key_is_md4_of_hash() {
    let nt = compute_ntlm_hash("password");
    let key = ntlm_session_key(&nt);
    assert_eq!(key.len(), 16);
    assert_ne!(key, nt);
}

#[test]
fn tree_connect_before_authenticate_is_out_of_sequence() {
    let mut c = SMBClient::new(1);
    assert!(matches!(c.tree_connect_request("\\\\s\\x"), Err(SMBError::OutOfSequence)));
    let mut c = negotiated_client();
    assert!(matches!(c.tree_connect_request("\\\\s\\x"), Err(SMBError::OutOfSequence)));
    assert!(matches!(c.create_file_request(1, "a"), Err(SMBError::OutOfSequence)));
    assert!(matches!(c.close_file_request(1, 1), Err(SMBError::OutOfSequence)));
}

#[test]
fn create_on_unknown_tree_is_out_of_sequence() {
    let (mut c, tid) = connected_client();
    assert!(matches!(c.create_file_request(tid + 1, "a.txt"), Err(SMBError::OutOfSequence)));
    assert!(matches!(c.close_file_request(tid, 99), Err(SMBError::OutOfSequence)));
}

#[test]
fn out_of_turn_requests_rejected() {
    let mut c = SMBClient::new(1);
    assert!(matches!(c.echo_request(b"x"), Err(SMBError::OutOfSequence)));
    assert!(matches!(c.session_setup_request("a", "b", "c"), Err(SMBError::OutOfSequence)));
    let req = c.negotiate_request().unwrap();
    assert!(matches!(c.negotiate_request(), Err(SMBError::OutOfSequence)));
    assert!(matches!(c.echo_response(&req), Err(SMBError::OutOfSequence)));
}

#[test]
fn end_to_end_session() {
    let mut c = SMBClient::new(77);
    let req = c.negotiate_request().unwrap();
    let m = decode_message(&req, SMB_COM_NEGOTIATE).unwrap();
    assert_eq!(m.data, b"\x02NT LM 0.12\0".to_vec());
    assert!(m.params.is_empty());
    let resp = reply(&req, 0, 0, 0, &negotiate_params(0, 8), &CHALLENGE);
    c.negotiate_response(&resp).unwrap();
    assert_eq!(c.phase(), Phase::Negotiated);
    let n = c.negotiated().as_ref().unwrap();
    assert_eq!(n.dialect_index, 0);
    assert_eq!(n.security_mode, 3);
    assert_eq!(n.max_buffer_size, 16644);
    assert_eq!(n.capabilities, 0x8000_E3FD);
    assert!(n.unicode);
    assert_eq!(n.challenge, CHALLENGE.to_vec());

    let req = c.session_setup_request("alice", "secret", "CORP").unwrap();
    let m = decode_message(&req, SMB_COM_SESSION_SETUP_ANDX).unwrap();
    let lm = lm_response(&compute_lm_hash("secret"), &CHALLENGE);
    let nt = ntlm_response(&compute_ntlm_hash("secret"), &CHALLENGE);
    assert_eq!(lm.len(), 24);
    assert_eq!(&m.data[0..24], &lm[..]);
    assert_eq!(&m.data[24..48], &nt[..]);
    assert_eq!(m.data[48], 0);
    assert_eq!(&m.data[49..61], &password_utf16le("alice\0")[..]);
    assert_eq!(&m.params[14..16], &[24, 0]);
    let resp = reply(&req, 0, 0, 100, &[0xFF, 0, 0, 0, 0, 0], &[]);
    c.session_setup_response(&resp).unwrap();
    assert_eq!(c.phase(), Phase::Authenticated);
    assert_eq!(c.uid(), 100);
    assert_eq!(c.session_key().to_vec(), ntlm_session_key(&compute_ntlm_hash("secret")));

    let req = c.tree_connect_request("\\\\server\\share").unwrap();
    let h = decode_header(&req).unwrap();
    assert_eq!(h.uid, 100);
    let resp = reply(&req, 0, 7, 100, &[0xFF, 0, 0, 0, 0, 0], &[]);
    let tid = c.tree_connect_response(&resp).unwrap();
    assert_eq!(tid, 7);

    let req = c.create_file_request(tid, "test.txt").unwrap();
    assert_eq!(decode_header(&req).unwrap().tid, 7);
    let resp = reply(&req, 0, 7, 100, &[0x01, 0x40], &[]);
    let fid = c.create_file_response(&resp).unwrap();
    assert_eq!(fid, 0x4001);
    assert!(c.is_open(tid, fid));

    let req = c.close_file_request(tid, fid).unwrap();
    let m = decode_message(&req, SMB_COM_CLOSE).unwrap();
    assert_eq!(m.params, vec![0x01, 0x40, 0, 0, 0, 0]);
    assert!(!c.is_open(tid, fid));
    let resp = reply(&req, 0, 7, 100, &[], &[]);
    c.close_file_response(&resp).unwrap();
    assert!(matches!(c.close_file_request(tid, fid), Err(SMBError::OutOfSequence)));
}

#[test]
fn echo_round_trip() {
    let mut c = negotiated_client();
    let req = c.echo_request(b"ping").unwrap();
    let m = decode_message(&req, SMB_COM_ECHO).unwrap();
    assert_eq!(m.params, vec![1, 0]);
    let resp = reply(&req, 0, 0, 0, &[1, 0], b"ping");
    assert_eq!(c.echo_response(&resp).unwrap(), b"ping".to_vec());
}

#[test]
fn echo_length_mismatch_is_invalid_response() {
    let mut c = negotiated_client();
    let req = c.echo_request(b"ping").unwrap();
    let resp = reply(&req, 0, 0, 0, &[1, 0], b"pin");
    assert!(matches!(c.echo_response(&resp), Err(SMBError::InvalidResponse)));
}

#[test]
fn echo_payload_too_long() {
    let mut c = negotiated_client();
    let payload = vec![0u8; 65536];
    assert!(matches!(
        c.echo_request(&payload),
        Err(SMBError::Protocol(ProtocolError::LengthMismatch))
    ));
}

#[test]
fn dialect_rejected() {
    let mut c = SMBClient::new(1);
    let req = c.negotiate_request().unwrap();
    let resp = reply(&req, 0, 0, 0, &0xFFFFu16.to_le_bytes(), &[]);
    assert!(matches!(
        c.negotiate_response(&resp),
        Err(SMBError::Protocol(ProtocolError::DialectRejected))
    ));
    assert_eq!(c.phase(), Phase::Disconnected);
}

#[test]
fn wrong_mid_is_invalid_response() {
    let mut c = SMBClient::new(1);
    let req = c.negotiate_request().unwrap();
    let mut h = decode_header(&req).unwrap();
    h.mid = h.mid.wrapping_add(1);
    let resp = encode_message(&h, &negotiate_params(0, 8), &CHALLENGE);
    assert!(matches!(c.negotiate_response(&resp), Err(SMBError::InvalidResponse)));
}

#[test]
fn logon_failure_is_authentication_error() {
    let mut c = negotiated_client();
    let req = c.session_setup_request("alice", "wrong", "CORP").unwrap();
    let resp = reply(&req, STATUS_LOGON_FAILURE, 0, 0, &[], &[]);
    assert!(matches!(c.session_setup_response(&resp), Err(SMBError::Authentication)));
    assert_eq!(c.phase(), Phase::Negotiated);
}

#[test]
fn missing_challenge_refuses_setup() {
    let mut c = SMBClient::new(1);
    let req = c.negotiate_request().unwrap();
    let resp = reply(&req, 0, 0, 0, &negotiate_params(0, 0), &[]);
    c.negotiate_response(&resp).unwrap();
    assert!(matches!(c.session_setup_request("a", "b", "c"), Err(SMBError::InvalidResponse)));
}

#[test]
fn tree_connect_status_errors() {
    let mut c = authenticated_client();
    let req = c.tree_connect_request("\\\\server\\nope").unwrap();
    let resp = reply(&req, STATUS_BAD_NETWORK_NAME, 0, 100, &[], &[]);
    assert!(matches!(
        c.tree_connect_response(&resp),
        Err(SMBError::Protocol(ProtocolError::ShareNotFound))
    ));
    let req = c.tree_connect_request("\\\\server\\secret").unwrap();
    let resp = reply(&req, STATUS_ACCESS_DENIED, 0, 100, &[], &[]);
    assert!(matches!(
        c.tree_connect_response(&resp),
        Err(SMBError::Protocol(ProtocolError::PermissionDenied))
    ));
    let req = c.tree_connect_request("\\\\server\\odd").unwrap();
    let resp = reply(&req, 0xC000_0001, 0, 100, &[], &[]);
    assert!(matches!(c.tree_connect_response(&resp), Err(SMBError::Remote(0xC000_0001))));
}

#[test]
fn duplicate_fid_is_invalid_response() {
    let (mut c, tid) = connected_client();
    let req = c.create_file_request(tid, "a").unwrap();
    let resp = reply(&req, 0, tid, 100, &[5, 0], &[]);
    assert_eq!(c.create_file_response(&resp).unwrap(), 5);
    let req = c.create_file_request(tid, "b").unwrap();
    let resp = reply(&req, 0, tid, 100, &[5, 0], &[]);
    assert!(matches!(c.create_file_response(&resp), Err(SMBError::InvalidResponse)));
}

#[test]
fn close_surfaces_remote_error_but_closes() {
    let (mut c, tid) = connected_client();
    let req = c.create_file_request(tid, "a").unwrap();
    let resp = reply(&req, 0, tid, 100, &[5, 0], &[]);
    let fid = c.create_file_response(&resp).unwrap();
    let req = c.close_file_request(tid, fid).unwrap();
    let resp = reply(&req, 0xC000_0008, tid, 100, &[], &[]);
    assert!(matches!(c.close_file_response(&resp), Err(SMBError::Remote(0xC000_0008))));
    assert!(!c.is_open(tid, fid));
    assert!(matches!(c.close_file_request(tid, fid), Err(SMBError::OutOfSequence)));
}

#[test]
fn non_unicode_strings_are_single_byte() {
    let mut c = SMBClient::new(1);
    let req = c.negotiate_request().unwrap();
    let mut h = decode_header(&req).unwrap();
    h.flags2 = 0;
    let resp = encode_message(&h, &negotiate_params(0, 8), &CHALLENGE);
    c.negotiate_response(&resp).unwrap();
    let req = c.session_setup_request("bob", "pw", "D").unwrap();
    let m = decode_message(&req, SMB_COM_SESSION_SETUP_ANDX).unwrap();
    assert_eq!(&m.data[48..], b"bob\0D\0");
    assert_eq!(decode_header(&req).unwrap().flags2, 0);
}

#[test]
fn create_request_layout() {
    let (mut c, tid) = connected_client();
    let req = c.create_file_request(tid, "f").unwrap();
    let m = decode_message(&req, SMB_COM_CREATE).unwrap();
    assert_eq!(m.params, vec![0, 0, 0, 0, 0, 0]);
    assert_eq!(m.data, vec![0x04, b'f', 0, 0, 0]);
}

#[test]
fn new_client_is_blank() {
    let mut c = SMBClient::new(3);
    assert_eq!(c.phase(), Phase::Disconnected);
    assert_eq!(c.uid(), 0);
    assert!(c.session_key().is_empty());
    assert!(c.negotiated().is_none());
    let req = c.negotiate_request().unwrap();
    assert_eq!(req.len(), 47);
    let h = decode_header(&req).unwrap();
    assert_eq!((h.uid, h.tid, h.mid, h.pid, h.status), (0, 0, 1, 3, 0));
    assert_eq!(h.flags2, FLAGS2_UNICODE);
    assert_eq!(&req[32..35], &[0, 12, 0]);
}

#[test]
fn create_status_errors() {
    let (mut c, tid) = connected_client();
    let req = c.create_file_request(tid, "missing").unwrap();
    let resp = reply(&req, STATUS_OBJECT_NAME_NOT_FOUND, tid, 100, &[], &[]);
    assert!(matches!(c.create_file_response(&resp), Err(SMBError::FileNotFound)));
    let req = c.create_file_request(tid, "taken").unwrap();
    let resp = reply(&req, STATUS_OBJECT_NAME_COLLISION, tid, 100, &[], &[]);
    assert!(matches!(c.create_file_response(&resp), Err(SMBError::AlreadyExists)));
    let req = c.create_file_request(tid, "locked").unwrap();
    let resp = reply(&req, STATUS_ACCESS_DENIED, tid, 100, &[], &[]);
    assert!(matches!(
        c.create_file_response(&resp),
        Err(SMBError::Protocol(ProtocolError::PermissionDenied))
    ));
}

#[test]
fn zero_fid_is_invalid_response() {
    let (mut c, tid) = connected_client();
    let req = c.create_file_request(tid, "a").unwrap();
    let resp = reply(&req, 0, tid, 100, &[0, 0], &[]);
    assert!(matches!(c.create_file_response(&resp), Err(SMBError::InvalidResponse)));
    assert!(!c.is_open(tid, 0));
}

#[test]
fn close_under_other_tree_is_out_of_sequence() {
    let (mut c, tid) = connected_client();
    let req = c.create_file_request(tid, "a").unwrap();
    let resp = reply(&req, 0, tid, 100, &[9, 0], &[]);
    let fid = c.create_file_response(&resp).unwrap();
    assert!(matches!(c.close_file_request(tid + 1, fid), Err(SMBError::OutOfSequence)));
    assert!(c.is_open(tid, fid));
}

#[test]
fn cancel_pending_frees_the_session() {
    let mut c = negotiated_client();
    let req = c.echo_request(b"lost").unwrap();
    assert!(matches!(c.echo_request(b"again"), Err(SMBError::OutOfSequence)));
    c.cancel_pending();
    let resp = reply(&req, 0, 0, 0, &[1, 0], b"lost");
    assert!(matches!(c.echo_response(&resp), Err(SMBError::OutOfSequence)));
    let req2 = c.echo_request(b"again").unwrap();
    assert_ne!(decode_header(&req2).unwrap().mid, decode_header(&req).unwrap().mid);
    let resp = reply(&req2, 0, 0, 0, &[1, 0], b"again");
    assert_eq!(c.echo_response(&resp).unwrap(), b"again".to_vec());
}

#[test]
fn echo_leaves_session_alone() {
    let (mut c, tid) = connected_client();
    let key = c.session_key().to_vec();
    let req = c.echo_request(b"abc").unwrap();
    assert_eq!(decode_message(&req, SMB_COM_ECHO).unwrap().data, b"abc".to_vec());
    let resp = reply(&req, 0, tid, 100, &[1, 0], b"abc");
    assert_eq!(c.echo_response(&resp).unwrap(), b"abc".to_vec());
    assert_eq!(c.uid(), 100);
    assert_eq!(c.session_key().to_vec(), key);
    assert_eq!(c.phase(), Phase::Authenticated);
    assert!(c.create_file_request(tid, "x").is_ok());
}

#[test]
fn extended_security_is_threaded() {
    let mut c = SMBClient::new(1);
    let req = c.negotiate_request().unwrap();
    let mut h = decode_header(&req).unwrap();
    h.flags2 = FLAGS2_UNICODE | FLAGS2_EXTENDED_SECURITY;
    let resp = encode_message(&h, &negotiate_params(0, 8), &CHALLENGE);
    c.negotiate_response(&resp).unwrap();
    assert!(c.negotiated().as_ref().unwrap().extended_security);
    let req = c.echo_request(b"e").unwrap();
    assert_eq!(decode_header(&req).unwrap().flags2, FLAGS2_UNICODE | FLAGS2_EXTENDED_SECURITY);
}
