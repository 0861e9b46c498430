//! The session state machine and the request/response logic of each client
//! operation. Every operation is split in two: `*_request` checks that the
//! operation is legal in the current phase and builds the message to send;
//! `*_response` takes the message that came back and updates the session.
//! The transport that carries the bytes between the two is the caller's.
use crate::bytes::{from_le16, from_le32, le16, le32, push_all, push_le16, push_le32, read_le16, read_le32};
use crate::codec::{
    copy_range, decode_message, decodes_to, lemma_decoded_fields, encode_message, header_valid, message_bytes, message_error,
    SMBHeader, SmbMessage, FLAGS1_PATHCASELESS, FLAGS2_EXTENDED_SECURITY, FLAGS2_UNICODE, HEADER_LEN, MAX_DATA_LEN,
    SMB_COM_CLOSE, SMB_COM_CREATE, SMB_COM_ECHO, SMB_COM_NEGOTIATE, SMB_COM_SESSION_SETUP_ANDX,
    SMB_COM_TREE_CONNECT_ANDX,
};
use crate::error::{ProtocolError, SMBError};
use crate::ntlm::{
    challenge_response, compute_lm_hash, compute_ntlm_hash, lm_hash_of, lm_response, md4_of,
    ntlm_hash_of, ntlm_response, ntlm_session_key, password_utf16le, utf16le,
};
use vstd::prelude::*;

verus! {

/// Server status for a failed logon.
pub const STATUS_LOGON_FAILURE: u32 = 0xC000_006D;

/// Server status for refused access.
pub const STATUS_ACCESS_DENIED: u32 = 0xC000_0022;

/// Server status for a file name that does not exist.
pub const STATUS_OBJECT_NAME_NOT_FOUND: u32 = 0xC000_0034;

/// Server status for a file name that is taken already.
pub const STATUS_OBJECT_NAME_COLLISION: u32 = 0xC000_0035;

/// Server status for a share name that does not exist.
pub const STATUS_BAD_NETWORK_NAME: u32 = 0xC000_00CC;

/// Where the session stands.
#[derive(Debug, Clone, Copy, PartialEq, Eq, Structural)]
pub enum Phase {
    Disconnected,
    Negotiated,
    Authenticated,
}

/// An open file: its id and the tree it was opened under.
#[derive(Debug, Clone, Copy, PartialEq, Eq, Structural)]
pub struct FileHandle {
    pub fid: u16,
    pub tid: u16,
}

/// The request that awaits its response.
#[derive(Debug, Clone, Copy, PartialEq, Eq, Structural)]
pub struct Pending {
    pub command: u8,
    pub mid: u16,
}

/// What a negotiate response told the client.
#[derive(Debug)]
pub struct Negotiated {
    pub dialect_index: u16,
    pub security_mode: u8,
    pub max_buffer_size: u32,
    pub capabilities: u32,
    pub unicode: bool,
    pub extended_security: bool,
    pub challenge: Vec<u8>,
}

pub struct SMBClient {
    pid: u16,
    phase: Phase,
    negotiated: Option<Negotiated>,
    uid: u16,
    session_key: Vec<u8>,
    trees: Vec<u16>,
    files: Vec<FileHandle>,
    next_mid: u16,
    pending: Option<Pending>,
    /// The payload length of the pending echo.
    echo_len: usize,
    /// The tree of the pending create.
    create_tid: u16,
    /// The NTLM hash of the pending session setup, kept to derive the session key.
    setup_hash: Vec<u8>,
}

/// The word block of a decoded message `b`.
pub open spec fn params_of(b: Seq<u8>) -> Seq<u8> {
    b.subrange(HEADER_LEN + 1, crate::codec::byte_count_at(b))
}

/// The byte block of a decoded message `b`.
pub open spec fn data_of(b: Seq<u8>) -> Seq<u8> {
    b.subrange(crate::codec::byte_count_at(b) + 2, b.len() as int)
}

/// The one dialect offered, `NT LM 0.12`, as ASCII.
pub open spec fn dialect_bytes() -> Seq<u8> {
    seq![0x4Eu8, 0x54, 0x20, 0x4C, 0x4D, 0x20, 0x30, 0x2E, 0x31, 0x32]
}

/// The negotiate request's byte block: the dialect, with its buffer format
/// byte and terminating zero.
pub open spec fn negotiate_data() -> Seq<u8> {
    seq![0x02u8] + dialect_bytes() + seq![0u8]
}

/// A character as one byte when strings are not Unicode.
pub open spec fn latin1(c: char) -> u8 {
    if (c as u32) < 256 {
        c as u8
    } else {
        0x3Fu8
    }
}

/// A string in the negotiated character mode, with its terminator.
pub open spec fn smb_string(s: Seq<char>, unicode: bool) -> Seq<u8> {
    if unicode {
        utf16le(s) + seq![0u8, 0u8]
    } else {
        Seq::new(s.len(), |i: int| latin1(s[i])) + seq![0u8]
    }
}

/// The flags2 of requests: Unicode strings and extended security, each when
/// negotiated.
pub open spec fn flags2_for(unicode: bool, extended: bool) -> u16 {
    (if unicode {
        FLAGS2_UNICODE
    } else {
        0u16
    }) | (if extended {
        FLAGS2_EXTENDED_SECURITY
    } else {
        0u16
    })
}

/// `h` is the request header for `command` with the given flags2 and ids.
pub open spec fn is_request_header(
    h: SMBHeader,
    command: u8,
    flags2: u16,
    pid: u16,
    tid: u16,
    uid: u16,
    mid: u16,
) -> bool {
    &&& header_valid(h)
    &&& h.command == command
    &&& h.status == 0
    &&& h.flags == FLAGS1_PATHCASELESS
    &&& h.flags2 == flags2
    &&& h.pid_high == 0
    &&& h.security_features@ == seq![0u8, 0, 0, 0, 0, 0, 0, 0]
    &&& h.tid == tid
    &&& h.pid == pid
    &&& h.uid == uid
    &&& h.mid == mid
}

/// The error that a non-zero status in a response to `command` stands for.
pub open spec fn status_error(command: u8, status: u32) -> SMBError {
    if command == SMB_COM_SESSION_SETUP_ANDX && status == STATUS_LOGON_FAILURE {
        SMBError::Authentication
    } else if command == SMB_COM_TREE_CONNECT_ANDX && status == STATUS_BAD_NETWORK_NAME {
        SMBError::Protocol(ProtocolError::ShareNotFound)
    } else if command == SMB_COM_CREATE && status == STATUS_OBJECT_NAME_NOT_FOUND {
        SMBError::FileNotFound
    } else if command == SMB_COM_CREATE && status == STATUS_OBJECT_NAME_COLLISION {
        SMBError::AlreadyExists
    } else if status == STATUS_ACCESS_DENIED {
        SMBError::Protocol(ProtocolError::PermissionDenied)
    } else {
        SMBError::Remote(status)
    }
}

/// Why the response `b` to the pending request `p` for `command` is refused, if it is.
pub open spec fn response_error(p: Pending, b: Seq<u8>, command: u8) -> Option<SMBError> {
    if message_error(b, command) is Some {
        message_error(b, command)
    } else if from_le16(b[30], b[31]) != p.mid {
        Some(SMBError::InvalidResponse)
    } else if from_le32(b[5], b[6], b[7], b[8]) != 0 {
        Some(status_error(command, from_le32(b[5], b[6], b[7], b[8])))
    } else {
        None
    }
}

/// The first error of two checks made in turn.
pub open spec fn first_error(a: Option<SMBError>, b: Option<SMBError>) -> Option<SMBError> {
    if a is Some {
        a
    } else {
        b
    }
}

/// Why the word block `p` of a negotiate response is refused, if it is: the
/// one dialect offered has index 0, and an NT LM 0.12 response has 17 words.
pub open spec fn negotiate_error(p: Seq<u8>) -> Option<SMBError> {
    if p.len() < 2 {
        Some(SMBError::InvalidResponse)
    } else if from_le16(p[0], p[1]) != 0 {
        Some(SMBError::Protocol(ProtocolError::DialectRejected))
    } else if p.len() < 34 {
        Some(SMBError::InvalidResponse)
    } else {
        None
    }
}

/// The 8-byte challenge at the front of the byte block, when the word block
/// announces one; empty otherwise.
pub open spec fn offered_challenge(p: Seq<u8>, d: Seq<u8>) -> Seq<u8> {
    if p[33] == 8 && d.len() >= 8 {
        d.subrange(0, 8)
    } else {
        Seq::empty()
    }
}

/// Capabilities the client announces: NT status codes, and Unicode when negotiated.
pub open spec fn client_capabilities(unicode: bool) -> u32 {
    if unicode {
        0x14u32
    } else {
        0x10u32
    }
}

/// The session setup word block: no chained command, a 65535-byte buffer,
/// one outstanding request, 24-byte LM and NTLM responses.
pub open spec fn setup_params(unicode: bool) -> Seq<u8> {
    seq![0xFFu8, 0, 0, 0] + le16(0xFFFF) + le16(1) + le16(0) + le32(0) + le16(24) + le16(24) + le32(
        0,
    ) + le32(client_capabilities(unicode))
}

/// The session setup byte block: both responses, a pad byte that aligns
/// Unicode strings, then the account and domain names.
pub open spec fn setup_data(
    lm: Seq<u8>,
    nt: Seq<u8>,
    user: Seq<char>,
    domain: Seq<char>,
    unicode: bool,
) -> Seq<u8> {
    lm + nt + (if unicode {
        seq![0u8]
    } else {
        Seq::empty()
    }) + smb_string(user, unicode) + smb_string(domain, unicode)
}

/// The tree connect word block: no chained command, no flags, a one-byte password.
pub open spec fn tree_params() -> Seq<u8> {
    seq![0xFFu8, 0, 0, 0] + le16(0) + le16(1)
}

/// The tree connect byte block: an empty password, the share path, and `?????`
/// for any service type.
pub open spec fn tree_data(share: Seq<char>, unicode: bool) -> Seq<u8> {
    seq![0u8] + smb_string(share, unicode) + seq![0x3Fu8, 0x3F, 0x3F, 0x3F, 0x3F, 0]
}

/// The create byte block: the ASCII buffer format byte and the file name.
pub open spec fn create_data(name: Seq<char>, unicode: bool) -> Seq<u8> {
    seq![0x04u8] + smb_string(name, unicode)
}

/// Some open file has id `fid`.
pub open spec fn fid_open(files: Seq<FileHandle>, fid: u16) -> bool {
    exists|i: int| 0 <= i < files.len() && #[trigger] files[i].fid == fid
}

impl SMBClient {
    pub closed spec fn spec_phase(&self) -> Phase {
        self.phase
    }

    pub closed spec fn spec_trees(&self) -> Seq<u16> {
        self.trees@
    }

    pub closed spec fn spec_files(&self) -> Seq<FileHandle> {
        self.files@
    }

    pub closed spec fn spec_pending(&self) -> Option<Pending> {
        self.pending
    }

    pub closed spec fn spec_uid(&self) -> u16 {
        self.uid
    }

    pub closed spec fn spec_pid(&self) -> u16 {
        self.pid
    }

    pub closed spec fn spec_unicode(&self) -> bool {
        match self.negotiated {
            Some(n) => n.unicode,
            None => true,
        }
    }

    pub closed spec fn spec_negotiated(&self) -> Option<Negotiated> {
        self.negotiated
    }

    /// Whether the server negotiated extended security; not before negotiation,
    /// since only the LM/NTLM challenge exchange is offered.
    pub closed spec fn spec_extended(&self) -> bool {
        match self.negotiated {
            Some(n) => n.extended_security,
            None => false,
        }
    }

    /// The flags2 that this client's requests carry.
    pub open spec fn request_flags2(&self) -> u16 {
        flags2_for(self.spec_unicode(), self.spec_extended())
    }

    /// The challenge that negotiation supplied.
    pub closed spec fn spec_challenge(&self) -> Seq<u8> {
        match self.negotiated {
            Some(n) => n.challenge@,
            None => Seq::empty(),
        }
    }

    /// Every file id is open at most once, under a connected tree.
    pub closed spec fn wf(&self) -> bool {
        &&& forall|i: int, j: int|
            0 <= i < j < self.files@.len() ==> self.files@[i].fid != self.files@[j].fid
        &&& forall|i: int|
            0 <= i < self.files@.len() ==> self.trees@.contains(#[trigger] self.files@[i].tid)
        &&& (self.phase == Phase::Negotiated || self.phase == Phase::Authenticated)
            <==> self.negotiated is Some
        &&& self.phase != Phase::Authenticated ==> self.trees@.len() == 0
        &&& self.echo_len <= MAX_DATA_LEN
        &&& self.phase != Phase::Authenticated ==> self.uid == 0
        &&& self.awaits(SMB_COM_NEGOTIATE) ==> self.phase == Phase::Disconnected
        &&& self.awaits(SMB_COM_SESSION_SETUP_ANDX) ==> self.phase == Phase::Negotiated
        &&& self.awaits(SMB_COM_TREE_CONNECT_ANDX) ==> self.phase == Phase::Authenticated
        &&& self.awaits(SMB_COM_CREATE) ==> self.phase == Phase::Authenticated
            && self.trees@.contains(self.create_tid)
    }

    /// The payload length of the pending echo.
    pub closed spec fn spec_echo_len(&self) -> int {
        self.echo_len as int
    }

    /// The NTLM hash of the pending session setup.
    pub closed spec fn spec_setup_hash(&self) -> Seq<u8> {
        self.setup_hash@
    }

    /// The tree of the pending create.
    pub closed spec fn spec_create_tid(&self) -> u16 {
        self.create_tid
    }

    pub closed spec fn spec_next_mid(&self) -> u16 {
        self.next_mid
    }

    pub closed spec fn spec_session_key(&self) -> Seq<u8> {
        self.session_key@
    }

    /// A request for `command` awaits its response.
    pub open spec fn awaits(&self, command: u8) -> bool {
        self.spec_pending() matches Some(p) && p.command == command
    }

    /// Everything but the pending request is as in `o`.
    pub open spec fn same_session(&self, o: &SMBClient) -> bool {
        &&& self.spec_phase() == o.spec_phase()
        &&& self.spec_pid() == o.spec_pid()
        &&& self.spec_negotiated() == o.spec_negotiated()
        &&& self.spec_unicode() == o.spec_unicode()
        &&& self.spec_extended() == o.spec_extended()
        &&& self.spec_challenge() == o.spec_challenge()
        &&& self.spec_uid() == o.spec_uid()
        &&& self.spec_session_key() == o.spec_session_key()
        &&& self.spec_trees() == o.spec_trees()
        &&& self.spec_files() == o.spec_files()
    }

    /// `fid` is open under `tid`.
    pub open spec fn has_file(&self, tid: u16, fid: u16) -> bool {
        self.spec_files().contains(FileHandle { fid, tid })
    }

    pub fn phase(&self) -> (r: Phase)
        ensures
            r == self.spec_phase(),
    {
        self.phase
    }

    /// The user id of the session; zero before authentication.
    pub fn uid(&self) -> (r: u16)
        ensures
            r == self.spec_uid(),
    {
        self.uid
    }

    /// The key that authentication derived.
    pub fn session_key(&self) -> (r: &[u8])
        ensures
            r@ == self.spec_session_key(),
    {
        self.session_key.as_slice()
    }

    /// What negotiation recorded, once negotiated.
    pub fn negotiated(&self) -> (r: &Option<Negotiated>)
        ensures
            *r == self.spec_negotiated(),
            r matches Some(n) ==> n.challenge@ == self.spec_challenge() && n.unicode
                == self.spec_unicode(),
    {
        &self.negotiated
    }

    /// Whether `fid` is open under `tid`.
    pub fn is_open(&self, tid: u16, fid: u16) -> (r: bool)
        ensures
            r == self.has_file(tid, fid),
    {
        let mut i: usize = 0;
        while i < self.files.len()
            invariant
                i <= self.files@.len(),
                forall|k: int| 0 <= k < i ==> self.files@[k] != (FileHandle { fid, tid }),
            decreases self.files@.len() - i,
        {
            if self.files[i].fid == fid && self.files[i].tid == tid {
                assert(self.files@[i as int] == FileHandle { fid, tid });
                return true;
            }
            i = i + 1;
        }
        false
    }

    /// Forgets the pending request, as after a timeout or a transport
    /// failure; a late response to it is then refused.
    pub fn cancel_pending(&mut self)
        requires
            old(self).wf(),
        ensures
            final(self).wf(),
            final(self).spec_pending() is None,
            final(self).same_session(&*old(self)),
            final(self).spec_next_mid() == old(self).spec_next_mid(),
    {
        self.pending = None;
    }

    /// A disconnected client that writes `pid` in its headers.
    pub fn new(pid: u16) -> (r: Self)
        ensures
            r.wf(),
            r.spec_phase() == Phase::Disconnected,
            r.spec_pid() == pid,
            r.spec_trees().len() == 0,
            r.spec_files().len() == 0,
            r.spec_pending() is None,
            r.spec_uid() == 0,
            r.spec_session_key().len() == 0,
            r.spec_negotiated() is None,
            r.spec_unicode(),
            !r.spec_extended(),
            r.spec_next_mid() == 1,
    {
        SMBClient {
            pid,
            phase: Phase::Disconnected,
            negotiated: None,
            uid: 0,
            session_key: Vec::new(),
            trees: Vec::new(),
            files: Vec::new(),
            next_mid: 1,
            pending: None,
            echo_len: 0,
            create_tid: 0,
            setup_hash: Vec::new(),
        }
    }

    fn unicode(&self) -> (r: bool)
        ensures
            r == self.spec_unicode(),
    {
        match &self.negotiated {
            Some(n) => n.unicode,
            None => true,
        }
    }

    /// The header of the next request, which becomes the pending one. Each
    /// request takes the next multiplex id; ids are fresh for 65535 requests,
    /// after which the 16-bit counter wraps.
    fn start(&mut self, command: u8, tid: u16) -> (h: SMBHeader)
        requires
            old(self).wf(),
            command == SMB_COM_NEGOTIATE ==> old(self).phase == Phase::Disconnected,
            command == SMB_COM_SESSION_SETUP_ANDX ==> old(self).phase == Phase::Negotiated,
            command == SMB_COM_TREE_CONNECT_ANDX ==> old(self).phase == Phase::Authenticated,
            command == SMB_COM_CREATE ==> old(self).phase == Phase::Authenticated
                && old(self).trees@.contains(old(self).create_tid),
        ensures
            final(self).wf(),
            is_request_header(
                h,
                command,
                old(self).request_flags2(),
                old(self).pid,
                tid,
                old(self).uid,
                old(self).next_mid,
            ),
            final(self).pending == Some(Pending { command, mid: old(self).next_mid }),
            final(self).pid == old(self).pid,
            final(self).phase == old(self).phase,
            final(self).negotiated == old(self).negotiated,
            final(self).uid == old(self).uid,
            final(self).session_key == old(self).session_key,
            final(self).trees == old(self).trees,
            final(self).files == old(self).files,
            final(self).echo_len == old(self).echo_len,
            final(self).create_tid == old(self).create_tid,
            final(self).setup_hash == old(self).setup_hash,
    {
        let mut h = SMBHeader::new(command, self.pid);
        let unicode: u16 = if self.unicode() {
            FLAGS2_UNICODE
        } else {
            0
        };
        let extended: u16 = match &self.negotiated {
            Some(n) => if n.extended_security {
                FLAGS2_EXTENDED_SECURITY
            } else {
                0
            },
            None => 0,
        };
        h.flags2 = unicode | extended;
        h.tid = tid;
        h.uid = self.uid;
        h.mid = self.next_mid;
        self.pending = Some(Pending { command, mid: self.next_mid });
        self.next_mid = self.next_mid.wrapping_add(1);
        h
    }

    /// Takes the response to the pending `command`: it must decode, carry the
    /// pending multiplex id and a zero status. The request stops pending
    /// whatever the response holds.
    fn take_response(&mut self, b: &[u8], command: u8) -> (r: Result<SmbMessage, SMBError>)
        requires
            old(self).wf(),
        ensures
            final(self).wf(),
            !old(self).awaits(command) ==> r == Err::<SmbMessage, SMBError>(SMBError::OutOfSequence)
                && *final(self) == *old(self),
            old(self).awaits(command) ==> *final(self) == (SMBClient { pending: None, ..*old(self) }),
            old(self).awaits(command) ==> (r is Ok <==> response_error(
                old(self).pending.unwrap(),
                b@,
                command,
            ) is None),
            old(self).awaits(command) && r is Err ==> r == Err::<SmbMessage, SMBError>(
                response_error(old(self).pending.unwrap(), b@, command).unwrap(),
            ),
            r matches Ok(m) ==> {
                &&& decodes_to(b@, m.header)
                &&& m.params@ == params_of(b@)
                &&& m.data@ == data_of(b@)
            },
    {
        let p = match self.pending {
            Some(p) => p,
            None => return Err(SMBError::OutOfSequence),
        };
        if p.command != command {
            return Err(SMBError::OutOfSequence);
        }
        self.pending = None;
        let m = match decode_message(b, command) {
            Ok(m) => m,
            Err(e) => return Err(e),
        };
        proof {
            lemma_decoded_fields(b@, m.header);
        }
        if m.header.mid != p.mid {
            return Err(SMBError::InvalidResponse);
        }
        if m.header.status != 0 {
            return Err(status_code_error(command, m.header.status));
        }
        Ok(m)
    }

    /// The negotiate request, offering the one dialect. Legal only on a
    /// disconnected client with no request pending.
    pub fn negotiate_request(&mut self) -> (r: Result<Vec<u8>, SMBError>)
        requires
            old(self).wf(),
        ensures
            final(self).wf(),
            final(self).same_session(&*old(self)),
            r is Ok <==> old(self).spec_phase() == Phase::Disconnected && old(self).spec_pending() is None,
            r is Err ==> r == Err::<Vec<u8>, SMBError>(SMBError::OutOfSequence) && *final(self)
                == *old(self),
            r matches Ok(v) ==> exists|h: SMBHeader|
                is_request_header(
                    h,
                    SMB_COM_NEGOTIATE,
                    old(self).request_flags2(),
                    old(self).spec_pid(),
                    0,
                    old(self).spec_uid(),
                    old(self).spec_next_mid(),
                ) && v@ == message_bytes(h, Seq::empty(), negotiate_data()),
            r is Ok ==> final(self).spec_pending() == Some(
                Pending { command: SMB_COM_NEGOTIATE, mid: old(self).spec_next_mid() },
            ) && final(self).spec_phase() == old(self).spec_phase(),
    {
        if self.phase != Phase::Disconnected || self.pending.is_some() {
            return Err(SMBError::OutOfSequence);
        }
        let h = self.start(SMB_COM_NEGOTIATE, 0);
        let data: [u8; 12] = [0x02, 0x4E, 0x54, 0x20, 0x4C, 0x4D, 0x20, 0x30, 0x2E, 0x31, 0x32, 0];
        assert(data@ =~= negotiate_data());
        let params: Vec<u8> = Vec::new();
        assert(params@ =~= Seq::<u8>::empty());
        Ok(encode_message(&h, params.as_slice(), &data))
    }

    /// Takes the negotiate response: the dialect must be the one offered and
    /// the word block complete. Records the security mode, buffer size,
    /// capabilities, Unicode mode and challenge, and enters the negotiated phase.
    pub fn negotiate_response(&mut self, b: &[u8]) -> (r: Result<(), SMBError>)
        requires
            old(self).wf(),
        ensures
            final(self).wf(),
            r is Err ==> final(self).same_session(&*old(self)),
            final(self).spec_pid() == old(self).spec_pid(),
            final(self).spec_uid() == old(self).spec_uid(),
            final(self).spec_session_key() == old(self).spec_session_key(),
            final(self).spec_trees() == old(self).spec_trees(),
            final(self).spec_files() == old(self).spec_files(),
            r is Ok ==> final(self).spec_extended() == (from_le16(b@[10], b@[11])
                & FLAGS2_EXTENDED_SECURITY != 0),
            !old(self).awaits(SMB_COM_NEGOTIATE) ==> r == Err::<(), SMBError>(
                SMBError::OutOfSequence,
            ) && *final(self) == *old(self),
            old(self).awaits(SMB_COM_NEGOTIATE) ==> final(self).spec_pending() is None,
            old(self).awaits(SMB_COM_NEGOTIATE) ==> ({
                let e = first_error(
                    response_error(old(self).spec_pending().unwrap(), b@, SMB_COM_NEGOTIATE),
                    negotiate_error(params_of(b@)),
                );
                &&& r is Ok <==> e is None
                &&& r is Err ==> r == Err::<(), SMBError>(e.unwrap())
                    && final(self).spec_phase() == old(self).spec_phase()
            }),
            r is Ok ==> {
                &&& final(self).spec_phase() == Phase::Negotiated
                &&& final(self).spec_unicode() == (from_le16(b@[10], b@[11]) & FLAGS2_UNICODE != 0)
                &&& final(self).spec_challenge() == offered_challenge(params_of(b@), data_of(b@))
                &&& final(self).spec_negotiated() matches Some(n) && {
                    let p = params_of(b@);
                    &&& n.dialect_index == 0
                    &&& n.security_mode == p[2]
                    &&& n.max_buffer_size == from_le32(p[7], p[8], p[9], p[10])
                    &&& n.capabilities == from_le32(p[19], p[20], p[21], p[22])
                }
            },
    {
        let m = match self.take_response(b, SMB_COM_NEGOTIATE) {
            Ok(m) => m,
            Err(e) => return Err(e),
        };
        proof {
            lemma_decoded_fields(b@, m.header);
        }
        let p = m.params.as_slice();
        if p.len() < 2 {
            return Err(SMBError::InvalidResponse);
        }
        if read_le16(p, 0) != 0 {
            return Err(SMBError::Protocol(ProtocolError::DialectRejected));
        }
        if p.len() < 34 {
            return Err(SMBError::InvalidResponse);
        }
        let d = m.data.as_slice();
        let challenge = if p[33] == 8 && d.len() >= 8 {
            copy_range(d, 0, 8)
        } else {
            Vec::new()
        };
        assert(challenge@ =~= offered_challenge(params_of(b@), data_of(b@)));
        self.negotiated = Some(
            Negotiated {
                dialect_index: 0,
                security_mode: p[2],
                max_buffer_size: read_le32(p, 7),
                capabilities: read_le32(p, 19),
                unicode: m.header.flags2 & FLAGS2_UNICODE != 0,
                extended_security: m.header.flags2 & FLAGS2_EXTENDED_SECURITY != 0,
                challenge,
            },
        );
        self.phase = Phase::Negotiated;
        Ok(())
    }

    /// The echo request carrying `payload`. Legal once negotiated, with no
    /// request pending; a payload too long for the byte block is refused.
    pub fn echo_request(&mut self, payload: &[u8]) -> (r: Result<Vec<u8>, SMBError>)
        requires
            old(self).wf(),
        ensures
            final(self).wf(),
            final(self).same_session(&*old(self)),
            r is Ok ==> final(self).spec_echo_len() == payload@.len(),
            (old(self).spec_phase() == Phase::Disconnected || old(self).spec_pending() is Some)
                ==> r == Err::<Vec<u8>, SMBError>(SMBError::OutOfSequence) && *final(self)
                == *old(self),
            r is Ok <==> old(self).spec_phase() != Phase::Disconnected && old(self).spec_pending() is None
                && payload@.len() <= MAX_DATA_LEN,
            r == Err::<Vec<u8>, SMBError>(SMBError::Protocol(ProtocolError::LengthMismatch))
                ==> *final(self) == *old(self),
            r is Err ==> r == Err::<Vec<u8>, SMBError>(SMBError::OutOfSequence) || r == Err::<
                Vec<u8>,
                SMBError,
            >(SMBError::Protocol(ProtocolError::LengthMismatch)),
            r matches Ok(v) ==> exists|h: SMBHeader|
                is_request_header(
                    h,
                    SMB_COM_ECHO,
                    old(self).request_flags2(),
                    old(self).spec_pid(),
                    0,
                    old(self).spec_uid(),
                    old(self).spec_next_mid(),
                ) && v@ == message_bytes(h, le16(1), payload@),
            r is Ok ==> final(self).spec_pending() == Some(
                Pending { command: SMB_COM_ECHO, mid: old(self).spec_next_mid() },
            ) && final(self).spec_phase() == old(self).spec_phase(),
    {
        if self.phase == Phase::Disconnected || self.pending.is_some() {
            return Err(SMBError::OutOfSequence);
        }
        if payload.len() > MAX_DATA_LEN {
            return Err(SMBError::Protocol(ProtocolError::LengthMismatch));
        }
        let h = self.start(SMB_COM_ECHO, 0);
        self.echo_len = payload.len();
        let mut params: Vec<u8> = Vec::new();
        push_le16(&mut params, 1);
        Ok(encode_message(&h, params.as_slice(), payload))
    }

    /// Takes the echo response: the echoed bytes must be as many as were sent.
    pub fn echo_response(&mut self, b: &[u8]) -> (r: Result<Vec<u8>, SMBError>)
        requires
            old(self).wf(),
        ensures
            final(self).wf(),
            final(self).same_session(&*old(self)),
            !old(self).awaits(SMB_COM_ECHO) ==> r == Err::<Vec<u8>, SMBError>(
                SMBError::OutOfSequence,
            ) && *final(self) == *old(self),
            old(self).awaits(SMB_COM_ECHO) ==> final(self).spec_pending() is None
                && final(self).spec_phase() == old(self).spec_phase(),
            old(self).awaits(SMB_COM_ECHO) ==> ({
                let e = first_error(
                    response_error(old(self).spec_pending().unwrap(), b@, SMB_COM_ECHO),
                    if data_of(b@).len() != old(self).spec_echo_len() {
                        Some(SMBError::InvalidResponse)
                    } else {
                        None
                    },
                );
                &&& r is Ok <==> e is None
                &&& r is Err ==> r == Err::<Vec<u8>, SMBError>(e.unwrap())
            }),
            r matches Ok(v) ==> v@ == data_of(b@),
    {
        let m = match self.take_response(b, SMB_COM_ECHO) {
            Ok(m) => m,
            Err(e) => return Err(e),
        };
        if m.data.len() != self.echo_len {
            return Err(SMBError::InvalidResponse);
        }
        Ok(m.data)
    }

    /// The session setup request answering the negotiated challenge with the
    /// LM and NTLM responses of `password`. Legal only once negotiated and
    /// before authentication, with no request pending; it needs the 8-byte
    /// challenge of negotiation, and names that fit the byte block.
    pub fn session_setup_request(&mut self, username: &str, password: &str, domain: &str) -> (r:
        Result<Vec<u8>, SMBError>)
        requires
            old(self).wf(),
        ensures
            final(self).wf(),
            final(self).same_session(&*old(self)),
            !(old(self).spec_phase() == Phase::Negotiated && old(self).spec_pending() is None)
                ==> r == Err::<Vec<u8>, SMBError>(SMBError::OutOfSequence),
            old(self).spec_phase() == Phase::Negotiated && old(self).spec_pending() is None
                && old(self).spec_challenge().len() != 8 ==> r == Err::<Vec<u8>, SMBError>(
                SMBError::InvalidResponse,
            ),
            r is Err ==> *final(self) == *old(self),
            r matches Ok(v) ==> ({
                let ch = old(self).spec_challenge();
                let u = old(self).spec_unicode();
                let data = setup_data(
                    challenge_response(lm_hash_of(password@), ch),
                    challenge_response(ntlm_hash_of(password@), ch),
                    username@,
                    domain@,
                    u,
                );
                &&& ch.len() == 8
                &&& exists|h: SMBHeader|
                    is_request_header(
                        h,
                        SMB_COM_SESSION_SETUP_ANDX,
                        old(self).request_flags2(),
                        old(self).spec_pid(),
                        0,
                        old(self).spec_uid(),
                        old(self).spec_next_mid(),
                    ) && v@ == message_bytes(h, setup_params(u), data)
                &&& final(self).spec_pending() == Some(
                    Pending { command: SMB_COM_SESSION_SETUP_ANDX, mid: old(self).spec_next_mid() },
                )
                &&& final(self).spec_setup_hash() == ntlm_hash_of(password@)
                &&& final(self).spec_phase() == old(self).spec_phase()
            }),
            r is Ok <==> ({
                let ch = old(self).spec_challenge();
                &&& old(self).spec_phase() == Phase::Negotiated
                &&& old(self).spec_pending() is None
                &&& ch.len() == 8
                &&& setup_data(
                    challenge_response(lm_hash_of(password@), ch),
                    challenge_response(ntlm_hash_of(password@), ch),
                    username@,
                    domain@,
                    old(self).spec_unicode(),
                ).len() <= MAX_DATA_LEN
            }),
            r is Err ==> r == Err::<Vec<u8>, SMBError>(SMBError::OutOfSequence) || r == Err::<
                Vec<u8>,
                SMBError,
            >(SMBError::InvalidResponse) || r == Err::<Vec<u8>, SMBError>(
                SMBError::Protocol(ProtocolError::LengthMismatch),
            ),
    {
        if self.phase != Phase::Negotiated || self.pending.is_some() {
            return Err(SMBError::OutOfSequence);
        }
        let ch: Vec<u8> = match &self.negotiated {
            Some(n) => copy_range(n.challenge.as_slice(), 0, n.challenge.len()),
            None => Vec::new(),
        };
        assert(ch@ =~= self.spec_challenge());
        if ch.len() != 8 {
            return Err(SMBError::InvalidResponse);
        }
        let unicode = self.unicode();
        let lm_hash = compute_lm_hash(password);
        let nt_hash = compute_ntlm_hash(password);
        let lm = lm_response(lm_hash.as_slice(), ch.as_slice());
        let nt = ntlm_response(nt_hash.as_slice(), ch.as_slice());
        let data = setup_data_bytes(lm.as_slice(), nt.as_slice(), username, domain, unicode);
        if data.len() > MAX_DATA_LEN {
            return Err(SMBError::Protocol(ProtocolError::LengthMismatch));
        }
        let params = setup_params_bytes(unicode);
        let h = self.start(SMB_COM_SESSION_SETUP_ANDX, 0);
        self.setup_hash = nt_hash;
        Ok(encode_message(&h, params.as_slice(), data.as_slice()))
    }

    /// Takes the session setup response: a logon failure is an
    /// authentication error. On success the client is authenticated under
    /// the user id of the response, with the NTLM session key.
    pub fn session_setup_response(&mut self, b: &[u8]) -> (r: Result<(), SMBError>)
        requires
            old(self).wf(),
        ensures
            final(self).wf(),
            r is Err ==> final(self).same_session(&*old(self)),
            final(self).spec_pid() == old(self).spec_pid(),
            final(self).spec_negotiated() == old(self).spec_negotiated(),
            final(self).spec_unicode() == old(self).spec_unicode(),
            final(self).spec_extended() == old(self).spec_extended(),
            final(self).spec_challenge() == old(self).spec_challenge(),
            r is Ok ==> final(self).spec_session_key().len() == 16,
            !old(self).awaits(SMB_COM_SESSION_SETUP_ANDX) ==> r == Err::<(), SMBError>(
                SMBError::OutOfSequence,
            ) && *final(self) == *old(self),
            old(self).awaits(SMB_COM_SESSION_SETUP_ANDX) ==> final(self).spec_pending() is None,
            old(self).awaits(SMB_COM_SESSION_SETUP_ANDX) ==> ({
                let e = response_error(
                    old(self).spec_pending().unwrap(),
                    b@,
                    SMB_COM_SESSION_SETUP_ANDX,
                );
                &&& r is Ok <==> e is None
                &&& r is Err ==> r == Err::<(), SMBError>(e.unwrap()) && final(self).spec_phase()
                    == old(self).spec_phase()
            }),
            r is Ok ==> {
                &&& final(self).spec_phase() == Phase::Authenticated
                &&& final(self).spec_uid() == from_le16(b@[28], b@[29])
                &&& final(self).spec_session_key() == md4_of(old(self).spec_setup_hash())
                &&& final(self).spec_trees().len() == 0
                &&& final(self).spec_files().len() == 0
            },
    {
        let m = match self.take_response(b, SMB_COM_SESSION_SETUP_ANDX) {
            Ok(m) => m,
            Err(e) => return Err(e),
        };
        proof {
            lemma_decoded_fields(b@, m.header);
        }
        proof {
            if self.files@.len() > 0 {
                assert(self.trees@.contains(self.files@[0].tid));
            }
        }
        self.session_key = ntlm_session_key(self.setup_hash.as_slice());
        self.setup_hash = Vec::new();
        self.uid = m.header.uid;
        self.phase = Phase::Authenticated;
        Ok(())
    }

    /// The tree connect request for the share at `share` (a UNC path).
    /// Legal only once authenticated, with no request pending.
    pub fn tree_connect_request(&mut self, share: &str) -> (r: Result<Vec<u8>, SMBError>)
        requires
            old(self).wf(),
        ensures
            final(self).wf(),
            final(self).same_session(&*old(self)),
            !(old(self).spec_phase() == Phase::Authenticated && old(self).spec_pending() is None)
                ==> r == Err::<Vec<u8>, SMBError>(SMBError::OutOfSequence),
            r is Err ==> *final(self) == *old(self),
            r is Err ==> r == Err::<Vec<u8>, SMBError>(SMBError::OutOfSequence) || r == Err::<
                Vec<u8>,
                SMBError,
            >(SMBError::Protocol(ProtocolError::LengthMismatch)),
            r is Ok <==> old(self).spec_phase() == Phase::Authenticated && old(self).spec_pending() is None
                && tree_data(share@, old(self).spec_unicode()).len() <= MAX_DATA_LEN,
            r matches Ok(v) ==> exists|h: SMBHeader|
                is_request_header(
                    h,
                    SMB_COM_TREE_CONNECT_ANDX,
                    old(self).request_flags2(),
                    old(self).spec_pid(),
                    0,
                    old(self).spec_uid(),
                    old(self).spec_next_mid(),
                ) && v@ == message_bytes(h, tree_params(), tree_data(share@, old(self).spec_unicode())),
            r is Ok ==> final(self).spec_pending() == Some(
                Pending { command: SMB_COM_TREE_CONNECT_ANDX, mid: old(self).spec_next_mid() },
            ) && final(self).spec_phase() == old(self).spec_phase() && final(self).spec_trees()
                == old(self).spec_trees() && final(self).spec_files() == old(self).spec_files(),
    {
        if self.phase != Phase::Authenticated || self.pending.is_some() {
            return Err(SMBError::OutOfSequence);
        }
        let unicode = self.unicode();
        let mut data: Vec<u8> = Vec::new();
        data.push(0);
        push_smb_string(&mut data, share, unicode);
        push_all(&mut data, &[0x3F, 0x3F, 0x3F, 0x3F, 0x3F, 0]);
        assert(data@ =~= tree_data(share@, unicode));
        if data.len() > MAX_DATA_LEN {
            return Err(SMBError::Protocol(ProtocolError::LengthMismatch));
        }
        let mut params: Vec<u8> = Vec::new();
        push_all(&mut params, &[0xFF, 0, 0, 0]);
        push_le16(&mut params, 0);
        push_le16(&mut params, 1);
        assert(params@ =~= tree_params());
        let h = self.start(SMB_COM_TREE_CONNECT_ANDX, 0);
        Ok(encode_message(&h, params.as_slice(), data.as_slice()))
    }

    /// Takes the tree connect response: a missing share or refused access
    /// maps to its error. On success the tree id of the response, which
    /// must not be zero, is connected and returned.
    pub fn tree_connect_response(&mut self, b: &[u8]) -> (r: Result<u16, SMBError>)
        requires
            old(self).wf(),
        ensures
            final(self).wf(),
            r is Err ==> final(self).same_session(&*old(self)),
            final(self).spec_pid() == old(self).spec_pid(),
            final(self).spec_uid() == old(self).spec_uid(),
            final(self).spec_session_key() == old(self).spec_session_key(),
            final(self).spec_negotiated() == old(self).spec_negotiated(),
            final(self).spec_unicode() == old(self).spec_unicode(),
            final(self).spec_extended() == old(self).spec_extended(),
            final(self).spec_challenge() == old(self).spec_challenge(),
            final(self).spec_files() == old(self).spec_files(),
            !old(self).awaits(SMB_COM_TREE_CONNECT_ANDX) ==> r == Err::<u16, SMBError>(
                SMBError::OutOfSequence,
            ) && *final(self) == *old(self),
            old(self).awaits(SMB_COM_TREE_CONNECT_ANDX) ==> final(self).spec_pending() is None
                && final(self).spec_phase() == old(self).spec_phase() && final(self).spec_files()
                == old(self).spec_files(),
            old(self).awaits(SMB_COM_TREE_CONNECT_ANDX) ==> ({
                let e = first_error(
                    response_error(old(self).spec_pending().unwrap(), b@, SMB_COM_TREE_CONNECT_ANDX),
                    if from_le16(b@[24], b@[25]) == 0 {
                        Some(SMBError::InvalidResponse)
                    } else {
                        None
                    },
                );
                &&& r is Ok <==> e is None
                &&& r is Err ==> r == Err::<u16, SMBError>(e.unwrap()) && final(self).spec_trees()
                    == old(self).spec_trees()
            }),
            r matches Ok(tid) ==> {
                &&& tid == from_le16(b@[24], b@[25])
                &&& tid != 0
                &&& final(self).spec_trees().contains(tid)
                &&& forall|t: u16|
                    old(self).spec_trees().contains(t) ==> final(self).spec_trees().contains(t)
                &&& forall|t: u16|
                    #![trigger final(self).spec_trees().contains(t)]
                    final(self).spec_trees().contains(t) ==> t == tid || old(
                        self,
                    ).spec_trees().contains(t)
            },
    {
        let m = match self.take_response(b, SMB_COM_TREE_CONNECT_ANDX) {
            Ok(m) => m,
            Err(e) => return Err(e),
        };
        proof {
            lemma_decoded_fields(b@, m.header);
        }
        let tid = m.header.tid;
        if tid == 0 {
            return Err(SMBError::InvalidResponse);
        }
        let ghost old_trees = self.trees@;
        if !contains_u16(&self.trees, tid) {
            self.trees.push(tid);
            proof {
                assert(self.trees@[old_trees.len() as int] == tid);
                assert forall|t: u16| old_trees.contains(t) implies self.trees@.contains(t) by {
                    let k = choose|k: int| 0 <= k < old_trees.len() && old_trees[k] == t;
                    assert(self.trees@[k] == t);
                }
                assert forall|t: u16| #[trigger] self.trees@.contains(t) implies t == tid
                    || old_trees.contains(t) by {
                    let k = choose|k: int| 0 <= k < self.trees@.len() && self.trees@[k] == t;
                    if k < old_trees.len() {
                        assert(old_trees[k] == t);
                    }
                }
                assert forall|k: int| 0 <= k < self.files@.len() implies self.trees@.contains(
                    #[trigger] self.files@[k].tid,
                ) by {
                    assert(old_trees.contains(self.files@[k].tid));
                }
            }
        }
        Ok(tid)
    }

    /// The create request for `filename` under tree `tid`. Legal only on a
    /// connected tree, with no request pending.
    pub fn create_file_request(&mut self, tid: u16, filename: &str) -> (r: Result<
        Vec<u8>,
        SMBError,
    >)
        requires
            old(self).wf(),
        ensures
            final(self).wf(),
            final(self).same_session(&*old(self)),
            !(old(self).spec_phase() == Phase::Authenticated && old(self).spec_pending() is None
                && old(self).spec_trees().contains(tid)) ==> r == Err::<Vec<u8>, SMBError>(
                SMBError::OutOfSequence,
            ),
            r is Err ==> *final(self) == *old(self),
            r is Ok <==> old(self).spec_phase() == Phase::Authenticated && old(self).spec_pending() is None
                && old(self).spec_trees().contains(tid) && create_data(
                filename@,
                old(self).spec_unicode(),
            ).len() <= MAX_DATA_LEN,
            r is Err ==> r == Err::<Vec<u8>, SMBError>(SMBError::OutOfSequence) || r == Err::<
                Vec<u8>,
                SMBError,
            >(SMBError::Protocol(ProtocolError::LengthMismatch)),
            r matches Ok(v) ==> exists|h: SMBHeader|
                is_request_header(
                    h,
                    SMB_COM_CREATE,
                    old(self).request_flags2(),
                    old(self).spec_pid(),
                    tid,
                    old(self).spec_uid(),
                    old(self).spec_next_mid(),
                ) && v@ == message_bytes(h, le16(0) + le32(0), create_data(filename@, old(self).spec_unicode())),
            r is Ok ==> final(self).spec_pending() == Some(
                Pending { command: SMB_COM_CREATE, mid: old(self).spec_next_mid() },
            ) && final(self).spec_create_tid() == tid && final(self).spec_phase() == old(
                self,
            ).spec_phase() && final(self).spec_trees() == old(self).spec_trees()
                && final(self).spec_files() == old(self).spec_files(),
    {
        if self.phase != Phase::Authenticated || self.pending.is_some() || !contains_u16(
            &self.trees,
            tid,
        ) {
            return Err(SMBError::OutOfSequence);
        }
        let unicode = self.unicode();
        let mut data: Vec<u8> = Vec::new();
        data.push(0x04);
        push_smb_string(&mut data, filename, unicode);
        assert(data@ =~= create_data(filename@, unicode));
        if data.len() > MAX_DATA_LEN {
            return Err(SMBError::Protocol(ProtocolError::LengthMismatch));
        }
        let mut params: Vec<u8> = Vec::new();
        push_le16(&mut params, 0);
        push_le32(&mut params, 0);
        self.create_tid = tid;
        let h = self.start(SMB_COM_CREATE, tid);
        Ok(encode_message(&h, params.as_slice(), data.as_slice()))
    }

    /// Takes the create response: the new file id must not be zero nor open already.
    /// It is recorded under the tree of the request and returned.
    pub fn create_file_response(&mut self, b: &[u8]) -> (r: Result<u16, SMBError>)
        requires
            old(self).wf(),
        ensures
            final(self).wf(),
            r is Err ==> final(self).same_session(&*old(self)),
            final(self).spec_pid() == old(self).spec_pid(),
            final(self).spec_uid() == old(self).spec_uid(),
            final(self).spec_session_key() == old(self).spec_session_key(),
            final(self).spec_negotiated() == old(self).spec_negotiated(),
            final(self).spec_unicode() == old(self).spec_unicode(),
            final(self).spec_extended() == old(self).spec_extended(),
            final(self).spec_challenge() == old(self).spec_challenge(),
            final(self).spec_trees() == old(self).spec_trees(),
            !old(self).awaits(SMB_COM_CREATE) ==> r == Err::<u16, SMBError>(SMBError::OutOfSequence)
                && *final(self) == *old(self),
            old(self).awaits(SMB_COM_CREATE) ==> final(self).spec_pending() is None
                && final(self).spec_phase() == old(self).spec_phase() && final(self).spec_trees()
                == old(self).spec_trees(),
            old(self).awaits(SMB_COM_CREATE) ==> ({
                let p = params_of(b@);
                let e = first_error(
                    response_error(old(self).spec_pending().unwrap(), b@, SMB_COM_CREATE),
                    if p.len() < 2 || from_le16(p[0], p[1]) == 0 || fid_open(
                        old(self).spec_files(),
                        from_le16(p[0], p[1]),
                    ) {
                        Some(SMBError::InvalidResponse)
                    } else {
                        None
                    },
                );
                &&& r is Ok <==> e is None
                &&& r is Err ==> r == Err::<u16, SMBError>(e.unwrap()) && final(self).spec_files()
                    == old(self).spec_files()
            }),
            r matches Ok(fid) ==> {
                &&& fid == from_le16(params_of(b@)[0], params_of(b@)[1])
                &&& final(self).spec_files() == old(self).spec_files().push(
                    FileHandle { fid, tid: old(self).spec_create_tid() },
                )
            },
    {
        let m = match self.take_response(b, SMB_COM_CREATE) {
            Ok(m) => m,
            Err(e) => return Err(e),
        };
        let p = m.params.as_slice();
        if p.len() < 2 {
            return Err(SMBError::InvalidResponse);
        }
        let fid = read_le16(p, 0);
        if fid == 0 || self.fid_index(fid).is_some() {
            return Err(SMBError::InvalidResponse);
        }
        self.files.push(FileHandle { fid, tid: self.create_tid });
        Ok(fid)
    }

    /// The close request for file `fid` under tree `tid`. Legal only while
    /// that file is open, with no request pending. The file stops being open
    /// here, whatever the server answers.
    pub fn close_file_request(&mut self, tid: u16, fid: u16) -> (r: Result<Vec<u8>, SMBError>)
        requires
            old(self).wf(),
        ensures
            final(self).wf(),
            final(self).spec_pid() == old(self).spec_pid(),
            final(self).spec_negotiated() == old(self).spec_negotiated(),
            final(self).spec_unicode() == old(self).spec_unicode(),
            final(self).spec_extended() == old(self).spec_extended(),
            final(self).spec_challenge() == old(self).spec_challenge(),
            final(self).spec_uid() == old(self).spec_uid(),
            final(self).spec_session_key() == old(self).spec_session_key(),
            r is Ok <==> old(self).spec_phase() == Phase::Authenticated && old(self).spec_pending() is None
                && old(self).has_file(tid, fid),
            r is Err ==> r == Err::<Vec<u8>, SMBError>(SMBError::OutOfSequence) && *final(self)
                == *old(self),
            r matches Ok(v) ==> exists|h: SMBHeader|
                is_request_header(
                    h,
                    SMB_COM_CLOSE,
                    old(self).request_flags2(),
                    old(self).spec_pid(),
                    tid,
                    old(self).spec_uid(),
                    old(self).spec_next_mid(),
                ) && v@ == message_bytes(h, le16(fid) + le32(0), Seq::empty()),
            r is Ok ==> {
                &&& final(self).spec_pending() == Some(
                    Pending { command: SMB_COM_CLOSE, mid: old(self).spec_next_mid() },
                )
                &&& final(self).spec_phase() == old(self).spec_phase()
                &&& final(self).spec_trees() == old(self).spec_trees()
                &&& !fid_open(final(self).spec_files(), fid)
                &&& exists|i: int|
                    0 <= i < old(self).spec_files().len() && old(self).spec_files()[i]
                        == FileHandle { fid, tid } && final(self).spec_files() == old(
                        self,
                    ).spec_files().remove(i)
            },
    {
        if self.phase != Phase::Authenticated || self.pending.is_some() {
            return Err(SMBError::OutOfSequence);
        }
        let i = match self.fid_index(fid) {
            Some(i) => i,
            None => {
                proof {
                    if self.has_file(tid, fid) {
                        let k = choose|k: int|
                            0 <= k < self.files@.len() && self.files@[k] == FileHandle { fid, tid };
                        assert(self.files@[k].fid == fid);
                    }
                }
                return Err(SMBError::OutOfSequence);
            },
        };
        if self.files[i].tid != tid {
            proof {
                if self.has_file(tid, fid) {
                    let k = choose|k: int|
                        0 <= k < self.files@.len() && self.files@[k] == FileHandle { fid, tid };
                    if k < i {
                        assert(self.files@[k].fid != self.files@[i as int].fid);
                    } else if k > i {
                        assert(self.files@[i as int].fid != self.files@[k].fid);
                    }
                }
            }
            return Err(SMBError::OutOfSequence);
        }
        assert(self.files@[i as int] == FileHandle { fid, tid });
        let ghost old_files = self.files@;
        self.files.remove(i);
        proof {
            assert forall|a: int, c: int|
                0 <= a < c < self.files@.len() implies self.files@[a].fid != self.files@[c].fid by {
                let a2 = if a < i { a } else { a + 1 };
                let c2 = if c < i { c } else { c + 1 };
                assert(self.files@[a] == old_files[a2]);
                assert(self.files@[c] == old_files[c2]);
            }
            assert forall|k: int| 0 <= k < self.files@.len() implies self.trees@.contains(
                #[trigger] self.files@[k].tid,
            ) by {
                let k2 = if k < i { k } else { k + 1 };
                assert(self.files@[k] == old_files[k2]);
            }
            assert(!fid_open(self.files@, fid)) by {
                if fid_open(self.files@, fid) {
                    let k = choose|k: int| 0 <= k < self.files@.len() && #[trigger] self.files@[k].fid == fid;
                    let k2 = if k < i { k } else { k + 1 };
                    assert(self.files@[k] == old_files[k2]);
                }
            }
        }
        let mut params: Vec<u8> = Vec::new();
        push_le16(&mut params, fid);
        push_le32(&mut params, 0);
        let empty: Vec<u8> = Vec::new();
        assert(empty@ =~= Seq::<u8>::empty());
        let h = self.start(SMB_COM_CLOSE, tid);
        assert(old_files[i as int] == FileHandle { fid, tid } && self.files@ == old_files.remove(
            i as int,
        ));
        assert(old(self).spec_files()[i as int] == FileHandle { fid, tid } && self.spec_files()
            == old(self).spec_files().remove(i as int));
        Ok(encode_message(&h, params.as_slice(), empty.as_slice()))
    }

    /// Takes the close response; a non-zero status is surfaced, though the
    /// file is closed on the client either way.
    pub fn close_file_response(&mut self, b: &[u8]) -> (r: Result<(), SMBError>)
        requires
            old(self).wf(),
        ensures
            final(self).wf(),
            final(self).same_session(&*old(self)),
            !old(self).awaits(SMB_COM_CLOSE) ==> r == Err::<(), SMBError>(SMBError::OutOfSequence)
                && *final(self) == *old(self),
            old(self).awaits(SMB_COM_CLOSE) ==> ({
                let e = response_error(old(self).spec_pending().unwrap(), b@, SMB_COM_CLOSE);
                &&& final(self).spec_pending() is None
                &&& final(self).spec_phase() == old(self).spec_phase()
                &&& final(self).spec_trees() == old(self).spec_trees()
                &&& final(self).spec_files() == old(self).spec_files()
                &&& r is Ok <==> e is None
                &&& r is Err ==> r == Err::<(), SMBError>(e.unwrap())
            }),
    {
        match self.take_response(b, SMB_COM_CLOSE) {
            Ok(_) => Ok(()),
            Err(e) => Err(e),
        }
    }

    /// The position of the open file with id `fid`.
    fn fid_index(&self, fid: u16) -> (r: Option<usize>)
        ensures
            r matches Some(i) ==> i < self.files@.len() && self.files@[i as int].fid == fid,
            r is None <==> !fid_open(self.files@, fid),
    {
        let mut i: usize = 0;
        while i < self.files.len()
            invariant
                i <= self.files@.len(),
                forall|k: int| 0 <= k < i ==> self.files@[k].fid != fid,
            decreases self.files@.len() - i,
        {
            if self.files[i].fid == fid {
                return Some(i);
            }
            i = i + 1;
        }
        None
    }
}

/// A file id that is open nowhere is open under no tree, so a second close of
/// a closed file, or a close of a file never opened, is out of sequence.
pub proof fn lemma_closed_file_not_open(c: SMBClient, tid: u16, fid: u16)
    requires
        !fid_open(c.spec_files(), fid),
    ensures
        !c.has_file(tid, fid),
{
    if c.has_file(tid, fid) {
        let k = choose|k: int|
            0 <= k < c.spec_files().len() && c.spec_files()[k] == FileHandle { fid, tid };
        assert(c.spec_files()[k].fid == fid);
    }
}

/// A file is open under one tree only, so closing it under another tree is
/// out of sequence.
pub proof fn lemma_file_under_one_tree(c: SMBClient, t1: u16, t2: u16, fid: u16)
    requires
        c.wf(),
        c.has_file(t1, fid),
        t1 != t2,
    ensures
        !c.has_file(t2, fid),
{
    if c.has_file(t2, fid) {
        let i = choose|i: int|
            0 <= i < c.spec_files().len() && c.spec_files()[i] == FileHandle { fid, tid: t1 };
        let j = choose|j: int|
            0 <= j < c.spec_files().len() && c.spec_files()[j] == FileHandle { fid, tid: t2 };
        assert(i != j);
        if i < j {
            assert(c.files@[i].fid != c.files@[j].fid);
        } else {
            assert(c.files@[j].fid != c.files@[i].fid);
        }
    }
}

/// The session setup word block.
fn setup_params_bytes(unicode: bool) -> (r: Vec<u8>)
    ensures
        r@ == setup_params(unicode),
        r@.len() == 26,
{
    let mut params: Vec<u8> = Vec::new();
    push_all(&mut params, &[0xFF, 0, 0, 0]);
    push_le16(&mut params, 0xFFFF);
    push_le16(&mut params, 1);
    push_le16(&mut params, 0);
    push_le32(&mut params, 0);
    push_le16(&mut params, 24);
    push_le16(&mut params, 24);
    push_le32(&mut params, 0);
    push_le32(&mut params, if unicode { 0x14 } else { 0x10 });
    assert(params@ =~= setup_params(unicode));
    params
}

/// The session setup byte block.
fn setup_data_bytes(lm: &[u8], nt: &[u8], user: &str, domain: &str, unicode: bool) -> (r: Vec<u8>)
    ensures
        r@ == setup_data(lm@, nt@, user@, domain@, unicode),
{
    let mut data: Vec<u8> = Vec::new();
    push_all(&mut data, lm);
    push_all(&mut data, nt);
    if unicode {
        data.push(0);
    }
    push_smb_string(&mut data, user, unicode);
    push_smb_string(&mut data, domain, unicode);
    assert(data@ =~= setup_data(lm@, nt@, user@, domain@, unicode));
    data
}

/// Whether `v` holds `x`.
fn contains_u16(v: &Vec<u16>, x: u16) -> (r: bool)
    ensures
        r == v@.contains(x),
{
    let mut i: usize = 0;
    while i < v.len()
        invariant
            i <= v@.len(),
            forall|k: int| 0 <= k < i ==> v@[k] != x,
        decreases v@.len() - i,
    {
        if v[i] == x {
            return true;
        }
        i = i + 1;
    }
    false
}

/// Appends `s` in the given character mode, with its terminator.
pub fn push_smb_string(out: &mut Vec<u8>, s: &str, unicode: bool)
    ensures
        final(out)@ == old(out)@ + smb_string(s@, unicode),
{
    if unicode {
        let u = password_utf16le(s);
        push_all(out, u.as_slice());
        out.push(0);
        out.push(0);
    } else {
        let n = s.unicode_len();
        let mut i: usize = 0;
        while i < n
            invariant
                n == s@.len(),
                i <= n,
                out@ == old(out)@ + Seq::new(i as nat, |k: int| latin1(s@[k])),
            decreases n - i,
        {
            let c = s.get_char(i);
            let b: u8 = if (c as u32) < 256 {
                c as u8
            } else {
                0x3F
            };
            out.push(b);
            i = i + 1;
            assert(out@ =~= old(out)@ + Seq::new(i as nat, |k: int| latin1(s@[k])));
        }
        out.push(0);
    }
    assert(out@ =~= old(out)@ + smb_string(s@, unicode));
}

/// The error for a non-zero status.
pub fn status_code_error(command: u8, status: u32) -> (r: SMBError)
    ensures
        r == status_error(command, status),
{
    if command == SMB_COM_SESSION_SETUP_ANDX && status == STATUS_LOGON_FAILURE {
        SMBError::Authentication
    } else if command == SMB_COM_TREE_CONNECT_ANDX && status == STATUS_BAD_NETWORK_NAME {
        SMBError::Protocol(ProtocolError::ShareNotFound)
    } else if command == SMB_COM_CREATE && status == STATUS_OBJECT_NAME_NOT_FOUND {
        SMBError::FileNotFound
    } else if command == SMB_COM_CREATE && status == STATUS_OBJECT_NAME_COLLISION {
        SMBError::AlreadyExists
    } else if status == STATUS_ACCESS_DENIED {
        SMBError::Protocol(ProtocolError::PermissionDenied)
    } else {
        SMBError::Remote(status)
    }
}

} // verus!
