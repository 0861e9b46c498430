//! Client-side engine for the SMB1/CIFS file-sharing protocol: wire codec,
//! session-service framing, LM/NTLM credential hashing, and the session state
//! machine that decides which requests are legal when.
pub mod bytes;
pub mod client;
pub mod codec;
pub mod error;
pub mod framer;
pub mod ntlm;

pub use client::SMBClient;
pub use codec::SMBHeader;
pub use error::{ProtocolError, SMBError};
pub use ntlm::{compute_lm_hash, compute_ntlm_hash};
