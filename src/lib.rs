//! Host-side client logic for a USB-serial hardware signing token: the line
//! framing of its AT-command protocol, the hex text that carries its payloads,
//! the signature envelope, and the sign and verify decisions.

mod buf;
pub mod envelope;
mod error;
pub mod framing;
pub mod hex;
pub mod locator;
pub mod workflow;

pub use envelope::{build_sign_request, check_sidecar, parse_envelope, Envelope};
pub use error::TokenError;
pub use framing::{Exchange, Handshake, Poll};
pub use hex::{decode_hex, decode_hex_bytes, encode_hex};
pub use locator::{locate_token, PortDescriptor, UsbIdentity};
pub use workflow::{
    check_capacity, envelope_from_reply, file_digest, info_command, match_digest, parse_capacity,
    sidecar_from_reply, sign_command, verify_command, verify_reply,
};
