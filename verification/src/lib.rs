//! Signature-driven binary value encoding for a message-bus IPC protocol.
//!
//! A textual type signature is parsed into a type tree; an encoder walks a
//! value tree guided by that type tree and produces wire bytes (plus an
//! out-of-band file-descriptor table), and a decoder walks wire bytes back
//! into a value tree.  Two wire formats are supported: the length-prefixed
//! bus format and a compact format that stores trailing framing offsets for
//! variable-sized elements.

pub mod decode;
pub mod encode;
pub mod error;
pub mod laws;
pub mod peer;
pub mod serialized;
pub mod signature;
pub mod value;
