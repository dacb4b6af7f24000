//! Framing of HTTP/1.x messages held in a byte buffer.
//!
//! Given a buffer that may hold a partial message, or one message followed by
//! unrelated bytes, the library finds the exact length of the first message,
//! a view of its head and a view of its body. Header syntax is scanned by
//! `httparse`; everything that decides where the body ends is verified here.
pub mod error;
pub mod util;
pub mod framing;
pub mod decode;
pub mod version;

pub use decode::{decode_request, decode_response};
pub use error::{HeaderError, WireError};
pub use framing::{
    frame_message, message_length, DecodedMessage, HeaderField, MessageHead, RequestHead, ResponseHead,
};
pub use version::{check_version, HttpVersion};
