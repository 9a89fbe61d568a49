//! The service-side rules for accepting a submitted message: a byte-length
//! cap and an ASCII-only requirement, checked before anything is stored.

use vstd::prelude::*;
use vstd::string::StringSliceAdditionalSpecFns;

verus! {

/// Longest accepted message, in bytes.
pub const MAX_MESSAGE_LEN: usize = 96;

/// The body of a message-submission request.
#[derive(Debug, Clone)]
pub struct PostMessageRequest {
    pub content: String,
}

/// Why a submitted message was turned away.
#[derive(Debug, Clone, PartialEq, Eq, Structural)]
pub enum MessageRejection {
    TooLong,
    NotAscii,
}

/// Accepts a message exactly when it is at most `MAX_MESSAGE_LEN` bytes
/// and all ASCII; an over-long message is reported as too long even when
/// it is also not ASCII.
pub fn validate_message(content: &str) -> (r: Result<(), MessageRejection>)
    ensures
        r is Ok <==> (content.spec_bytes().len() <= MAX_MESSAGE_LEN && vstd::string::is_ascii(
            content,
        )),
        r == Err::<(), MessageRejection>(MessageRejection::TooLong) <==> content.spec_bytes().len()
            > MAX_MESSAGE_LEN,
        r == Err::<(), MessageRejection>(MessageRejection::NotAscii) <==> (
        content.spec_bytes().len() <= MAX_MESSAGE_LEN && !vstd::string::is_ascii(content)),
{
    broadcast use vstd::slice::axiom_spec_len;

    let bytes = content.as_bytes();
    if bytes.len() > MAX_MESSAGE_LEN {
        Err(MessageRejection::TooLong)
    } else if !content.is_ascii() {
        Err(MessageRejection::NotAscii)
    } else {
        Ok(())
    }
}

} // verus!
