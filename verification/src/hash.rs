//! Content hashes as text: the hexadecimal spelling of a BLAKE3 digest in its
//! two-byte YASMF envelope, as `p2panda_rs` makes and checks them.

use vstd::prelude::*;
use crate::decimal::decimal_text;
use crate::hex_text::{hex_digit_value, is_hex_text, is_lower_hex};

verus! {

/// Number of characters of a hash text: two for each of the 34 bytes.
pub const HASH_TEXT_LEN: usize = 68;

/// The text spells 34 bytes in hexadecimal, the first of them zero.
pub open spec fn is_hash_text(text: Seq<char>) -> bool {
    &&& is_hex_text(text)
    &&& text.len() == HASH_TEXT_LEN
    &&& hex_digit_value(text[0]) == Some(0int)
    &&& hex_digit_value(text[1]) == Some(0int)
}

/// The hash text that `p2panda_rs` derives from a byte sequence.
pub uninterp spec fn digest_text(bytes: Seq<u8>) -> Seq<char>;

/// The message with which `p2panda_rs` turns down a text as a hash: that
/// it is no hexadecimal text, or else that it spells the wrong number of
/// bytes, or else that its envelope is not the one of a BLAKE3 digest.
pub open spec fn hash_error_message(text: Seq<char>) -> Seq<char> {
    if !is_hex_text(text) {
        "invalid hex encoding in hash string"@
    } else if text.len() != HASH_TEXT_LEN {
        "invalid hash length "@ + decimal_text(text.len() / 2) + " bytes, expected 34 bytes"@
    } else {
        "can not decode YASMF BLAKE3 hash"@
    }
}

/// `p2panda_rs::hash::Hash::new_from_bytes`: the digest of the bytes is a
/// function of them alone, and it is a hash text in lower-case digits.
#[verifier::external_body]
pub(crate) fn digest_of(bytes: &[u8]) -> (text: String)
    ensures
        text@ == digest_text(bytes@),
        is_hash_text(text@),
        is_lower_hex(text@),
{
    p2panda_rs::hash::Hash::new_from_bytes(bytes).as_str().to_owned()
}

/// `p2panda_rs::hash::Hash::new`: accepts exactly the hash texts, and
/// otherwise gives the message of the first of its three checks that
/// fails.
#[verifier::external_body]
pub(crate) fn check_hash_text(text: &str) -> (r: Result<(), String>)
    ensures
        r is Ok <==> is_hash_text(text@),
        r matches Err(message) ==> message@ == hash_error_message(text@),
{
    match p2panda_rs::hash::Hash::new(text) {
        Ok(_) => Ok(()),
        Err(e) => Err(e.to_string()),
    }
}

} // verus!
