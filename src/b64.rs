use vstd::prelude::*;
use vstd::utf8::encode_utf8;

verus! {

/// The standard, padded base64 text of the bytes `b`.
pub uninterp spec fn base64_text_of(b: Seq<u8>) -> Seq<char>;

/// The bytes that the base64 text `t` (given as its bytes) stands for, in the standard
/// alphabet, padded or not; `None` where `t` is not valid base64.
pub uninterp spec fn base64_bytes_of(t: Seq<u8>) -> Option<Seq<u8>>;

/// Why a text is not valid base64; carried, never inspected.
#[verifier::external_type_specification]
#[verifier::external_body]
pub struct ExDecodeError(base64::DecodeError);

/// Relies on `base64::encode` (standard alphabet, padded): it returns the base64 text of
/// `b`, which `base64::decode` turns back into `b`. It panics only where the length of
/// the text would overflow `usize`.
#[verifier::external_body]
pub(crate) fn encode_base64(b: &[u8]) -> (r: String)
    requires
        b@.len() <= usize::MAX / 2,
    ensures
        r@ == base64_text_of(b@),
        base64_bytes_of(encode_utf8(r@)) == Some(b@),
{
    base64::encode(b)
}

/// Relies on `base64::decode` (standard alphabet; padding optional): the bytes that `t` stands
/// for, or an error where `t` is not valid base64. It panics only where `t.len() + 3`
/// overflows `usize`.
#[verifier::external_body]
pub(crate) fn decode_base64(t: &[u8]) -> (r: Result<Vec<u8>, base64::DecodeError>)
    requires
        t@.len() <= usize::MAX - 3,
    ensures
        match r {
            Ok(v) => base64_bytes_of(t@) == Some(v@),
            Err(_) => base64_bytes_of(t@) is None,
        },
{
    base64::decode(t)
}

} // verus!
