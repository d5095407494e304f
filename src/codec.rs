use vstd::prelude::*;
use vstd::utf8::encode_utf8;

use crate::b64::{base64_bytes_of, base64_text_of, decode_base64, encode_base64};
use crate::xor::{lemma_xor_involution, xor_from, xor_key};

verus! {

/// The payload hidden in an obfuscated file: the file's text read as base64, then
/// XOR-ed with the key. `None` where the text is not valid base64.
pub open spec fn unobfuscated(text: Seq<u8>) -> Option<Seq<u8>> {
    match base64_bytes_of(text) {
        Some(d) => Some(xor_from(d, 0)),
        None => None,
    }
}

/// The obfuscated form of a payload: XOR-ed with the key, then written as base64.
pub open spec fn obfuscated(payload: Seq<u8>) -> Seq<char> {
    base64_text_of(xor_from(payload, 0))
}

/// Some call of `parse` on a vector holding `p` returned `a`.
pub open spec fn parses_to<T, E, F: Fn(Vec<u8>) -> Result<T, E>>(
    parse: F,
    p: Seq<u8>,
    a: Result<T, E>,
) -> bool {
    exists|v: Vec<u8>| v@ == p && #[trigger] parse.ensures((v,), a)
}

/// Reverses the obfuscation: reads `contents` as base64 and XORs the bytes with the key.
/// Returns `None` where `contents` is not valid base64.
pub fn unobfuscate(contents: &[u8]) -> (r: Option<Vec<u8>>)
    requires
        contents@.len() <= usize::MAX - 3,
    ensures
        match r {
            Some(v) => unobfuscated(contents@) == Some(v@),
            None => unobfuscated(contents@) is None,
        },
{
    match decode_base64(contents) {
        Ok(bytes) => Some(xor_key(bytes.as_slice())),
        Err(_) => None,
    }
}

/// Obfuscates a payload: XORs it with the key and writes the result as base64 text.
/// Reading the text back with `unobfuscate` gives the payload again.
pub fn obfuscate(payload: &[u8]) -> (r: String)
    requires
        payload@.len() <= usize::MAX / 2,
    ensures
        r@ == obfuscated(payload@),
        unobfuscated(encode_utf8(r@)) == Some(payload@),
{
    let x = xor_key(payload);
    let r = encode_base64(x.as_slice());
    proof {
        lemma_xor_involution(payload@, 0);
    }
    r
}

/// The outcome of two attempts: the first success, or else the first error.
pub open spec fn first_success<T, E>(a: Result<T, E>, b: Result<T, E>) -> Result<T, E> {
    match a {
        Ok(t) => Ok(t),
        Err(e) => match b {
            Ok(t) => Ok(t),
            Err(_) => Err(e),
        },
    }
}

/// `r` is an outcome of decoding `contents` with `parse`: where `contents` is valid
/// base64, `parse` first gets the unobfuscated payload, and the raw bytes only where
/// that fails; otherwise it gets the raw bytes alone. The first success wins, and where
/// all fail the first error is kept.
pub open spec fn decodes_to<T, E, F: Fn(Vec<u8>) -> Result<T, E>>(
    parse: F,
    contents: Seq<u8>,
    r: Result<T, E>,
) -> bool {
    match unobfuscated(contents) {
        Some(p) => exists|a: Result<T, E>| #[trigger]
            parses_to(parse, p, a) && (a is Ok ==> r == a) && (a is Err ==> exists|
                b: Result<T, E>,
            | #[trigger] parses_to(parse, contents, b) && r == first_success(a, b)),
        None => exists|b: Result<T, E>| #[trigger] parses_to(parse, contents, b) && r == b,
    }
}

/// `parse` behaves as a function of the bytes it is given.
pub open spec fn parse_is_function<T, E, F: Fn(Vec<u8>) -> Result<T, E>>(parse: F) -> bool {
    forall|p: Seq<u8>, a1: Result<T, E>, a2: Result<T, E>|
        #[trigger] parses_to(parse, p, a1) && #[trigger] parses_to(parse, p, a2) ==> a1 == a2
}

/// Decodes a file with `parse`, trying its possible payloads in order until one parses.
///
/// Where `contents` is valid base64, `parse` first gets the unobfuscated payload; where
/// that fails, or the text is not base64, it gets `contents` itself. The first success
/// is returned. Where every attempt fails, the error is that of the first attempt: for
/// a base64 file, why its payload did not parse; for any other file, why its text did not.
pub fn decode_with<T, E, F: Fn(Vec<u8>) -> Result<T, E>>(contents: &[u8], parse: &F) -> (r:
    Result<T, E>)
    requires
        contents@.len() <= usize::MAX - 3,
        forall|v: Vec<u8>| #[trigger] parse.requires((v,)),
    ensures
        decodes_to(*parse, contents@, r),
{
    match unobfuscate(contents) {
        Some(payload) => {
            let a = parse(payload);
            let ghost ga = a;
            assert(parses_to(*parse, unobfuscated(contents@)->0, ga));
            match a {
                Ok(t) => Ok(t),
                Err(e) => {
                    let b = parse(vstd::slice::slice_to_vec(contents));
                    assert(parses_to(*parse, contents@, b));
                    match b {
                        Ok(t) => Ok(t),
                        Err(_) => Err(e),
                    }
                },
            }
        },
        None => {
            let b = parse(vstd::slice::slice_to_vec(contents));
            assert(parses_to(*parse, contents@, b));
            b
        },
    }
}

/// Round trip: decoding the obfuscated form of a payload gives what `parse` makes of
/// the payload itself, when that is a success.
pub proof fn lemma_round_trip<T, E, F: Fn(Vec<u8>) -> Result<T, E>>(
    parse: F,
    payload: Seq<u8>,
    text: Seq<u8>,
    t: T,
    r: Result<T, E>,
)
    requires
        parse_is_function(parse),
        base64_bytes_of(text) == Some(xor_from(payload, 0)),
        parses_to(parse, payload, Ok::<T, E>(t)),
        decodes_to(parse, text, r),
    ensures
        r == Ok::<T, E>(t),
{
    lemma_xor_involution(payload, 0);
    assert(unobfuscated(text) == Some(payload));
}

/// Fallback: a text that is not valid base64 but parses as it is decodes to the same
/// value as its obfuscated form does.
pub proof fn lemma_fallback_agrees<T, E, F: Fn(Vec<u8>) -> Result<T, E>>(
    parse: F,
    raw: Seq<u8>,
    text: Seq<u8>,
    r_raw: Result<T, E>,
    r_text: Result<T, E>,
)
    requires
        parse_is_function(parse),
        base64_bytes_of(raw) is None,
        base64_bytes_of(text) == Some(xor_from(raw, 0)),
        decodes_to(parse, raw, r_raw),
        decodes_to(parse, text, r_text),
        r_raw is Ok,
    ensures
        r_text == r_raw,
{
    lemma_xor_involution(raw, 0);
    assert(unobfuscated(text) == Some(raw));
    lemma_round_trip(parse, raw, text, r_raw->Ok_0, r_text);
}

/// Corrupt input: a text that is not valid base64 and that `parse` rejects as it
/// stands decodes to an error, the one `parse` gave.
pub proof fn lemma_corrupt_input_fails<T, E, F: Fn(Vec<u8>) -> Result<T, E>>(
    parse: F,
    contents: Seq<u8>,
    r: Result<T, E>,
)
    requires
        base64_bytes_of(contents) is None,
        forall|a: Result<T, E>| #[trigger] parses_to(parse, contents, a) ==> a is Err,
        decodes_to(parse, contents, r),
    ensures
        r is Err,
        parses_to(parse, contents, r),
{
}

} // verus!
