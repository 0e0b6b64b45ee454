//! The boundary adapter: per-field constructors and accessors that convert
//! between the host's primitive representations (hex text for byte buffers,
//! plain text for strings) and the records, reporting every failure through a
//! uniform tagged result instead of a language-level fault.

use vstd::prelude::*;

use crate::CodecError;
use crate::sign_request::TronSignRequest;
use crate::signature::TronSignature;

verus! {

/// The uniform result handed back across the boundary: a textual payload, an
/// explicit null, or an error message.
#[derive(Debug)]
pub enum Reply {
    Success(String),
    SuccessNull,
    Failure(String),
}

// ---------- hexadecimal text, as mathematics ----------

pub open spec fn hex_digit(d: int) -> char {
    if d < 10 {
        ((48 + d) as u8) as char
    } else {
        ((87 + d) as u8) as char
    }
}

/// The lowercase hexadecimal spelling of bytes, two digits each, most
/// significant first.
pub open spec fn hex_chars(b: Seq<u8>) -> Seq<char>
    decreases b.len(),
{
    if b.len() == 0 {
        Seq::empty()
    } else {
        hex_chars(b.drop_last()) + seq![
            hex_digit((b.last() / 16) as int),
            hex_digit((b.last() % 16) as int),
        ]
    }
}

pub open spec fn is_hex_digit(c: char) -> bool {
    (48 <= c as u32 <= 57) || (97 <= c as u32 <= 102) || (65 <= c as u32 <= 70)
}

pub open spec fn hex_digit_val(c: char) -> int {
    if 48 <= c as u32 <= 57 {
        (c as u32) - 48
    } else if 97 <= c as u32 <= 102 {
        (c as u32) - 87
    } else {
        (c as u32) - 55
    }
}

/// Text that spells bytes: an even number of hexadecimal digits, upper or
/// lower case.
pub open spec fn is_hex_str(s: Seq<char>) -> bool {
    s.len() % 2 == 0 && (forall|j: int| 0 <= j < s.len() ==> is_hex_digit(s[j]))
}

/// The bytes that hexadecimal text spells.
pub open spec fn hex_parse(s: Seq<char>) -> Seq<u8>
    decreases s.len(),
{
    if s.len() < 2 {
        Seq::empty()
    } else {
        seq![(hex_digit_val(s[0]) * 16 + hex_digit_val(s[1])) as u8] + hex_parse(
            s.subrange(2, s.len() as int),
        )
    }
}

// ---------- the two relied-on outside calls ----------

/// Relies on `hex::encode`: each byte becomes two lowercase hexadecimal
/// digits, most significant first.
#[verifier::external_body]
fn hex_encode_bytes(b: &Vec<u8>) -> (r: String)
    ensures
        r@ == hex_chars(b@),
{
    hex::encode(b)
}

/// Relies on `hex::decode`: it succeeds exactly on even-length strings of
/// hexadecimal digits, upper or lower case, and returns the bytes they spell.
#[verifier::external_body]
fn hex_decode_string(s: &str) -> (r: Option<Vec<u8>>)
    ensures
        r is Some <==> is_hex_str(s@),
        r matches Some(v) ==> v@ == hex_parse(s@),
{
    hex::decode(s).ok()
}

// ---------- the request's boundary ----------

/// A fresh all-defaults record.
pub fn tron_sign_request_new() -> (r: TronSignRequest)
    ensures
        r@.request_id is None,
        r@.sign_data.len() == 0,
        r@.data_type == 0,
        r@.derivation_path.len() == 0,
        r@.xfp is None,
        r@.address is None,
        r@.origin is None,
{
    TronSignRequest::new(None, Vec::new(), 0, String::new(), None, None, None)
}

/// Builds a record from host-supplied primitives: the id and payload as
/// hexadecimal text, and every empty optional string standing for absence,
/// the correlation id included.
pub fn tron_sign_request_construct(
    request_id: &str,
    sign_data: &str,
    path: &str,
    xfp: u32,
    address: &str,
    origin: &str,
    data_type: u32,
) -> (r: Result<TronSignRequest, CodecError>)
    ensures
        match r {
            Ok(req) => {
                &&& is_hex_str(request_id@)
                &&& is_hex_str(sign_data@)
                &&& req@.request_id == (if request_id@.len() == 0 {
                    None::<Seq<u8>>
                } else {
                    Some(hex_parse(request_id@))
                })
                &&& req@.sign_data == hex_parse(sign_data@)
                &&& req@.data_type == data_type
                &&& req@.derivation_path == path@
                &&& req@.xfp == Some(xfp)
                &&& req@.address == (if address@.len() == 0 {
                    None::<Seq<char>>
                } else {
                    Some(address@)
                })
                &&& req@.origin == (if origin@.len() == 0 {
                    None::<Seq<char>>
                } else {
                    Some(origin@)
                })
            },
            Err(e) => e == CodecError::InvalidHex && (!is_hex_str(request_id@) || !is_hex_str(
                sign_data@,
            )),
        },
{
    let rid_bytes = match hex_decode_string(request_id) {
        Some(v) => v,
        None => {
            return Err(CodecError::InvalidHex);
        },
    };
    let rid: Option<Vec<u8>> = if request_id.is_empty() {
        None
    } else {
        Some(rid_bytes)
    };
    let sd = match hex_decode_string(sign_data) {
        Some(v) => v,
        None => {
            return Err(CodecError::InvalidHex);
        },
    };
    let addr: Option<String> = if address.is_empty() {
        None
    } else {
        Some(address.to_owned())
    };
    let org: Option<String> = if origin.is_empty() {
        None
    } else {
        Some(origin.to_owned())
    };
    Ok(TronSignRequest::new(rid, sd, data_type, path.to_owned(), Some(xfp), addr, org))
}

/// The request id as lowercase hexadecimal text, or an explicit null when
/// none was ever set.
pub fn tron_sign_request_get_request_id(req: &TronSignRequest) -> (r: Reply)
    ensures
        match req@.request_id {
            Some(b) => r matches Reply::Success(s) && s@ == hex_chars(b),
            None => r is SuccessNull,
        },
{
    match req.get_request_id() {
        Some(id) => Reply::Success(hex_encode_bytes(id)),
        None => Reply::SuccessNull,
    }
}

/// The payload bytes as lowercase hexadecimal text.
pub fn tron_sign_request_get_sign_data(req: &TronSignRequest) -> (r: Reply)
    ensures
        r matches Reply::Success(s) && s@ == hex_chars(req@.sign_data),
{
    Reply::Success(hex_encode_bytes(req.get_sign_data()))
}

/// The derivation path in its canonical text form.
pub fn tron_sign_request_get_derivation_path(req: &TronSignRequest) -> (r: Reply)
    ensures
        r matches Reply::Success(s) && s@ == req@.derivation_path,
{
    Reply::Success(req.get_derivation_path().to_owned())
}

// ---------- the signature's boundary ----------

/// The signature bytes as lowercase hexadecimal text.
pub fn tron_signature_get_signature(sig: &TronSignature) -> (r: Reply)
    ensures
        r matches Reply::Success(s) && s@ == hex_chars(sig@.signature),
{
    Reply::Success(hex_encode_bytes(sig.get_signature()))
}

/// The request id as lowercase hexadecimal text. A record that never carried
/// one yields an explicit absence error, never an empty string.
pub fn tron_signature_get_request_id(sig: &TronSignature) -> (r: Reply)
    ensures
        match sig@.request_id {
            Some(b) => r matches Reply::Success(s) && s@ == hex_chars(b),
            None => r matches Reply::Failure(m) && m@ == "No request id supplied"@,
        },
{
    match sig.get_request_id() {
        Some(id) => Reply::Success(hex_encode_bytes(id)),
        None => {
            let m = "No request id supplied";
            Reply::Failure(m.to_owned())
        },
    }
}

} // verus!
