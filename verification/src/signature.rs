//! The signature codec: the inbound record carrying a raw signature and the
//! optional id of the request it answers, encoded as a map keyed by the fixed
//! small integers 1 and 2.

use vstd::prelude::*;

use crate::CodecError;
use crate::cbor::emit_bytes;
use crate::cbor::emit_hdr;
use crate::cbor::enc_bytes;
use crate::cbor::enc_hdr;
use crate::cbor::enc_uint;
use crate::cbor::p_bytes;
use crate::cbor::p_hdr;
use crate::cbor::p_uint;
use crate::cbor::parse_bytes;
use crate::cbor::parse_hdr;
use crate::cbor::p_skip;
use crate::cbor::skip_item;
use crate::cbor::parse_uint;
use crate::sign_request::opt_bytes_view;

verus! {

/// The mathematical value of a signature record.
pub struct SignatureView {
    pub request_id: Option<Seq<u8>>,
    pub signature: Seq<u8>,
}

/// The inbound record: a completed signature, correlated to its request by an
/// optional id.
#[derive(Clone, Debug)]
pub struct TronSignature {
    request_id: Option<Vec<u8>>,
    signature: Vec<u8>,
}

impl View for TronSignature {
    type V = SignatureView;

    closed spec fn view(&self) -> SignatureView {
        SignatureView {
            request_id: opt_bytes_view(self.request_id),
            signature: self.signature@,
        }
    }
}

// ---------- the wire form of a signature, as mathematics ----------

/// A generalized payload: any subset of the signature's keys.
pub struct GenSignature {
    pub request_id: Option<Seq<u8>>,
    pub signature: Option<Seq<u8>>,
}

pub open spec fn gen_sig_count(g: GenSignature) -> int {
    (if g.request_id is Some {
        1int
    } else {
        0int
    }) + (if g.signature is Some {
        1int
    } else {
        0int
    })
}

/// The encoding of a generalized signature payload.
pub open spec fn gen_sig_encoding(g: GenSignature) -> Seq<u8> {
    enc_hdr(5, gen_sig_count(g) as u64) + (match g.request_id {
        Some(b) => enc_uint(1) + enc_bytes(b),
        None => Seq::empty(),
    }) + (match g.signature {
        Some(b) => enc_uint(2) + enc_bytes(b),
        None => Seq::empty(),
    })
}

/// The bytes that encoding a signature record produces.
pub open spec fn signature_encoding(v: SignatureView) -> Seq<u8> {
    gen_sig_encoding(
        GenSignature { request_id: v.request_id, signature: Some(v.signature) },
    )
}

// ---------- decoding, as mathematics ----------

/// What decoding a signature payload yields.
pub struct RawSignature {
    pub request_id: Option<Seq<u8>>,
    pub signature: Seq<u8>,
}

/// The fields seen so far while walking the map's entries.
pub struct SigState {
    pub request_id: Option<Seq<u8>>,
    pub signature: Option<Seq<u8>>,
}

pub open spec fn sig_empty_state() -> SigState {
    SigState { request_id: None, signature: None }
}

/// The signature bytes are mandatory; everything else is optional.
pub open spec fn sig_finalize(st: SigState, end: bool) -> Result<RawSignature, CodecError> {
    if !end {
        Err(CodecError::InvalidCbor)
    } else {
        match st.signature {
            None => Err(CodecError::MissingSignature),
            Some(sg) => Ok(RawSignature { request_id: st.request_id, signature: sg }),
        }
    }
}

/// Reads one map entry at `i`. A value that is not a byte string is skipped
/// and the field stays absent; an entry under an unknown key is skipped
/// likewise. Only a genuinely unreadable item fails the decode.
pub open spec fn sig_step(s: Seq<u8>, i: int, st: SigState) -> Result<(int, SigState), CodecError> {
    match p_uint(s, i) {
        None => Err(CodecError::InvalidCbor),
        Some((k, j)) => if k == 1 {
            match p_bytes(s, j) {
                Some((b, j2)) => Ok((j2, SigState { request_id: Some(b), ..st })),
                None => match p_skip(s, j) {
                    Some(j2) => Ok((j2, st)),
                    None => Err(CodecError::InvalidCbor),
                },
            }
        } else if k == 2 {
            match p_bytes(s, j) {
                Some((b, j2)) => Ok((j2, SigState { signature: Some(b), ..st })),
                None => match p_skip(s, j) {
                    Some(j2) => Ok((j2, st)),
                    None => Err(CodecError::InvalidCbor),
                },
            }
        } else {
            match p_skip(s, j) {
                Some(j2) => Ok((j2, st)),
                None => Err(CodecError::InvalidCbor),
            }
        },
    }
}

/// Walks `n` map entries from `i`, then finalizes.
pub open spec fn sig_entries(s: Seq<u8>, i: int, n: u64, st: SigState) -> Result<
    RawSignature,
    CodecError,
>
    decreases n,
{
    if n == 0 {
        sig_finalize(st, i == s.len())
    } else {
        match sig_step(s, i, st) {
            Err(e) => Err(e),
            Ok((j, st2)) => sig_entries(s, j, (n - 1) as u64, st2),
        }
    }
}

/// What decoding a signature payload yields: one raw signature or one error.
pub open spec fn spec_decode_signature(s: Seq<u8>) -> Result<RawSignature, CodecError> {
    match p_hdr(s, 0) {
        None => Err(CodecError::InvalidCbor),
        Some((m, n, i)) => if m == 5 {
            sig_entries(s, i, n, sig_empty_state())
        } else {
            Err(CodecError::NotAMap)
        },
    }
}

pub open spec fn sig_decode_post(r: Result<TronSignature, CodecError>, s: Seq<u8>) -> bool {
    match (r, spec_decode_signature(s)) {
        (Ok(sig), Ok(d)) => sig@.request_id == d.request_id && sig@.signature == d.signature,
        (Err(e1), Err(e2)) => e1 == e2,
        _ => false,
    }
}

// ---------- the executable codec ----------

impl TronSignature {
    /// Builds a record from its fields.
    pub fn new(request_id: Option<Vec<u8>>, signature: Vec<u8>) -> (r: Self)
        ensures
            r@ == (SignatureView {
                request_id: opt_bytes_view(request_id),
                signature: signature@,
            }),
    {
        TronSignature { request_id, signature }
    }

    pub fn get_request_id(&self) -> (r: Option<&Vec<u8>>)
        ensures
            match r {
                Some(v) => self@.request_id == Some(v@),
                None => self@.request_id is None,
            },
    {
        self.request_id.as_ref()
    }

    pub fn get_signature(&self) -> (r: &Vec<u8>)
        ensures
            r@ == self@.signature,
    {
        &self.signature
    }

    /// Encodes the record; nothing about a signature record can fail.
    pub fn to_bytes(&self) -> (r: Result<Vec<u8>, CodecError>)
        ensures
            r matches Ok(b) && b@ == signature_encoding(self@),
    {
        let cnt: u64 = if self.request_id.is_some() {
            2
        } else {
            1
        };
        let mut out: Vec<u8> = Vec::new();
        emit_hdr(&mut out, 5, cnt);
        match &self.request_id {
            Some(id) => {
                emit_hdr(&mut out, 0, 1);
                emit_bytes(&mut out, id.as_slice());
            },
            None => {},
        }
        emit_hdr(&mut out, 0, 2);
        emit_bytes(&mut out, self.signature.as_slice());
        assert(out@ =~= signature_encoding(self@));
        Ok(out)
    }

    /// Decodes a payload into a record; mirrors [`spec_decode_signature`].
    #[verifier::loop_isolation(false)]
    #[verifier::rlimit(60)]
    pub fn try_from(data: Vec<u8>) -> (r: Result<TronSignature, CodecError>)
        ensures
            sig_decode_post(r, data@),
    {
        let s = data.as_slice();
        let ghost total = spec_decode_signature(data@);
        let (major, n, i0) = match parse_hdr(s, 0) {
            None => {
                return Err(CodecError::InvalidCbor);
            },
            Some(x) => x,
        };
        if major != 5 {
            return Err(CodecError::NotAMap);
        }
        let mut st_request_id: Option<Vec<u8>> = None;
        let mut st_signature: Option<Vec<u8>> = None;
        let mut i = i0;
        let mut rem = n;
        while rem > 0
            invariant
                sig_entries(
                    s@,
                    i as int,
                    rem,
                    SigState {
                        request_id: opt_bytes_view(st_request_id),
                        signature: opt_bytes_view(st_signature),
                    },
                ) == total,
            decreases rem,
        {
            let (k, j) = match parse_uint(s, i) {
                None => {
                    return Err(CodecError::InvalidCbor);
                },
                Some(x) => x,
            };
            if k == 1 {
                match parse_bytes(s, j) {
                    Some((b, j2)) => {
                        st_request_id = Some(b);
                        i = j2;
                    },
                    None => match skip_item(s, j) {
                        None => {
                            return Err(CodecError::InvalidCbor);
                        },
                        Some(j2) => {
                            i = j2;
                        },
                    },
                }
            } else if k == 2 {
                match parse_bytes(s, j) {
                    Some((b, j2)) => {
                        st_signature = Some(b);
                        i = j2;
                    },
                    None => match skip_item(s, j) {
                        None => {
                            return Err(CodecError::InvalidCbor);
                        },
                        Some(j2) => {
                            i = j2;
                        },
                    },
                }
            } else {
                match skip_item(s, j) {
                    None => {
                        return Err(CodecError::InvalidCbor);
                    },
                    Some(j2) => {
                        i = j2;
                    },
                }
            }
            rem = rem - 1;
        }
        if i != data.len() {
            return Err(CodecError::InvalidCbor);
        }
        let signature = match st_signature {
            Some(b) => b,
            None => {
                return Err(CodecError::MissingSignature);
            },
        };
        Ok(TronSignature { request_id: st_request_id, signature })
    }
}

/// Decodes a payload into a freshly built record, as the plugin registry's
/// per-type entry point.
pub fn resolve(data: Vec<u8>) -> (r: Result<TronSignature, CodecError>)
    ensures
        sig_decode_post(r, data@),
{
    TronSignature::try_from(data)
}

} // verus!
