//! The sign request codec: the outbound record holding an unsigned payload
//! and its derivation metadata, encoded as a map keyed by the fixed small
//! integers 1 to 6, and decoded leniently as the protocol demands.

use vstd::prelude::*;
use vstd::utf8::encode_utf8;
use vstd::utf8::valid_utf8;

use crate::CodecError;
use crate::cbor::emit_bool;
use crate::cbor::emit_bytes;
use crate::cbor::emit_hdr;
use crate::cbor::emit_text;
use crate::cbor::enc_bool;
use crate::cbor::enc_bytes;
use crate::cbor::enc_hdr;
use crate::cbor::enc_text;
use crate::cbor::enc_uint;
use crate::cbor::bytes_as_str;
use crate::cbor::p_bool;
use crate::cbor::p_bytes;
use crate::cbor::p_hdr;
use crate::cbor::p_text;
use crate::cbor::p_uint;
use crate::cbor::parse_bool;
use crate::cbor::parse_bytes;
use crate::cbor::parse_hdr;
use crate::cbor::p_skip;
use crate::cbor::skip_item;
use crate::cbor::parse_text;
use crate::cbor::parse_uint;
use crate::path::default_comps;
use crate::path::default_path_components;
use crate::path::first_bad_component;
use crate::path::parse_derivation_path;
use crate::path::parse_path_text;
use crate::path::path_to_text;
use crate::path::print_path;

verus! {

/// The kind of payload a sign request carries.
#[derive(Clone, Copy, Debug)]
pub enum DataType {
    Transaction,
    Message,
    TypedData,
}

/// The wire tag of each payload kind.
pub open spec fn data_type_tag(d: DataType) -> u32 {
    match d {
        DataType::Transaction => 1,
        DataType::Message => 2,
        DataType::TypedData => 3,
    }
}

impl DataType {
    /// The payload kind named by a tag; tags outside 1 to 3 are rejected.
    pub fn from_u32(value: u32) -> (r: Result<Self, CodecError>)
        ensures
            match r {
                Ok(d) => data_type_tag(d) == value,
                Err(e) => !(1 <= value <= 3) && e == CodecError::InvalidDataType(value as u64),
            },
    {
        match value {
            1 => Ok(DataType::Transaction),
            2 => Ok(DataType::Message),
            3 => Ok(DataType::TypedData),
            _ => Err(CodecError::InvalidDataType(value as u64)),
        }
    }

    /// The tag of this payload kind.
    pub fn to_u32(&self) -> (r: u32)
        ensures
            r == data_type_tag(*self),
    {
        match self {
            DataType::Transaction => 1,
            DataType::Message => 2,
            DataType::TypedData => 3,
        }
    }
}

/// The mathematical value of a sign request.
pub struct SignRequestView {
    pub request_id: Option<Seq<u8>>,
    pub sign_data: Seq<u8>,
    pub data_type: u32,
    pub derivation_path: Seq<char>,
    pub xfp: Option<u32>,
    pub address: Option<Seq<char>>,
    pub origin: Option<Seq<char>>,
}

/// The outbound record: an unsigned payload, its kind, the derivation path in
/// canonical text form, and optional correlation and display metadata.
#[derive(Clone, Debug)]
pub struct TronSignRequest {
    request_id: Option<Vec<u8>>,
    sign_data: Vec<u8>,
    data_type: u32,
    derivation_path: String,
    xfp: Option<u32>,
    address: Option<String>,
    origin: Option<String>,
}

pub open spec fn opt_bytes_view(o: Option<Vec<u8>>) -> Option<Seq<u8>> {
    match o {
        Some(v) => Some(v@),
        None => None,
    }
}

pub open spec fn opt_str_view(o: Option<String>) -> Option<Seq<char>> {
    match o {
        Some(v) => Some(v@),
        None => None,
    }
}

impl View for TronSignRequest {
    type V = SignRequestView;

    closed spec fn view(&self) -> SignRequestView {
        SignRequestView {
            request_id: opt_bytes_view(self.request_id),
            sign_data: self.sign_data@,
            data_type: self.data_type,
            derivation_path: self.derivation_path@,
            xfp: self.xfp,
            address: opt_str_view(self.address),
            origin: opt_str_view(self.origin),
        }
    }
}

impl TronSignRequest {
    /// Builds a record from its fields.
    pub fn new(
        request_id: Option<Vec<u8>>,
        sign_data: Vec<u8>,
        data_type: u32,
        derivation_path: String,
        xfp: Option<u32>,
        address: Option<String>,
        origin: Option<String>,
    ) -> (r: Self)
        ensures
            r@ == (SignRequestView {
                request_id: opt_bytes_view(request_id),
                sign_data: sign_data@,
                data_type: data_type,
                derivation_path: derivation_path@,
                xfp: xfp,
                address: opt_str_view(address),
                origin: opt_str_view(origin),
            }),
    {
        TronSignRequest { request_id, sign_data, data_type, derivation_path, xfp, address, origin }
    }

    pub fn get_request_id(&self) -> (r: Option<&Vec<u8>>)
        ensures
            match r {
                Some(v) => self@.request_id == Some(v@),
                None => self@.request_id is None,
            },
    {
        self.request_id.as_ref()
    }

    pub fn get_sign_data(&self) -> (r: &Vec<u8>)
        ensures
            r@ == self@.sign_data,
    {
        &self.sign_data
    }

    pub fn get_data_type(&self) -> (r: u32)
        ensures
            r == self@.data_type,
    {
        self.data_type
    }

    pub fn get_derivation_path(&self) -> (r: &str)
        ensures
            r@ == self@.derivation_path,
    {
        self.derivation_path.as_str()
    }

    pub fn get_address(&self) -> (r: Option<&String>)
        ensures
            match r {
                Some(v) => self@.address == Some(v@),
                None => self@.address is None,
            },
    {
        self.address.as_ref()
    }

    pub fn get_origin(&self) -> (r: Option<&String>)
        ensures
            match r {
                Some(v) => self@.origin == Some(v@),
                None => self@.origin is None,
            },
    {
        self.origin.as_ref()
    }
}

// ---------- the wire form of a request, as mathematics ----------

/// One encoded path component: a two-element array of index and flag.
pub open spec fn enc_comp(p: (u32, bool)) -> Seq<u8> {
    enc_hdr(4, 2) + enc_uint(p.0 as u64) + enc_bool(p.1)
}

/// The encoded components, in order.
pub open spec fn enc_comps(ps: Seq<(u32, bool)>) -> Seq<u8>
    decreases ps.len(),
{
    if ps.len() == 0 {
        Seq::empty()
    } else {
        enc_comp(ps[0]) + enc_comps(ps.drop_first())
    }
}

/// The structured wire form of a path: a map holding the component list under
/// key 1 and, when present, the source fingerprint under key 2.
pub open spec fn enc_path(ps: Seq<(u32, bool)>, xfp: Option<u32>) -> Seq<u8> {
    enc_hdr(
        5,
        if xfp is Some {
            2
        } else {
            1
        },
    ) + enc_uint(1) + enc_hdr(4, ps.len() as u64) + enc_comps(ps) + (match xfp {
        Some(f) => enc_uint(2) + enc_uint(f as u64),
        None => Seq::empty(),
    })
}

/// A generalized payload: any subset of the request's keys, each with a
/// value of its schema type. Encoding one yields every well-formed wire map,
/// so decoding is specified against it.
pub struct GenRequest {
    pub request_id: Option<Seq<u8>>,
    pub sign_data: Option<Seq<u8>>,
    pub data_type: Option<u64>,
    pub path: Option<(Seq<(u32, bool)>, Option<u32>)>,
    pub address: Option<Seq<u8>>,
    pub origin: Option<Seq<u8>>,
}

pub open spec fn gen_count(g: GenRequest) -> int {
    (if g.request_id is Some {
        1int
    } else {
        0int
    }) + (if g.sign_data is Some {
        1int
    } else {
        0int
    }) + (if g.data_type is Some {
        1int
    } else {
        0int
    }) + (if g.path is Some {
        1int
    } else {
        0int
    }) + (if g.address is Some {
        1int
    } else {
        0int
    }) + (if g.origin is Some {
        1int
    } else {
        0int
    })
}

/// The encoding of a generalized payload: a map header, then each present
/// key in ascending order with its encoded value.
pub open spec fn gen_encoding(g: GenRequest) -> Seq<u8> {
    enc_hdr(5, gen_count(g) as u64) + (match g.request_id {
        Some(b) => enc_uint(1) + enc_bytes(b),
        None => Seq::empty(),
    }) + (match g.sign_data {
        Some(b) => enc_uint(2) + enc_bytes(b),
        None => Seq::empty(),
    }) + (match g.data_type {
        Some(d) => enc_uint(3) + enc_uint(d),
        None => Seq::empty(),
    }) + (match g.path {
        Some((ps, f)) => enc_uint(4) + enc_path(ps, f),
        None => Seq::empty(),
    }) + (match g.address {
        Some(t) => enc_uint(5) + enc_text(t),
        None => Seq::empty(),
    }) + (match g.origin {
        Some(t) => enc_uint(6) + enc_text(t),
        None => Seq::empty(),
    })
}

/// The generalized payload that encoding a request produces: the mandatory
/// keys always present, the optional ones as the record has them.
pub open spec fn request_gen(v: SignRequestView, ps: Seq<(u32, bool)>) -> GenRequest {
    GenRequest {
        request_id: v.request_id,
        sign_data: Some(v.sign_data),
        data_type: Some(v.data_type as u64),
        path: Some((ps, v.xfp)),
        address: match v.address {
            Some(t) => Some(encode_utf8(t)),
            None => None,
        },
        origin: match v.origin {
            Some(t) => Some(encode_utf8(t)),
            None => None,
        },
    }
}

/// The bytes that encoding a request produces, given its parsed path.
pub open spec fn request_encoding(v: SignRequestView, ps: Seq<(u32, bool)>) -> Seq<u8> {
    gen_encoding(request_gen(v, ps))
}

// ---------- decoding, as mathematics ----------

/// What decoding a request payload yields before defaults are written back
/// to their record form.
pub struct RawRequest {
    pub request_id: Option<Seq<u8>>,
    pub sign_data: Seq<u8>,
    pub data_type: u32,
    pub comps: Seq<(u32, bool)>,
    pub address: Option<Seq<u8>>,
    pub origin: Option<Seq<u8>>,
}

/// The fields seen so far while walking the map's entries.
pub struct DecState {
    pub request_id: Option<Seq<u8>>,
    pub sign_data: Option<Seq<u8>>,
    pub data_type: Option<u64>,
    pub path: Option<Seq<(u32, bool)>>,
    pub address: Option<Seq<u8>>,
    pub origin: Option<Seq<u8>>,
}

pub open spec fn empty_state() -> DecState {
    DecState {
        request_id: None,
        sign_data: None,
        data_type: None,
        path: None,
        address: None,
        origin: None,
    }
}

/// Reads `c` path components, accumulating onto `acc`.
pub open spec fn p_comps(s: Seq<u8>, i: int, c: u64, acc: Seq<(u32, bool)>) -> Option<
    (Seq<(u32, bool)>, int),
>
    decreases c,
{
    if c == 0 {
        Some((acc, i))
    } else {
        match p_hdr(s, i) {
            None => None,
            Some((m0, a0, j0)) => if m0 == 4 && a0 == 2 {
                match p_uint(s, j0) {
                    None => None,
                    Some((idx, j1)) => if idx <= 0xFFFFFFFF {
                        match p_bool(s, j1) {
                            None => None,
                            Some((h, j2)) => p_comps(
                                s,
                                j2,
                                (c - 1) as u64,
                                acc.push((idx as u32, h)),
                            ),
                        }
                    } else {
                        None
                    },
                }
            } else {
                None
            },
        }
    }
}

/// Reads the structured wire form of a path.
pub open spec fn p_path(s: Seq<u8>, i: int) -> Option<((Seq<(u32, bool)>, Option<u32>), int)> {
    match p_hdr(s, i) {
        None => None,
        Some((m, cnt, j)) => if m == 5 && (cnt == 1 || cnt == 2) {
            match p_uint(s, j) {
                None => None,
                Some((k1, j1)) => if k1 == 1 {
                    match p_hdr(s, j1) {
                        None => None,
                        Some((ma, c, j2)) => if ma == 4 {
                            match p_comps(s, j2, c, Seq::empty()) {
                                None => None,
                                Some((ps, j3)) => if cnt == 2 {
                                    match p_uint(s, j3) {
                                        None => None,
                                        Some((k2, j4)) => if k2 == 2 {
                                            match p_uint(s, j4) {
                                                None => None,
                                                Some((f, j5)) => if f <= 0xFFFFFFFF {
                                                    Some(((ps, Some(f as u32)), j5))
                                                } else {
                                                    None
                                                },
                                            }
                                        } else {
                                            None
                                        },
                                    }
                                } else {
                                    Some(((ps, None), j3))
                                },
                            }
                        } else {
                            None
                        },
                    }
                } else {
                    None
                },
            }
        } else {
            None
        },
    }
}

/// Writes the decoded fields back to a record's worth of values. The payload
/// bytes are mandatory; a missing kind defaults to the transaction tag; a
/// missing or unusable path falls back to the standard path; a fingerprint
/// read from the wire is discarded.
pub open spec fn finalize(st: DecState, end: bool) -> Result<RawRequest, CodecError> {
    if !end {
        Err(CodecError::InvalidCbor)
    } else {
        match st.sign_data {
            None => Err(CodecError::MissingSignData),
            Some(sd) => {
                let d = match st.data_type {
                    Some(d) => d,
                    None => 1,
                };
                if !(1 <= d <= 3) {
                    Err(CodecError::InvalidDataType(d))
                } else {
                    Ok(
                        RawRequest {
                            request_id: st.request_id,
                            sign_data: sd,
                            data_type: d as u32,
                            comps: match st.path {
                                Some(ps) => ps,
                                None => default_comps(),
                            },
                            address: st.address,
                            origin: st.origin,
                        },
                    )
                }
            },
        }
    }
}

/// Reads one map entry at `i`: the key, then a value of that key's schema
/// type, yielding the position after it and the state with that field set.
/// A value that is not its key's expected shape is skipped and the field
/// stays absent, so each field's own policy applies at the end; an entry
/// under an unknown key is skipped likewise. Only a genuinely unreadable
/// item fails the decode.
pub open spec fn sd_step(s: Seq<u8>, i: int, st: DecState) -> Result<(int, DecState), CodecError> {
    match p_uint(s, i) {
        None => Err(CodecError::InvalidCbor),
        Some((k, j)) => if k == 1 {
            match p_bytes(s, j) {
                Some((b, j2)) => Ok((j2, DecState { request_id: Some(b), ..st })),
                None => match p_skip(s, j) {
                    Some(j2) => Ok((j2, st)),
                    None => Err(CodecError::InvalidCbor),
                },
            }
        } else if k == 2 {
            match p_bytes(s, j) {
                Some((b, j2)) => Ok((j2, DecState { sign_data: Some(b), ..st })),
                None => match p_skip(s, j) {
                    Some(j2) => Ok((j2, st)),
                    None => Err(CodecError::InvalidCbor),
                },
            }
        } else if k == 3 {
            match p_uint(s, j) {
                Some((d, j2)) => Ok((j2, DecState { data_type: Some(d), ..st })),
                None => match p_skip(s, j) {
                    Some(j2) => Ok((j2, st)),
                    None => Err(CodecError::InvalidCbor),
                },
            }
        } else if k == 4 {
            match p_path(s, j) {
                Some(((ps, _f), j2)) => Ok((j2, DecState { path: Some(ps), ..st })),
                None => match p_skip(s, j) {
                    Some(j2) => Ok((j2, st)),
                    None => Err(CodecError::InvalidCbor),
                },
            }
        } else if k == 5 {
            match p_text(s, j) {
                Some((t, j2)) => Ok((j2, DecState { address: Some(t), ..st })),
                None => match p_skip(s, j) {
                    Some(j2) => Ok((j2, st)),
                    None => Err(CodecError::InvalidCbor),
                },
            }
        } else if k == 6 {
            match p_text(s, j) {
                Some((t, j2)) => Ok((j2, DecState { origin: Some(t), ..st })),
                None => match p_skip(s, j) {
                    Some(j2) => Ok((j2, st)),
                    None => Err(CodecError::InvalidCbor),
                },
            }
        } else {
            match p_skip(s, j) {
                Some(j2) => Ok((j2, st)),
                None => Err(CodecError::InvalidCbor),
            }
        },
    }
}

/// Walks `n` map entries from `i`, then finalizes.
pub open spec fn sd_entries(s: Seq<u8>, i: int, n: u64, st: DecState) -> Result<
    RawRequest,
    CodecError,
>
    decreases n,
{
    if n == 0 {
        finalize(st, i == s.len())
    } else {
        match sd_step(s, i, st) {
            Err(e) => Err(e),
            Ok((j, st2)) => sd_entries(s, j, (n - 1) as u64, st2),
        }
    }
}

/// What decoding a payload yields: exactly one raw request or one error.
pub open spec fn spec_decode_request(s: Seq<u8>) -> Result<RawRequest, CodecError> {
    match p_hdr(s, 0) {
        None => Err(CodecError::InvalidCbor),
        Some((m, n, i)) => if m == 5 {
            sd_entries(s, i, n, empty_state())
        } else {
            Err(CodecError::NotAMap)
        },
    }
}

/// How a decoded record relates to the raw decoding: equal plain fields, the
/// path written back to text, the fingerprint absent, and the optional texts
/// related by UTF-8.
pub open spec fn text_opt_matches(a: Option<Seq<char>>, b: Option<Seq<u8>>) -> bool {
    match (a, b) {
        (Some(t), Some(bb)) => encode_utf8(t) == bb,
        (None, None) => true,
        _ => false,
    }
}

pub open spec fn decode_post(r: Result<TronSignRequest, CodecError>, s: Seq<u8>) -> bool {
    match (r, spec_decode_request(s)) {
        (Ok(req), Ok(d)) => {
            &&& req@.request_id == d.request_id
            &&& req@.sign_data == d.sign_data
            &&& req@.data_type == d.data_type
            &&& req@.derivation_path == path_to_text(d.comps)
            &&& req@.xfp is None
            &&& text_opt_matches(req@.address, d.address)
            &&& text_opt_matches(req@.origin, d.origin)
        },
        (Err(e1), Err(e2)) => e1 == e2,
        _ => false,
    }
}

// ---------- the executable codec ----------

/// Appends the structured wire form of a path to `out`.
#[verifier::loop_isolation(false)]
pub fn emit_path(out: &mut Vec<u8>, ps: &Vec<(u32, bool)>, xfp: Option<u32>)
    ensures
        final(out)@ == old(out)@ + enc_path(ps@, xfp),
{
    emit_hdr(
        out,
        5,
        if xfp.is_some() {
            2
        } else {
            1
        },
    );
    emit_hdr(out, 0, 1);
    emit_hdr(out, 4, ps.len() as u64);
    let ghost pre = out@;
    let mut idx: usize = 0;
    while idx < ps.len()
        invariant
            idx <= ps@.len(),
            out@ == pre + enc_comps(ps@.subrange(0, idx as int)),
        decreases ps@.len() - idx,
    {
        let (num, hardened) = ps[idx];
        emit_hdr(out, 4, 2);
        emit_hdr(out, 0, num as u64);
        emit_bool(out, hardened);
        idx = idx + 1;
        proof {
            lemma_enc_comps_snoc(ps@.subrange(0, idx as int));
            assert(ps@.subrange(0, idx as int).drop_last() =~= ps@.subrange(0, idx as int - 1));
            assert(out@ =~= pre + enc_comps(ps@.subrange(0, idx as int)));
        }
    }
    proof {
        assert(ps@.subrange(0, ps@.len() as int) =~= ps@);
    }
    match xfp {
        Some(f) => {
            emit_hdr(out, 0, 2);
            emit_hdr(out, 0, f as u64);
        },
        None => {},
    }
    assert(out@ =~= old(out)@ + enc_path(ps@, xfp));
}

proof fn lemma_enc_comps_snoc(ps: Seq<(u32, bool)>)
    requires
        ps.len() > 0,
    ensures
        enc_comps(ps) == enc_comps(ps.drop_last()) + enc_comp(ps.last()),
    decreases ps.len(),
{
    if ps.len() == 1 {
        assert(ps.drop_first() =~= Seq::<(u32, bool)>::empty());
        assert(ps.drop_last() =~= Seq::<(u32, bool)>::empty());
        assert(enc_comp(ps[0]) + Seq::<u8>::empty() =~= enc_comp(ps[0]));
        assert(Seq::<u8>::empty() + enc_comp(ps[0]) =~= enc_comp(ps[0]));
    } else {
        lemma_enc_comps_snoc(ps.drop_first());
        assert(ps.drop_first().drop_last() =~= ps.drop_last().drop_first());
        assert(ps.drop_first().last() == ps.last());
        assert(ps.drop_last()[0] == ps[0]);
        assert((enc_comp(ps[0]) + enc_comps(ps.drop_last().drop_first())) + enc_comp(ps.last())
            =~= enc_comp(ps[0]) + (enc_comps(ps.drop_last().drop_first()) + enc_comp(ps.last())));
    }
}

/// The decoder's partial record: each field as read so far. Texts are kept
/// as their wire bytes until the record is built.
struct Partial {
    request_id: Option<Vec<u8>>,
    sign_data: Option<Vec<u8>>,
    data_type: Option<u64>,
    path: Option<Vec<(u32, bool)>>,
    address: Option<Vec<u8>>,
    origin: Option<Vec<u8>>,
}

impl View for Partial {
    type V = DecState;

    closed spec fn view(&self) -> DecState {
        DecState {
            request_id: opt_bytes_view(self.request_id),
            sign_data: opt_bytes_view(self.sign_data),
            data_type: self.data_type,
            path: match self.path {
                Some(v) => Some(v@),
                None => None,
            },
            address: opt_bytes_view(self.address),
            origin: opt_bytes_view(self.origin),
        }
    }
}

/// Reads one map entry into the partial record; mirrors [`sd_step`].
fn decode_entry(s: &[u8], i: usize, st: &mut Partial) -> (r: Result<usize, CodecError>)
    ensures
        match r {
            Ok(j) => sd_step(s@, i as int, old(st)@) == Ok::<(int, DecState), CodecError>(
                (j as int, final(st)@),
            ),
            Err(e) => sd_step(s@, i as int, old(st)@) == Err::<(int, DecState), CodecError>(e),
        },
        (old(st)@.address matches Some(b) ==> valid_utf8(b)) ==> (final(st)@.address matches Some(
            b,
        ) ==> valid_utf8(b)),
        (old(st)@.origin matches Some(b) ==> valid_utf8(b)) ==> (final(st)@.origin matches Some(
            b,
        ) ==> valid_utf8(b)),
{
    let (k, j) = match parse_uint(s, i) {
        None => {
            return Err(CodecError::InvalidCbor);
        },
        Some(x) => x,
    };
    if k == 1 {
        match parse_bytes(s, j) {
            Some((b, j2)) => {
                st.request_id = Some(b);
                Ok(j2)
            },
            None => match skip_item(s, j) {
                Some(j2) => Ok(j2),
                None => Err(CodecError::InvalidCbor),
            },
        }
    } else if k == 2 {
        match parse_bytes(s, j) {
            Some((b, j2)) => {
                st.sign_data = Some(b);
                Ok(j2)
            },
            None => match skip_item(s, j) {
                Some(j2) => Ok(j2),
                None => Err(CodecError::InvalidCbor),
            },
        }
    } else if k == 3 {
        match parse_uint(s, j) {
            Some((d, j2)) => {
                st.data_type = Some(d);
                Ok(j2)
            },
            None => match skip_item(s, j) {
                Some(j2) => Ok(j2),
                None => Err(CodecError::InvalidCbor),
            },
        }
    } else if k == 4 {
        match parse_path(s, j) {
            Some((ps, j2)) => {
                st.path = Some(ps);
                Ok(j2)
            },
            None => match skip_item(s, j) {
                Some(j2) => Ok(j2),
                None => Err(CodecError::InvalidCbor),
            },
        }
    } else if k == 5 {
        match parse_text(s, j) {
            Some((t, j2)) => {
                st.address = Some(t);
                Ok(j2)
            },
            None => match skip_item(s, j) {
                Some(j2) => Ok(j2),
                None => Err(CodecError::InvalidCbor),
            },
        }
    } else if k == 6 {
        match parse_text(s, j) {
            Some((t, j2)) => {
                st.origin = Some(t);
                Ok(j2)
            },
            None => match skip_item(s, j) {
                Some(j2) => Ok(j2),
                None => Err(CodecError::InvalidCbor),
            },
        }
    } else {
        match skip_item(s, j) {
            Some(j2) => Ok(j2),
            None => Err(CodecError::InvalidCbor),
        }
    }
}

impl TronSignRequest {
    /// Encodes the record. The only failure is a malformed derivation path,
    /// reported with the offending component's text.
    #[verifier::rlimit(60)]
    pub fn to_bytes(&self) -> (r: Result<Vec<u8>, CodecError>)
        ensures
            match parse_path_text(self@.derivation_path) {
                Some(ps) => r matches Ok(b) && b@ == request_encoding(self@, ps),
                None => r matches Err(e) && e matches CodecError::PathSyntax(c) && c@
                    == first_bad_component(self@.derivation_path),
            },
    {
        let comps = match parse_derivation_path(self.derivation_path.as_str()) {
            Ok(c) => c,
            Err(e) => {
                return Err(e);
            },
        };
        let mut cnt: u64 = 3;
        if self.request_id.is_some() {
            cnt = cnt + 1;
        }
        if self.address.is_some() {
            cnt = cnt + 1;
        }
        if self.origin.is_some() {
            cnt = cnt + 1;
        }
        let ghost g = request_gen(self@, comps@);
        assert(cnt as int == gen_count(g));
        let mut out: Vec<u8> = Vec::new();
        emit_hdr(&mut out, 5, cnt);
        match &self.request_id {
            Some(id) => {
                emit_hdr(&mut out, 0, 1);
                emit_bytes(&mut out, id.as_slice());
            },
            None => {},
        }
        emit_hdr(&mut out, 0, 2);
        emit_bytes(&mut out, self.sign_data.as_slice());
        emit_hdr(&mut out, 0, 3);
        emit_hdr(&mut out, 0, self.data_type as u64);
        emit_hdr(&mut out, 0, 4);
        emit_path(&mut out, &comps, self.xfp);
        match &self.address {
            Some(a) => {
                emit_hdr(&mut out, 0, 5);
                emit_text(&mut out, a.as_str().as_bytes());
            },
            None => {},
        }
        match &self.origin {
            Some(o) => {
                emit_hdr(&mut out, 0, 6);
                emit_text(&mut out, o.as_str().as_bytes());
            },
            None => {},
        }
        assert(out@ =~= request_encoding(self@, comps@));
        Ok(out)
    }

    /// Decodes a payload into a record; mirrors [`spec_decode_request`].
    #[verifier::loop_isolation(false)]
    #[verifier::rlimit(60)]
    pub fn try_from(data: Vec<u8>) -> (r: Result<TronSignRequest, CodecError>)
        ensures
            decode_post(r, data@),
    {
        let s = data.as_slice();
        let ghost total = spec_decode_request(data@);
        let (major, n, i0) = match parse_hdr(s, 0) {
            None => {
                return Err(CodecError::InvalidCbor);
            },
            Some(x) => x,
        };
        if major != 5 {
            return Err(CodecError::NotAMap);
        }
        let mut st = Partial {
            request_id: None,
            sign_data: None,
            data_type: None,
            path: None,
            address: None,
            origin: None,
        };
        proof {
            assert(st@ == empty_state());
        }
        let mut i = i0;
        let mut rem = n;
        while rem > 0
            invariant
                sd_entries(s@, i as int, rem, st@) == total,
                st@.address matches Some(b) ==> valid_utf8(b),
                st@.origin matches Some(b) ==> valid_utf8(b),
            decreases rem,
        {
            match decode_entry(s, i, &mut st) {
                Err(e) => {
                    return Err(e);
                },
                Ok(j) => {
                    i = j;
                },
            }
            rem = rem - 1;
        }
        if i != data.len() {
            return Err(CodecError::InvalidCbor);
        }
        let ghost stv = st@;
        let Partial {
            request_id: st_request_id,
            sign_data: st_sign_data,
            data_type: st_data_type,
            path: st_path,
            address: st_address,
            origin: st_origin,
        } = st;
        let sign_data = match st_sign_data {
            Some(b) => b,
            None => {
                return Err(CodecError::MissingSignData);
            },
        };
        let dt: u64 = match st_data_type {
            Some(d) => d,
            None => 1,
        };
        if dt < 1 || dt > 3 {
            return Err(CodecError::InvalidDataType(dt));
        }
        let comps: Vec<(u32, bool)> = match st_path {
            Some(ps) => ps,
            None => default_path_components(),
        };
        let derivation_path = print_path(&comps);
        let address: Option<String> = match &st_address {
            Some(b) => match bytes_as_str(b.as_slice()) {
                Some(t) => Some(t.to_owned()),
                None => {
                    assert(false);
                    return Err(CodecError::InvalidCbor);
                },
            },
            None => None,
        };
        let origin: Option<String> = match &st_origin {
            Some(b) => match bytes_as_str(b.as_slice()) {
                Some(t) => Some(t.to_owned()),
                None => {
                    assert(false);
                    return Err(CodecError::InvalidCbor);
                },
            },
            None => None,
        };
        Ok(
            TronSignRequest {
                request_id: st_request_id,
                sign_data,
                data_type: dt as u32,
                derivation_path,
                xfp: None,
                address,
                origin,
            },
        )
    }

}

/// Reads the structured wire form of a path; mirrors [`p_path`]. The
/// fingerprint is read and discarded, as decoding demands.
#[verifier::loop_isolation(false)]
pub fn parse_path(s: &[u8], i: usize) -> (r: Option<(Vec<(u32, bool)>, usize)>)
    ensures
        match (r, p_path(s@, i as int)) {
            (Some((ps, j)), Some(((sp, _f), sj))) => ps@ == sp && j as int == sj,
            (None, None) => true,
            _ => false,
        },
{
    let (m, cnt, j) = match parse_hdr(s, i) {
        None => {
            return None;
        },
        Some(x) => x,
    };
    if m != 5 || (cnt != 1 && cnt != 2) {
        return None;
    }
    let (k1, j1) = match parse_uint(s, j) {
        None => {
            return None;
        },
        Some(x) => x,
    };
    if k1 != 1 {
        return None;
    }
    let (ma, c, j2) = match parse_hdr(s, j1) {
        None => {
            return None;
        },
        Some(x) => x,
    };
    if ma != 4 {
        return None;
    }
    let mut ps: Vec<(u32, bool)> = Vec::new();
    let mut pos = j2;
    let mut remc = c;
    while remc > 0
        invariant
            pos <= s@.len(),
            p_comps(s@, pos as int, remc, ps@) == p_comps(s@, j2 as int, c, Seq::empty()),
        decreases remc,
    {
        let (m0, a0, q0) = match parse_hdr(s, pos) {
            None => {
                return None;
            },
            Some(x) => x,
        };
        if m0 != 4 || a0 != 2 {
            return None;
        }
        let (idx, q1) = match parse_uint(s, q0) {
            None => {
                return None;
            },
            Some(x) => x,
        };
        if idx > 0xFFFFFFFF {
            return None;
        }
        let (h, q2) = match parse_bool(s, q1) {
            None => {
                return None;
            },
            Some(x) => x,
        };
        ps.push((idx as u32, h));
        pos = q2;
        remc = remc - 1;
        proof {
            crate::cbor::lemma_p_hdr_props(s@, q1 as int);
        }
    }
    let (comps, j3) = (ps, pos);
    let final_pos: usize;
    if cnt == 2 {
        let (k2, j4) = match parse_uint(s, j3) {
            None => {
                return None;
            },
            Some(x) => x,
        };
        if k2 != 2 {
            return None;
        }
        let (f, j5) = match parse_uint(s, j4) {
            None => {
                return None;
            },
            Some(x) => x,
        };
        if f > 0xFFFFFFFF {
            return None;
        }
        final_pos = j5;
    } else {
        final_pos = j3;
    }
    Some((comps, final_pos))
}

/// Decodes a payload into a freshly built record, as the plugin registry's
/// per-type entry point.
pub fn resolve(data: Vec<u8>) -> (r: Result<TronSignRequest, CodecError>)
    ensures
        decode_post(r, data@),
{
    TronSignRequest::try_from(data)
}

} // verus!
