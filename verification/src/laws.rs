//! The codec's laws: decoding an encoded payload yields exactly the fields
//! that were written, with the documented defaults for the keys that were
//! not. Every law is stated against the generalized payloads that the codecs'
//! own contracts use, so it speaks about every well-formed wire map at once.

use vstd::prelude::*;
use vstd::utf8::encode_utf8;
use vstd::utf8::valid_utf8;

use crate::CodecError;
use crate::cbor::enc_bool;
use crate::cbor::enc_bytes;
use crate::cbor::enc_hdr;
use crate::cbor::enc_text;
use crate::cbor::enc_uint;
use crate::cbor::frag_at;
use crate::cbor::lemma_frag_at_split;
use crate::cbor::lemma_p_bool_inv;
use crate::cbor::lemma_p_bytes_inv;
use crate::cbor::lemma_p_hdr_inv;
use crate::cbor::lemma_p_text_inv;
use crate::cbor::lemma_p_uint_inv;
use crate::path::default_comps;
use crate::path::lemma_parse_path_nonempty;
use crate::path::lemma_print_parse_inverse;
use crate::path::parse_path_text;
use crate::path::path_to_text;
use crate::sign_request::DecState;
use crate::sign_request::GenRequest;
use crate::sign_request::RawRequest;
use crate::sign_request::SignRequestView;
use crate::sign_request::empty_state;
use crate::sign_request::enc_comp;
use crate::sign_request::enc_comps;
use crate::sign_request::enc_path;
use crate::sign_request::finalize;
use crate::sign_request::gen_count;
use crate::sign_request::gen_encoding;
use crate::sign_request::p_comps;
use crate::sign_request::p_path;
use crate::sign_request::request_encoding;
use crate::sign_request::request_gen;
use crate::sign_request::sd_entries;
use crate::sign_request::spec_decode_request;
use crate::signature::GenSignature;
use crate::signature::RawSignature;
use crate::signature::SigState;
use crate::signature::SignatureView;
use crate::signature::gen_sig_count;
use crate::signature::gen_sig_encoding;
use crate::signature::sig_empty_state;
use crate::signature::sig_entries;
use crate::signature::sig_finalize;
use crate::signature::signature_encoding;
use crate::signature::spec_decode_signature;

verus! {

/// The machine limits under which a generalized payload can be encoded at
/// all: every length fits the wire's length field, and texts are UTF-8.
pub open spec fn wf_gen(g: GenRequest) -> bool {
    &&& (match g.request_id {
        Some(b) => b.len() < 0x10000000000000000,
        None => true,
    })
    &&& (match g.sign_data {
        Some(b) => b.len() < 0x10000000000000000,
        None => true,
    })
    &&& (match g.path {
        Some((ps, _f)) => ps.len() < 0x10000000000000000,
        None => true,
    })
    &&& (match g.address {
        Some(t) => t.len() < 0x10000000000000000 && valid_utf8(t),
        None => true,
    })
    &&& (match g.origin {
        Some(t) => t.len() < 0x10000000000000000 && valid_utf8(t),
        None => true,
    })
}

/// What decoding an encoded generalized payload must yield: the mandatory
/// payload bytes or a missing-field error, the kind tag checked with its
/// default, the path with its fallback, and the fingerprint discarded.
pub open spec fn gen_expected(g: GenRequest) -> Result<RawRequest, CodecError> {
    match g.sign_data {
        None => Err(CodecError::MissingSignData),
        Some(sd) => {
            let d = match g.data_type {
                Some(d) => d,
                None => 1,
            };
            if !(1 <= d <= 3) {
                Err(CodecError::InvalidDataType(d))
            } else {
                Ok(
                    RawRequest {
                        request_id: g.request_id,
                        sign_data: sd,
                        data_type: d as u32,
                        comps: match g.path {
                            Some((ps, _f)) => ps,
                            None => default_comps(),
                        },
                        address: g.address,
                        origin: g.origin,
                    },
                )
            }
        },
    }
}

// ---------- the encoded entries, segment by segment ----------

pub open spec fn opt1(g: GenRequest) -> Seq<u8> {
    match g.request_id {
        Some(b) => enc_uint(1) + enc_bytes(b),
        None => Seq::empty(),
    }
}

pub open spec fn opt2(g: GenRequest) -> Seq<u8> {
    match g.sign_data {
        Some(b) => enc_uint(2) + enc_bytes(b),
        None => Seq::empty(),
    }
}

pub open spec fn opt3(g: GenRequest) -> Seq<u8> {
    match g.data_type {
        Some(d) => enc_uint(3) + enc_uint(d),
        None => Seq::empty(),
    }
}

pub open spec fn opt4(g: GenRequest) -> Seq<u8> {
    match g.path {
        Some((ps, f)) => enc_uint(4) + enc_path(ps, f),
        None => Seq::empty(),
    }
}

pub open spec fn opt5(g: GenRequest) -> Seq<u8> {
    match g.address {
        Some(t) => enc_uint(5) + enc_text(t),
        None => Seq::empty(),
    }
}

pub open spec fn opt6(g: GenRequest) -> Seq<u8> {
    match g.origin {
        Some(t) => enc_uint(6) + enc_text(t),
        None => Seq::empty(),
    }
}

pub open spec fn tail6(g: GenRequest) -> Seq<u8> {
    opt6(g)
}

pub open spec fn tail5(g: GenRequest) -> Seq<u8> {
    opt5(g) + tail6(g)
}

pub open spec fn tail4(g: GenRequest) -> Seq<u8> {
    opt4(g) + tail5(g)
}

pub open spec fn tail3(g: GenRequest) -> Seq<u8> {
    opt3(g) + tail4(g)
}

pub open spec fn tail2(g: GenRequest) -> Seq<u8> {
    opt2(g) + tail3(g)
}

pub open spec fn tail1(g: GenRequest) -> Seq<u8> {
    opt1(g) + tail2(g)
}

pub open spec fn pr(o: bool) -> int {
    if o {
        1int
    } else {
        0int
    }
}

pub open spec fn cnt6(g: GenRequest) -> int {
    pr(g.origin is Some)
}

pub open spec fn cnt5(g: GenRequest) -> int {
    pr(g.address is Some) + cnt6(g)
}

pub open spec fn cnt4(g: GenRequest) -> int {
    pr(g.path is Some) + cnt5(g)
}

pub open spec fn cnt3(g: GenRequest) -> int {
    pr(g.data_type is Some) + cnt4(g)
}

pub open spec fn cnt2(g: GenRequest) -> int {
    pr(g.sign_data is Some) + cnt3(g)
}

pub open spec fn cnt1(g: GenRequest) -> int {
    pr(g.request_id is Some) + cnt2(g)
}

pub open spec fn upd6(st: DecState, g: GenRequest) -> DecState {
    match g.origin {
        Some(t) => DecState { origin: Some(t), ..st },
        None => st,
    }
}

pub open spec fn upd5(st: DecState, g: GenRequest) -> DecState {
    upd6(
        match g.address {
            Some(t) => DecState { address: Some(t), ..st },
            None => st,
        },
        g,
    )
}

pub open spec fn upd4(st: DecState, g: GenRequest) -> DecState {
    upd5(
        match g.path {
            Some((ps, _f)) => DecState { path: Some(ps), ..st },
            None => st,
        },
        g,
    )
}

pub open spec fn upd3(st: DecState, g: GenRequest) -> DecState {
    upd4(
        match g.data_type {
            Some(d) => DecState { data_type: Some(d), ..st },
            None => st,
        },
        g,
    )
}

pub open spec fn upd2(st: DecState, g: GenRequest) -> DecState {
    upd3(
        match g.sign_data {
            Some(b) => DecState { sign_data: Some(b), ..st },
            None => st,
        },
        g,
    )
}

pub open spec fn upd1(st: DecState, g: GenRequest) -> DecState {
    upd2(
        match g.request_id {
            Some(b) => DecState { request_id: Some(b), ..st },
            None => st,
        },
        g,
    )
}

// ---------- reading an encoded path gives back its components ----------

/// Reading at encoded components yields exactly those components.
pub proof fn lemma_p_comps_inv(s: Seq<u8>, i: int, ps: Seq<(u32, bool)>, acc: Seq<(u32, bool)>)
    requires
        frag_at(s, i, enc_comps(ps)),
        ps.len() < 0x10000000000000000,
    ensures
        p_comps(s, i, ps.len() as u64, acc) == Some::<(Seq<(u32, bool)>, int)>(
            (acc + ps, i + enc_comps(ps).len()),
        ),
    decreases ps.len(),
{
    if ps.len() == 0 {
        assert(acc + ps =~= acc);
    } else {
        let p = ps[0];
        let rest = ps.drop_first();
        assert(enc_comps(ps) == enc_comp(p) + enc_comps(rest));
        lemma_frag_at_split(s, i, enc_comp(p), enc_comps(rest));
        assert(enc_comp(p) == (enc_hdr(4, 2) + enc_uint(p.0 as u64)) + enc_bool(p.1));
        lemma_frag_at_split(s, i, enc_hdr(4, 2) + enc_uint(p.0 as u64), enc_bool(p.1));
        lemma_frag_at_split(s, i, enc_hdr(4, 2), enc_uint(p.0 as u64));
        lemma_p_hdr_inv(s, i, 4, 2);
        let i1 = i + enc_hdr(4, 2).len();
        lemma_p_uint_inv(s, i1, p.0 as u64);
        let i2 = i1 + enc_uint(p.0 as u64).len();
        lemma_p_bool_inv(s, i2, p.1);
        let i3 = i2 + 1;
        lemma_p_comps_inv(s, i3, rest, acc.push(p));
        assert(acc.push(p) + rest =~= acc + ps);
    }
}

/// Reading at an encoded path yields exactly its components and fingerprint.
pub proof fn lemma_p_path_inv(s: Seq<u8>, i: int, ps: Seq<(u32, bool)>, xfp: Option<u32>)
    requires
        frag_at(s, i, enc_path(ps, xfp)),
        ps.len() < 0x10000000000000000,
    ensures
        p_path(s, i) == Some::<((Seq<(u32, bool)>, Option<u32>), int)>(
            ((ps, xfp), i + enc_path(ps, xfp).len()),
        ),
{
    let cnt: u64 = if xfp is Some {
        2
    } else {
        1
    };
    let h0 = enc_hdr(5, cnt);
    let k1 = enc_uint(1);
    let ah = enc_hdr(4, ps.len() as u64);
    let cs = enc_comps(ps);
    let fp = (match xfp {
        Some(f) => enc_uint(2) + enc_uint(f as u64),
        None => Seq::<u8>::empty(),
    });
    assert(enc_path(ps, xfp) == (((h0 + k1) + ah) + cs) + fp);
    lemma_frag_at_split(s, i, ((h0 + k1) + ah) + cs, fp);
    lemma_frag_at_split(s, i, (h0 + k1) + ah, cs);
    lemma_frag_at_split(s, i, h0 + k1, ah);
    lemma_frag_at_split(s, i, h0, k1);
    lemma_p_hdr_inv(s, i, 5, cnt);
    let i1 = i + h0.len();
    lemma_p_uint_inv(s, i1, 1);
    let i2 = i1 + k1.len();
    lemma_p_hdr_inv(s, i2, 4, ps.len() as u64);
    let i3 = i2 + ah.len();
    lemma_p_comps_inv(s, i3, ps, Seq::empty());
    assert(Seq::<(u32, bool)>::empty() + ps =~= ps);
    let i4 = i3 + cs.len();
    match xfp {
        Some(f) => {
            lemma_frag_at_split(s, i4, enc_uint(2), enc_uint(f as u64));
            lemma_p_uint_inv(s, i4, 2);
            lemma_p_uint_inv(s, i4 + enc_uint(2).len(), f as u64);
        },
        None => {},
    }
}

// ---------- walking the encoded entries, key by key ----------

proof fn lemma_tail6(s: Seq<u8>, i: int, g: GenRequest, st: DecState)
    requires
        wf_gen(g),
        frag_at(s, i, tail6(g)),
        i + tail6(g).len() == s.len(),
    ensures
        sd_entries(s, i, cnt6(g) as u64, st) == finalize(upd6(st, g), true),
{
    match g.origin {
        Some(t) => {
            lemma_frag_at_split(s, i, enc_uint(6), enc_text(t));
            lemma_p_uint_inv(s, i, 6);
            let i1 = i + enc_uint(6).len();
            lemma_p_text_inv(s, i1, t);
            let i2 = i1 + enc_text(t).len();
            let st2 = DecState { origin: Some(t), ..st };
            assert(crate::cbor::p_uint(s, i) == Some::<(u64, int)>((6, i1)));
            assert(crate::cbor::p_text(s, i1) == Some::<(Seq<u8>, int)>((t, i2)));
            assert(crate::sign_request::sd_step(s, i, st) == Ok::<
                (int, DecState),
                CodecError,
            >((i2, st2)));
            assert(i2 == s.len());
            assert(sd_entries(s, i2, 0u64, st2) == finalize(st2, true));
            assert(cnt6(g) == 1);
            assert(sd_entries(s, i, 1u64, st) == finalize(st2, true));
        },
        None => {},
    }
}

proof fn lemma_tail5(s: Seq<u8>, i: int, g: GenRequest, st: DecState)
    requires
        wf_gen(g),
        frag_at(s, i, tail5(g)),
        i + tail5(g).len() == s.len(),
    ensures
        sd_entries(s, i, cnt5(g) as u64, st) == finalize(upd5(st, g), true),
{
    lemma_frag_at_split(s, i, opt5(g), tail6(g));
    match g.address {
        Some(t) => {
            lemma_frag_at_split(s, i, enc_uint(5), enc_text(t));
            lemma_p_uint_inv(s, i, 5);
            let i1 = i + enc_uint(5).len();
            lemma_p_text_inv(s, i1, t);
            lemma_tail6(s, i + opt5(g).len(), g, DecState { address: Some(t), ..st });
        },
        None => {
            lemma_tail6(s, i + opt5(g).len(), g, st);
        },
    }
}

#[verifier::rlimit(60)]
proof fn lemma_tail4(s: Seq<u8>, i: int, g: GenRequest, st: DecState)
    requires
        wf_gen(g),
        frag_at(s, i, tail4(g)),
        i + tail4(g).len() == s.len(),
    ensures
        sd_entries(s, i, cnt4(g) as u64, st) == finalize(upd4(st, g), true),
{
    lemma_frag_at_split(s, i, opt4(g), tail5(g));
    match g.path {
        Some((ps, f)) => {
            lemma_frag_at_split(s, i, enc_uint(4), enc_path(ps, f));
            lemma_p_uint_inv(s, i, 4);
            let i1 = i + enc_uint(4).len();
            lemma_p_path_inv(s, i1, ps, f);
            lemma_tail5(s, i + opt4(g).len(), g, DecState { path: Some(ps), ..st });
        },
        None => {
            lemma_tail5(s, i + opt4(g).len(), g, st);
        },
    }
}

proof fn lemma_tail3(s: Seq<u8>, i: int, g: GenRequest, st: DecState)
    requires
        wf_gen(g),
        frag_at(s, i, tail3(g)),
        i + tail3(g).len() == s.len(),
    ensures
        sd_entries(s, i, cnt3(g) as u64, st) == finalize(upd3(st, g), true),
{
    lemma_frag_at_split(s, i, opt3(g), tail4(g));
    match g.data_type {
        Some(d) => {
            lemma_frag_at_split(s, i, enc_uint(3), enc_uint(d));
            lemma_p_uint_inv(s, i, 3);
            let i1 = i + enc_uint(3).len();
            lemma_p_uint_inv(s, i1, d);
            lemma_tail4(s, i + opt3(g).len(), g, DecState { data_type: Some(d), ..st });
        },
        None => {
            lemma_tail4(s, i + opt3(g).len(), g, st);
        },
    }
}

proof fn lemma_tail2(s: Seq<u8>, i: int, g: GenRequest, st: DecState)
    requires
        wf_gen(g),
        frag_at(s, i, tail2(g)),
        i + tail2(g).len() == s.len(),
    ensures
        sd_entries(s, i, cnt2(g) as u64, st) == finalize(upd2(st, g), true),
{
    lemma_frag_at_split(s, i, opt2(g), tail3(g));
    match g.sign_data {
        Some(b) => {
            lemma_frag_at_split(s, i, enc_uint(2), enc_bytes(b));
            lemma_p_uint_inv(s, i, 2);
            let i1 = i + enc_uint(2).len();
            lemma_p_bytes_inv(s, i1, b);
            lemma_tail3(s, i + opt2(g).len(), g, DecState { sign_data: Some(b), ..st });
        },
        None => {
            lemma_tail3(s, i + opt2(g).len(), g, st);
        },
    }
}

#[verifier::rlimit(100)]
proof fn lemma_tail1(s: Seq<u8>, i: int, g: GenRequest, st: DecState)
    requires
        wf_gen(g),
        frag_at(s, i, tail1(g)),
        i + tail1(g).len() == s.len(),
    ensures
        sd_entries(s, i, cnt1(g) as u64, st) == finalize(upd1(st, g), true),
{
    lemma_frag_at_split(s, i, opt1(g), tail2(g));
    match g.request_id {
        Some(b) => {
            lemma_frag_at_split(s, i, enc_uint(1), enc_bytes(b));
            lemma_p_uint_inv(s, i, 1);
            let i1 = i + enc_uint(1).len();
            lemma_p_bytes_inv(s, i1, b);
            lemma_tail2(s, i + opt1(g).len(), g, DecState { request_id: Some(b), ..st });
        },
        None => {
            lemma_tail2(s, i + opt1(g).len(), g, st);
        },
    }
}

proof fn lemma_upd1_empty(g: GenRequest)
    ensures
        upd1(empty_state(), g) == (DecState {
            request_id: g.request_id,
            sign_data: g.sign_data,
            data_type: g.data_type,
            path: match g.path {
                Some((ps, _f)) => Some(ps),
                None => None::<Seq<(u32, bool)>>,
            },
            address: g.address,
            origin: g.origin,
        }),
{
}

proof fn lemma_finalize_expected(g: GenRequest)
    ensures
        finalize(upd1(empty_state(), g), true) == gen_expected(g),
{
    lemma_upd1_empty(g);
}

proof fn lemma_gen_encoding_split(g: GenRequest)
    ensures
        gen_encoding(g) == enc_hdr(5, gen_count(g) as u64) + tail1(g),
        gen_count(g) == cnt1(g),
{
    let h = enc_hdr(5, gen_count(g) as u64);
    let a1 = opt1(g);
    let a2 = opt2(g);
    let a3 = opt3(g);
    let a4 = opt4(g);
    let a5 = opt5(g);
    let a6 = opt6(g);
    assert(gen_encoding(g) == h + a1 + a2 + a3 + a4 + a5 + a6);
    vstd::seq_lib::lemma_concat_associative(a5, a6, Seq::<u8>::empty());
    assert(h + a1 + a2 + a3 + a4 + a5 + a6 == ((((h + a1) + a2) + a3) + a4) + (a5 + a6)) by {
        vstd::seq_lib::lemma_concat_associative(((((h + a1) + a2) + a3) + a4) + a5, a6, Seq::<
            u8,
        >::empty());
        vstd::seq_lib::lemma_concat_associative((((h + a1) + a2) + a3) + a4, a5, a6);
    }
    assert(((((h + a1) + a2) + a3) + a4) + (a5 + a6) == (((h + a1) + a2) + a3) + (a4 + (a5
        + a6))) by {
        vstd::seq_lib::lemma_concat_associative((((h + a1) + a2) + a3), a4, a5 + a6);
    }
    assert((((h + a1) + a2) + a3) + (a4 + (a5 + a6)) == ((h + a1) + a2) + (a3 + (a4 + (a5
        + a6)))) by {
        vstd::seq_lib::lemma_concat_associative(((h + a1) + a2), a3, a4 + (a5 + a6));
    }
    assert(((h + a1) + a2) + (a3 + (a4 + (a5 + a6))) == (h + a1) + (a2 + (a3 + (a4 + (a5
        + a6))))) by {
        vstd::seq_lib::lemma_concat_associative((h + a1), a2, a3 + (a4 + (a5 + a6)));
    }
    assert((h + a1) + (a2 + (a3 + (a4 + (a5 + a6)))) == h + (a1 + (a2 + (a3 + (a4 + (a5
        + a6)))))) by {
        vstd::seq_lib::lemma_concat_associative(h, a1, a2 + (a3 + (a4 + (a5 + a6))));
    }
    assert(tail1(g) == a1 + (a2 + (a3 + (a4 + (a5 + a6)))));
}

proof fn lemma_entries_of_gen(g: GenRequest)
    requires
        wf_gen(g),
    ensures
        sd_entries(
            gen_encoding(g),
            enc_hdr(5, gen_count(g) as u64).len() as int,
            cnt1(g) as u64,
            empty_state(),
        ) == gen_expected(g),
{
    let s = gen_encoding(g);
    let hdr = enc_hdr(5, gen_count(g) as u64);
    lemma_gen_encoding_split(g);
    assert(s.subrange(0, s.len() as int) =~= s);
    assert(frag_at(s, 0, hdr + tail1(g)));
    lemma_frag_at_split(s, 0, hdr, tail1(g));
    lemma_tail1(s, hdr.len() as int, g, empty_state());
    lemma_finalize_expected(g);
}

/// Law: decoding the encoding of any generalized payload yields exactly the
/// fields that were written, the documented default for a missing kind or
/// path, a missing-field error for missing payload bytes, and no fingerprint.
#[verifier::rlimit(100)]
pub proof fn lemma_decode_gen_request(g: GenRequest)
    requires
        wf_gen(g),
    ensures
        spec_decode_request(gen_encoding(g)) == gen_expected(g),
{
    let s = gen_encoding(g);
    let hdr = enc_hdr(5, gen_count(g) as u64);
    lemma_gen_encoding_split(g);
    assert(s.subrange(0, s.len() as int) =~= s);
    assert(frag_at(s, 0, hdr + tail1(g)));
    lemma_frag_at_split(s, 0, hdr, tail1(g));
    lemma_p_hdr_inv(s, 0, 5, gen_count(g) as u64);
    lemma_entries_of_gen(g);
}

// ---------- the laws, field by field ----------

/// The machine limits under which a request's view can be encoded at all.
pub open spec fn wf_view(v: SignRequestView) -> bool {
    &&& (match v.request_id {
        Some(b) => b.len() < 0x10000000000000000,
        None => true,
    })
    &&& v.sign_data.len() < 0x10000000000000000
    &&& (match v.address {
        Some(t) => encode_utf8(t).len() < 0x10000000000000000,
        None => true,
    })
    &&& (match v.origin {
        Some(t) => encode_utf8(t).len() < 0x10000000000000000,
        None => true,
    })
}

/// Law: for every request whose path parses and whose kind tag is known,
/// decoding the encoding reproduces the payload bytes, the kind, and the
/// ordered index/hardened sequence of the derivation path exactly: the
/// decoded record's own path text reads back to the same components the
/// original's text held.
pub proof fn lemma_request_round_trip(v: SignRequestView, ps: Seq<(u32, bool)>)
    requires
        parse_path_text(v.derivation_path) == Some(ps),
        1 <= v.data_type <= 3,
        wf_view(v),
        ps.len() < 0x10000000000000000,
    ensures
        spec_decode_request(request_encoding(v, ps)) matches Ok(d) && d.sign_data == v.sign_data
            && d.data_type == v.data_type && d.comps == ps && d.request_id == v.request_id
            && parse_path_text(path_to_text(d.comps)) == parse_path_text(v.derivation_path),
{
    broadcast use vstd::utf8::encode_utf8_valid_utf8;

    lemma_decode_gen_request(request_gen(v, ps));
    lemma_parse_path_nonempty(v.derivation_path);
    lemma_print_parse_inverse(ps);
}

/// Law: decoding a payload that lacks the kind key yields the transaction
/// kind, tag 1.
pub proof fn lemma_missing_data_type_defaults(g: GenRequest)
    requires
        wf_gen(g),
        g.data_type is None,
        g.sign_data is Some,
    ensures
        spec_decode_request(gen_encoding(g)) matches Ok(d) && d.data_type == 1,
{
    lemma_decode_gen_request(g);
}

/// Law: decoding a payload that lacks the path key yields the standard
/// fallback path, whose text form is `m/44'/195'/0'/0/0`.
pub proof fn lemma_missing_path_defaults(g: GenRequest)
    requires
        wf_gen(g),
        g.path is None,
        g.sign_data is Some,
        match g.data_type {
            Some(d) => 1 <= d <= 3,
            None => true,
        },
    ensures
        spec_decode_request(gen_encoding(g)) matches Ok(d) && d.comps == default_comps()
            && path_to_text(d.comps) == "m/44'/195'/0'/0/0"@,
{
    lemma_decode_gen_request(g);
    lemma_default_path_text();
}

/// The fallback path's text form, written out.
pub proof fn lemma_default_path_text()
    ensures
        path_to_text(default_comps()) == "m/44'/195'/0'/0/0"@,
{
    let expected: Seq<char> = seq![
        'm',
        '/',
        '4',
        '4',
        '\'',
        '/',
        '1',
        '9',
        '5',
        '\'',
        '/',
        '0',
        '\'',
        '/',
        '0',
        '/',
        '0',
    ];
    reveal_with_fuel(crate::path::dec_digits, 4);
    assert(crate::path::dec_digits(44) =~= seq!['4', '4']);
    assert(crate::path::dec_digits(195) =~= seq!['1', '9', '5']);
    assert(crate::path::dec_digits(0) =~= seq!['0']);
    let dc = default_comps();
    let d4 = dc.drop_last();
    let d3 = d4.drop_last();
    let d2 = d3.drop_last();
    let d1 = d2.drop_last();
    let d0 = d1.drop_last();
    assert(d0.len() == 0);
    assert(path_to_text(d0) =~= seq!['m']);
    assert(d1.last() == (44u32, true));
    assert(path_to_text(d1) =~= seq!['m', '/', '4', '4', '\'']);
    assert(d2.last() == (195u32, true));
    assert(path_to_text(d2) =~= seq!['m', '/', '4', '4', '\'', '/', '1', '9', '5', '\'']);
    assert(d3.last() == (0u32, true));
    assert(path_to_text(d3) =~= seq![
        'm',
        '/',
        '4',
        '4',
        '\'',
        '/',
        '1',
        '9',
        '5',
        '\'',
        '/',
        '0',
        '\'',
    ]);
    assert(d4.last() == (0u32, false));
    assert(path_to_text(d4) =~= seq![
        'm',
        '/',
        '4',
        '4',
        '\'',
        '/',
        '1',
        '9',
        '5',
        '\'',
        '/',
        '0',
        '\'',
        '/',
        '0',
    ]);
    assert(dc.last() == (0u32, false));
    assert(path_to_text(dc) =~= expected);
    reveal_strlit("m/44'/195'/0'/0/0");
    assert("m/44'/195'/0'/0/0"@ =~= expected);
}

/// Law: decoding a payload that lacks the payload bytes fails with the
/// missing-field error and yields no record at all.
pub proof fn lemma_missing_sign_data_fails(g: GenRequest)
    requires
        wf_gen(g),
        g.sign_data is None,
    ensures
        spec_decode_request(gen_encoding(g)) == Err::<RawRequest, CodecError>(
            CodecError::MissingSignData,
        ),
{
    lemma_decode_gen_request(g);
}

// ---------- the signature codec's laws ----------

pub open spec fn wf_gen_sig(g: GenSignature) -> bool {
    &&& (match g.request_id {
        Some(b) => b.len() < 0x10000000000000000,
        None => true,
    })
    &&& (match g.signature {
        Some(b) => b.len() < 0x10000000000000000,
        None => true,
    })
}

/// What decoding an encoded generalized signature payload must yield.
pub open spec fn gen_sig_expected(g: GenSignature) -> Result<RawSignature, CodecError> {
    match g.signature {
        None => Err(CodecError::MissingSignature),
        Some(sg) => Ok(RawSignature { request_id: g.request_id, signature: sg }),
    }
}

pub open spec fn sig_opt1(g: GenSignature) -> Seq<u8> {
    match g.request_id {
        Some(b) => enc_uint(1) + enc_bytes(b),
        None => Seq::empty(),
    }
}

pub open spec fn sig_opt2(g: GenSignature) -> Seq<u8> {
    match g.signature {
        Some(b) => enc_uint(2) + enc_bytes(b),
        None => Seq::empty(),
    }
}

proof fn lemma_sig_tail2(s: Seq<u8>, i: int, g: GenSignature, st: SigState)
    requires
        wf_gen_sig(g),
        frag_at(s, i, sig_opt2(g)),
        i + sig_opt2(g).len() == s.len(),
    ensures
        sig_entries(s, i, pr(g.signature is Some) as u64, st) == sig_finalize(
            match g.signature {
                Some(b) => SigState { signature: Some(b), ..st },
                None => st,
            },
            true,
        ),
{
    match g.signature {
        Some(b) => {
            lemma_frag_at_split(s, i, enc_uint(2), enc_bytes(b));
            lemma_p_uint_inv(s, i, 2);
            let i1 = i + enc_uint(2).len();
            lemma_p_bytes_inv(s, i1, b);
            let i2 = i1 + enc_bytes(b).len();
            let st2 = SigState { signature: Some(b), ..st };
            assert(crate::signature::sig_step(s, i, st) == Ok::<(int, SigState), CodecError>(
                (i2, st2),
            ));
            assert(i2 == s.len());
            assert(sig_entries(s, i2, 0u64, st2) == sig_finalize(st2, true));
            assert(sig_entries(s, i, 1u64, st) == sig_finalize(st2, true));
        },
        None => {},
    }
}

proof fn lemma_sig_tail1(s: Seq<u8>, i: int, g: GenSignature, st: SigState)
    requires
        wf_gen_sig(g),
        frag_at(s, i, sig_opt1(g) + sig_opt2(g)),
        i + (sig_opt1(g) + sig_opt2(g)).len() == s.len(),
    ensures
        sig_entries(s, i, gen_sig_count(g) as u64, st) == sig_finalize(
            SigState {
                request_id: match g.request_id {
                    Some(b) => Some(b),
                    None => st.request_id,
                },
                signature: match g.signature {
                    Some(b) => Some(b),
                    None => st.signature,
                },
            },
            true,
        ),
{
    lemma_frag_at_split(s, i, sig_opt1(g), sig_opt2(g));
    match g.request_id {
        Some(b) => {
            lemma_frag_at_split(s, i, enc_uint(1), enc_bytes(b));
            lemma_p_uint_inv(s, i, 1);
            lemma_p_bytes_inv(s, i + enc_uint(1).len(), b);
            lemma_sig_tail2(s, i + sig_opt1(g).len(), g, SigState { request_id: Some(b), ..st });
        },
        None => {
            lemma_sig_tail2(s, i + sig_opt1(g).len(), g, st);
        },
    }
}

/// Law: decoding the encoding of any generalized signature payload yields
/// exactly the fields that were written, or the missing-field error when the
/// signature bytes are absent.
pub proof fn lemma_decode_gen_signature(g: GenSignature)
    requires
        wf_gen_sig(g),
    ensures
        spec_decode_signature(gen_sig_encoding(g)) == gen_sig_expected(g),
{
    let s = gen_sig_encoding(g);
    let hdr = enc_hdr(5, gen_sig_count(g) as u64);
    assert(s == hdr + sig_opt1(g) + sig_opt2(g));
    vstd::seq_lib::lemma_concat_associative(hdr, sig_opt1(g), sig_opt2(g));
    assert(s == hdr + (sig_opt1(g) + sig_opt2(g)));
    assert(s.subrange(0, s.len() as int) =~= s);
    assert(frag_at(s, 0, hdr + (sig_opt1(g) + sig_opt2(g))));
    lemma_frag_at_split(s, 0, hdr, sig_opt1(g) + sig_opt2(g));
    lemma_p_hdr_inv(s, 0, 5, gen_sig_count(g) as u64);
    lemma_sig_tail1(s, hdr.len() as int, g, sig_empty_state());
}

/// Law: decoding an encoded signature record reproduces its signature bytes
/// and its optional request id exactly.
pub proof fn lemma_signature_round_trip(v: SignatureView)
    requires
        (match v.request_id {
            Some(b) => b.len() < 0x10000000000000000,
            None => true,
        }),
        v.signature.len() < 0x10000000000000000,
    ensures
        spec_decode_signature(signature_encoding(v)) == Ok::<RawSignature, CodecError>(
            RawSignature { request_id: v.request_id, signature: v.signature },
        ),
{
    lemma_decode_gen_signature(
        GenSignature { request_id: v.request_id, signature: Some(v.signature) },
    );
}

/// Law: a payload holding only the signature bytes decodes to a record whose
/// request id is absent.
pub proof fn lemma_signature_without_request_id(b: Seq<u8>)
    requires
        b.len() < 0x10000000000000000,
    ensures
        spec_decode_signature(
            gen_sig_encoding(GenSignature { request_id: None, signature: Some(b) }),
        ) == Ok::<RawSignature, CodecError>(RawSignature { request_id: None, signature: b }),
{
    lemma_decode_gen_signature(GenSignature { request_id: None, signature: Some(b) });
}

} // verus!
