//! The wire form: a compact self-describing binary structure whose items are
//! unsigned integers, byte strings, UTF-8 text, booleans, arrays and maps
//! keyed by small unsigned integers.
//!
//! The spec functions below are the mathematical definition of the encoding;
//! the exec functions emit and read it and are proved against them.

use vstd::prelude::*;
use vstd::arithmetic::div_mod::lemma_div_denominator;
use vstd::arithmetic::div_mod::lemma_fundamental_div_mod;
use vstd::arithmetic::div_mod::lemma_fundamental_div_mod_converse;
use vstd::arithmetic::div_mod::lemma_multiply_divide_lt;
use vstd::arithmetic::mul::lemma_mul_inequality;
use vstd::utf8::encode_utf8;
use vstd::utf8::valid_utf8;

verus! {

/// 256 raised to `k`.
pub open spec fn pow256(k: nat) -> int
    decreases k,
{
    if k == 0 {
        1
    } else {
        256 * pow256((k - 1) as nat)
    }
}

/// The value `n` written big-endian in exactly `k` bytes.
pub open spec fn be_bytes(n: int, k: nat) -> Seq<u8>
    decreases k,
{
    if k == 0 {
        Seq::empty()
    } else {
        be_bytes(n / 256, (k - 1) as nat) + seq![(n % 256) as u8]
    }
}

/// The header of one item: the major type in the top three bits and the
/// argument (a value or a length) in the shortest argument form.
pub open spec fn enc_hdr(major: u8, arg: u64) -> Seq<u8> {
    let m = (major as int) * 32;
    if arg < 24 {
        seq![(m + arg) as u8]
    } else if arg < 0x100 {
        seq![(m + 24) as u8] + be_bytes(arg as int, 1)
    } else if arg < 0x10000 {
        seq![(m + 25) as u8] + be_bytes(arg as int, 2)
    } else if arg < 0x100000000 {
        seq![(m + 26) as u8] + be_bytes(arg as int, 4)
    } else {
        seq![(m + 27) as u8] + be_bytes(arg as int, 8)
    }
}

/// An unsigned integer item.
pub open spec fn enc_uint(n: u64) -> Seq<u8> {
    enc_hdr(0, n)
}

/// A byte string item: its length, then the bytes themselves.
pub open spec fn enc_bytes(b: Seq<u8>) -> Seq<u8> {
    enc_hdr(2, b.len() as u64) + b
}

/// A text item: the length in bytes, then the UTF-8 bytes themselves.
pub open spec fn enc_text(t: Seq<u8>) -> Seq<u8> {
    enc_hdr(3, t.len() as u64) + t
}

/// A boolean item.
pub open spec fn enc_bool(v: bool) -> Seq<u8> {
    if v {
        seq![0xf5u8]
    } else {
        seq![0xf4u8]
    }
}

proof fn lemma_be2(n: int)
    requires
        0 <= n,
    ensures
        be_bytes(n, 2) =~= seq![((n / 0x100) % 0x100) as u8, (n % 0x100) as u8],
{
    reveal_with_fuel(be_bytes, 3);
}

proof fn lemma_be4(n: int)
    requires
        0 <= n,
    ensures
        be_bytes(n, 4) =~= seq![
            ((n / 0x1000000) % 0x100) as u8,
            ((n / 0x10000) % 0x100) as u8,
            ((n / 0x100) % 0x100) as u8,
            (n % 0x100) as u8,
        ],
{
    reveal_with_fuel(be_bytes, 5);
    lemma_div_denominator(n, 0x100, 0x100);
    lemma_div_denominator(n, 0x10000, 0x100);
}

proof fn lemma_be8(n: int)
    requires
        0 <= n,
    ensures
        be_bytes(n, 8) =~= seq![
            ((n / 0x100000000000000) % 0x100) as u8,
            ((n / 0x1000000000000) % 0x100) as u8,
            ((n / 0x10000000000) % 0x100) as u8,
            ((n / 0x100000000) % 0x100) as u8,
            ((n / 0x1000000) % 0x100) as u8,
            ((n / 0x10000) % 0x100) as u8,
            ((n / 0x100) % 0x100) as u8,
            (n % 0x100) as u8,
        ],
{
    reveal_with_fuel(be_bytes, 9);
    lemma_div_denominator(n, 0x100, 0x100);
    lemma_div_denominator(n, 0x10000, 0x100);
    lemma_div_denominator(n, 0x1000000, 0x100);
    lemma_div_denominator(n, 0x100000000, 0x100);
    lemma_div_denominator(n, 0x10000000000, 0x100);
    lemma_div_denominator(n, 0x1000000000000, 0x100);
}

/// Appends the header of one item to `out`.
pub fn emit_hdr(out: &mut Vec<u8>, major: u8, arg: u64)
    requires
        major <= 7,
    ensures
        final(out)@ == old(out)@ + enc_hdr(major, arg),
{
    let m: u8 = major * 32;
    if arg < 24 {
        out.push(m + (arg as u8));
    } else if arg < 0x100 {
        out.push(m + 24);
        out.push((arg % 0x100) as u8);
    } else if arg < 0x10000 {
        out.push(m + 25);
        out.push(((arg / 0x100) % 0x100) as u8);
        out.push((arg % 0x100) as u8);
        proof { lemma_be2(arg as int); }
    } else if arg < 0x100000000 {
        out.push(m + 26);
        out.push(((arg / 0x1000000) % 0x100) as u8);
        out.push(((arg / 0x10000) % 0x100) as u8);
        out.push(((arg / 0x100) % 0x100) as u8);
        out.push((arg % 0x100) as u8);
        proof { lemma_be4(arg as int); }
    } else {
        out.push(m + 27);
        out.push(((arg / 0x100000000000000) % 0x100) as u8);
        out.push(((arg / 0x1000000000000) % 0x100) as u8);
        out.push(((arg / 0x10000000000) % 0x100) as u8);
        out.push(((arg / 0x100000000) % 0x100) as u8);
        out.push(((arg / 0x1000000) % 0x100) as u8);
        out.push(((arg / 0x10000) % 0x100) as u8);
        out.push(((arg / 0x100) % 0x100) as u8);
        out.push((arg % 0x100) as u8);
        proof { lemma_be8(arg as int); }
    }
    proof {
        reveal_with_fuel(be_bytes, 3);
    }
    assert(out@ =~= old(out)@ + enc_hdr(major, arg));
}

/// Appends a boolean item to `out`.
pub fn emit_bool(out: &mut Vec<u8>, v: bool)
    ensures
        final(out)@ == old(out)@ + enc_bool(v),
{
    if v {
        out.push(0xf5);
    } else {
        out.push(0xf4);
    }
    assert(out@ =~= old(out)@ + enc_bool(v));
}

/// Appends a byte string item to `out`.
pub fn emit_bytes(out: &mut Vec<u8>, b: &[u8])
    ensures
        final(out)@ == old(out)@ + enc_bytes(b@),
{
    emit_hdr(out, 2, b.len() as u64);
    out.extend_from_slice(b);
    assert(out@ =~= old(out)@ + enc_bytes(b@));
}

/// Appends a text item holding the given UTF-8 bytes to `out`.
pub fn emit_text(out: &mut Vec<u8>, t: &[u8])
    ensures
        final(out)@ == old(out)@ + enc_text(t@),
{
    emit_hdr(out, 3, t.len() as u64);
    out.extend_from_slice(t);
    assert(out@ =~= old(out)@ + enc_text(t@));
}

// ---------- reading the wire form ----------

/// The value of big-endian bytes, most significant first.
pub open spec fn horner(s: Seq<u8>) -> int
    decreases s.len(),
{
    if s.len() == 0 {
        0
    } else {
        horner(s.drop_last()) * 256 + s.last()
    }
}

pub proof fn lemma_pow256_pos(k: nat)
    ensures
        pow256(k) >= 1,
    decreases k,
{
    if k > 0 {
        lemma_pow256_pos((k - 1) as nat);
    }
}

pub proof fn lemma_pow256_mono(a: nat, b: nat)
    requires
        a <= b,
    ensures
        pow256(a) <= pow256(b),
    decreases b,
{
    if a < b {
        lemma_pow256_mono(a, (b - 1) as nat);
        lemma_pow256_pos((b - 1) as nat);
    }
}

pub proof fn lemma_horner_bound(s: Seq<u8>)
    ensures
        0 <= horner(s) < pow256(s.len()),
    decreases s.len(),
{
    if s.len() > 0 {
        lemma_horner_bound(s.drop_last());
        lemma_mul_inequality(horner(s.drop_last()), pow256((s.len() - 1) as nat) - 1, 256);
    }
}

/// Big-endian writing and reading invert each other.
pub proof fn lemma_horner_be(n: int, k: nat)
    requires
        0 <= n < pow256(k),
    ensures
        be_bytes(n, k).len() == k,
        horner(be_bytes(n, k)) == n,
    decreases k,
{
    if k > 0 {
        lemma_multiply_divide_lt(n, 256, pow256((k - 1) as nat));
        lemma_horner_be(n / 256, (k - 1) as nat);
        assert(be_bytes(n, k).drop_last() =~= be_bytes(n / 256, (k - 1) as nat));
        lemma_fundamental_div_mod(n, 256);
    }
}

/// `frag` occupies `s` from position `i` on.
pub open spec fn frag_at(s: Seq<u8>, i: int, frag: Seq<u8>) -> bool {
    &&& 0 <= i
    &&& i + frag.len() <= s.len()
    &&& s.subrange(i, i + frag.len() as int) == frag
}

/// A fragment made of two parts occupies its positions part by part.
pub proof fn lemma_frag_at_split(s: Seq<u8>, i: int, a: Seq<u8>, b: Seq<u8>)
    requires
        frag_at(s, i, a + b),
    ensures
        frag_at(s, i, a),
        frag_at(s, i + a.len(), b),
{
    let ab = a + b;
    assert forall|j: int| 0 <= j < a.len() implies s.subrange(i, i + a.len() as int)[j] == a[j] by {
        assert(s.subrange(i, i + ab.len() as int)[j] == ab[j]);
    }
    assert(s.subrange(i, i + a.len() as int) =~= a);
    assert forall|j: int|
        0 <= j < b.len() implies s.subrange(i + a.len(), i + a.len() + b.len() as int)[j] == b[j] by {
        assert(s.subrange(i, i + ab.len() as int)[a.len() + j] == ab[a.len() + j]);
    }
    assert(s.subrange(i + a.len(), i + a.len() + b.len() as int) =~= b);
}

/// Reads an item header at `i`: the major type, the argument, and the
/// position after the header. Any argument width is accepted, not only the
/// shortest one.
pub open spec fn p_hdr(s: Seq<u8>, i: int) -> Option<(u8, u64, int)> {
    if !(0 <= i < s.len()) {
        None
    } else {
        let major = s[i] / 32;
        let low = s[i] % 32;
        if low < 24 {
            Some((major, low as u64, i + 1))
        } else if low == 24 && i + 2 <= s.len() {
            Some((major, s[i + 1] as u64, i + 2))
        } else if low == 25 && i + 3 <= s.len() {
            Some((major, horner(s.subrange(i + 1, i + 3)) as u64, i + 3))
        } else if low == 26 && i + 5 <= s.len() {
            Some((major, horner(s.subrange(i + 1, i + 5)) as u64, i + 5))
        } else if low == 27 && i + 9 <= s.len() {
            Some((major, horner(s.subrange(i + 1, i + 9)) as u64, i + 9))
        } else {
            None
        }
    }
}

/// A header that was read sits inside the input and names a small major type.
pub proof fn lemma_p_hdr_props(s: Seq<u8>, i: int)
    ensures
        p_hdr(s, i) matches Some((m, a, j)) ==> i < j <= s.len() && m <= 7,
{
}

/// Reads the value of `k` big-endian bytes at `i`.
fn read_be(s: &[u8], i: usize, k: usize) -> (r: u64)
    requires
        1 <= k <= 8,
        i + k <= s@.len(),
    ensures
        r as int == horner(s@.subrange(i as int, i as int + k as int)),
{
    let n = s.len();
    let mut acc: u64 = 0;
    let mut j: usize = 0;
    while j < k
        invariant
            1 <= k <= 8,
            i + k <= s@.len(),
            s@.len() <= usize::MAX,
            j <= k,
            acc as int == horner(s@.subrange(i as int, i as int + j as int)),
            (acc as int) < pow256(j as nat),
        decreases k - j,
    {
        proof {
            lemma_pow256_mono(j as nat, 7);
            reveal_with_fuel(pow256, 9);
        }
        let b = s[i + j];
        acc = acc * 256 + (b as u64);
        j = j + 1;
        proof {
            assert(s@.subrange(i as int, i as int + j as int).drop_last() =~= s@.subrange(
                i as int,
                i as int + j as int - 1,
            ));
        }
    }
    acc
}

/// Reads an item header; mirrors [`p_hdr`].
pub fn parse_hdr(s: &[u8], i: usize) -> (r: Option<(u8, u64, usize)>)
    ensures
        match (r, p_hdr(s@, i as int)) {
            (Some((m, a, j)), Some((sm, sa, sj))) => m == sm && a == sa && j as int == sj,
            (None, None) => true,
            _ => false,
        },
{
    if i >= s.len() {
        return None;
    }
    let b = s[i];
    let major = b / 32;
    let low = b % 32;
    if low < 24 {
        Some((major, low as u64, i + 1))
    } else if low == 24 {
        if s.len() - i < 2 {
            return None;
        }
        let a = read_be(s, i + 1, 1);
        proof {
            reveal_with_fuel(horner, 3);
            assert(s@.subrange(i as int + 1, i as int + 2).drop_last() =~= Seq::<u8>::empty());
            assert(s@.subrange(i as int + 1, i as int + 2).last() == s@[i as int + 1]);
        }
        Some((major, a, i + 2))
    } else if low == 25 {
        if s.len() - i < 3 {
            return None;
        }
        let a = read_be(s, i + 1, 2);
        proof {
            lemma_horner_bound(s@.subrange(i as int + 1, i as int + 3));
        }
        Some((major, a, i + 3))
    } else if low == 26 {
        if s.len() - i < 5 {
            return None;
        }
        let a = read_be(s, i + 1, 4);
        proof {
            lemma_horner_bound(s@.subrange(i as int + 1, i as int + 5));
        }
        Some((major, a, i + 5))
    } else if low == 27 {
        if s.len() - i < 9 {
            return None;
        }
        let a = read_be(s, i + 1, 8);
        proof {
            lemma_horner_bound(s@.subrange(i as int + 1, i as int + 9));
            reveal_with_fuel(pow256, 9);
        }
        Some((major, a, i + 9))
    } else {
        None
    }
}

/// Reads an unsigned integer item.
pub open spec fn p_uint(s: Seq<u8>, i: int) -> Option<(u64, int)> {
    match p_hdr(s, i) {
        Some((major, n, j)) => if major == 0 {
            Some((n, j))
        } else {
            None
        },
        None => None,
    }
}

/// Reads a byte string item.
pub open spec fn p_bytes(s: Seq<u8>, i: int) -> Option<(Seq<u8>, int)> {
    match p_hdr(s, i) {
        Some((major, n, j)) => if major == 2 && j + n <= s.len() {
            Some((s.subrange(j, j + n as int), j + n as int))
        } else {
            None
        },
        None => None,
    }
}

/// Reads a text item; its bytes must be valid UTF-8.
pub open spec fn p_text(s: Seq<u8>, i: int) -> Option<(Seq<u8>, int)> {
    match p_hdr(s, i) {
        Some((major, n, j)) => if major == 3 && j + n <= s.len() && valid_utf8(
            s.subrange(j, j + n as int),
        ) {
            Some((s.subrange(j, j + n as int), j + n as int))
        } else {
            None
        },
        None => None,
    }
}

/// Reads a boolean item.
pub open spec fn p_bool(s: Seq<u8>, i: int) -> Option<(bool, int)> {
    if 0 <= i < s.len() {
        if s[i] == 0xf4 {
            Some((false, i + 1))
        } else if s[i] == 0xf5 {
            Some((true, i + 1))
        } else {
            None
        }
    } else {
        None
    }
}

/// Relies on `core::str::from_utf8`: it succeeds exactly on valid UTF-8 and
/// returns the text whose UTF-8 encoding is the given bytes.
#[verifier::external_body]
pub fn bytes_as_str(b: &[u8]) -> (r: Option<&str>)
    ensures
        r is Some <==> valid_utf8(b@),
        r matches Some(t) ==> encode_utf8(t@) == b@,
{
    core::str::from_utf8(b).ok()
}

/// Reads an unsigned integer item; mirrors [`p_uint`].
pub fn parse_uint(s: &[u8], i: usize) -> (r: Option<(u64, usize)>)
    ensures
        match (r, p_uint(s@, i as int)) {
            (Some((n, j)), Some((sn, sj))) => n == sn && j as int == sj,
            (None, None) => true,
            _ => false,
        },
{
    match parse_hdr(s, i) {
        None => None,
        Some((major, n, j)) => if major == 0 {
            Some((n, j))
        } else {
            None
        },
    }
}

/// Reads a byte string item; mirrors [`p_bytes`].
pub fn parse_bytes(s: &[u8], i: usize) -> (r: Option<(Vec<u8>, usize)>)
    ensures
        match (r, p_bytes(s@, i as int)) {
            (Some((b, j)), Some((sb, sj))) => b@ == sb && j as int == sj,
            (None, None) => true,
            _ => false,
        },
{
    match parse_hdr(s, i) {
        None => None,
        Some((major, n, j)) => {
            if major != 2 {
                return None;
            }
            proof {
                lemma_p_hdr_props(s@, i as int);
            }
            if n > (s.len() - j) as u64 {
                return None;
            }
            let len = n as usize;
            let sub = &s[j..j + len];
            Some((vstd::slice::slice_to_vec(sub), j + len))
        },
    }
}

/// Reads a text item; mirrors [`p_text`] and hands back the UTF-8 bytes.
pub fn parse_text(s: &[u8], i: usize) -> (r: Option<(Vec<u8>, usize)>)
    ensures
        match (r, p_text(s@, i as int)) {
            (Some((b, j)), Some((sb, sj))) => b@ == sb && j as int == sj,
            (None, None) => true,
            _ => false,
        },
{
    match parse_hdr(s, i) {
        None => None,
        Some((major, n, j)) => {
            if major != 3 {
                return None;
            }
            proof {
                lemma_p_hdr_props(s@, i as int);
            }
            if n > (s.len() - j) as u64 {
                return None;
            }
            let len = n as usize;
            let sub = &s[j..j + len];
            if bytes_as_str(sub).is_none() {
                return None;
            }
            Some((vstd::slice::slice_to_vec(sub), j + len))
        },
    }
}

/// Reads a boolean item; mirrors [`p_bool`].
pub fn parse_bool(s: &[u8], i: usize) -> (r: Option<(bool, usize)>)
    ensures
        match (r, p_bool(s@, i as int)) {
            (Some((v, j)), Some((sv, sj))) => v == sv && j as int == sj,
            (None, None) => true,
            _ => false,
        },
{
    if i >= s.len() {
        return None;
    }
    let b = s[i];
    if b == 0xf4 {
        Some((false, i + 1))
    } else if b == 0xf5 {
        Some((true, i + 1))
    } else {
        None
    }
}

/// Skips one item of any kind at `i`: the position after it, or nothing when
/// the bytes there are not a readable item.
pub open spec fn p_skip(s: Seq<u8>, i: int) -> Option<int>
    decreases s.len() - i, 0int,
{
    match p_hdr(s, i) {
        None => None,
        Some((m, a, j)) => if m == 0 {
            Some(j)
        } else if m == 2 || m == 3 {
            if j + a <= s.len() {
                Some(j + a as int)
            } else {
                None
            }
        } else if m == 4 {
            p_skip_seq(s, j, a as int)
        } else if m == 5 {
            p_skip_seq(s, j, 2 * (a as int))
        } else if m == 7 && (a == 20 || a == 21 || a == 22) {
            Some(j)
        } else {
            None
        },
    }
}

/// Skips `n` consecutive items from `i`.
pub open spec fn p_skip_seq(s: Seq<u8>, i: int, n: int) -> Option<int>
    decreases s.len() - i, n + 1,
{
    if n <= 0 {
        Some(i)
    } else {
        match p_skip(s, i) {
            None => None,
            Some(j) => if i < j <= s.len() {
                p_skip_seq(s, j, n - 1)
            } else {
                None
            },
        }
    }
}

/// Skips one item; mirrors [`p_skip`].
pub fn skip_item(s: &[u8], i: usize) -> (r: Option<usize>)
    ensures
        match (r, p_skip(s@, i as int)) {
            (Some(j), Some(sj)) => j as int == sj && i < j <= s@.len(),
            (None, None) => true,
            _ => false,
        },
    decreases s@.len() - i, 0int,
{
    match parse_hdr(s, i) {
        None => None,
        Some((m, a, j)) => {
            proof {
                lemma_p_hdr_props(s@, i as int);
            }
            if m == 0 {
                Some(j)
            } else if m == 2 || m == 3 {
                if a > (s.len() - j) as u64 {
                    None
                } else {
                    Some(j + (a as usize))
                }
            } else if m == 4 {
                skip_run(s, j, a, false)
            } else if m == 5 {
                skip_run(s, j, a, true)
            } else if m == 7 && (a == 20 || a == 21 || a == 22) {
                Some(j)
            } else {
                None
            }
        },
    }
}

/// Skips `n` items, or `n` pairs of items; mirrors [`p_skip_seq`].
#[verifier::loop_isolation(false)]
fn skip_run(s: &[u8], i: usize, n: u64, two: bool) -> (r: Option<usize>)
    requires
        i <= s@.len(),
    ensures
        match (r, p_skip_seq(
            s@,
            i as int,
            if two {
                2 * (n as int)
            } else {
                n as int
            },
        )) {
            (Some(j), Some(sj)) => j as int == sj && i <= j <= s@.len(),
            (None, None) => true,
            _ => false,
        },
    decreases s@.len() - i, 1int,
{
    let ghost total_n: int = if two {
        2 * (n as int)
    } else {
        n as int
    };
    let mut pos = i;
    let mut k: u64 = 0;
    while k < n
        invariant
            i <= pos <= s@.len(),
            k <= n,
            p_skip_seq(s@, i as int, total_n) == p_skip_seq(
                s@,
                pos as int,
                total_n - (if two {
                    2 * (k as int)
                } else {
                    k as int
                }),
            ),
        decreases n - k,
    {
        let ghost m0: int = total_n - (if two {
            2 * (k as int)
        } else {
            k as int
        });
        proof {
            assert(m0 > 0);
        }
        match skip_item(s, pos) {
            None => {
                proof {
                    assert(p_skip_seq(s@, pos as int, m0) is None);
                }
                return None;
            },
            Some(j) => {
                proof {
                    assert(p_skip_seq(s@, pos as int, m0) == p_skip_seq(s@, j as int, m0 - 1));
                }
                pos = j;
            },
        }
        if two {
            proof {
                assert(m0 - 1 > 0);
            }
            match skip_item(s, pos) {
                None => {
                    proof {
                        assert(p_skip_seq(s@, pos as int, m0 - 1) is None);
                    }
                    return None;
                },
                Some(j) => {
                    proof {
                        assert(p_skip_seq(s@, pos as int, m0 - 1) == p_skip_seq(
                            s@,
                            j as int,
                            m0 - 2,
                        ));
                    }
                    pos = j;
                },
            }
        }
        k = k + 1;
    }
    proof {
        assert(total_n - (if two {
            2 * (k as int)
        } else {
            k as int
        }) == 0);
        assert(p_skip_seq(s@, pos as int, 0) == Some(pos as int));
    }
    Some(pos)
}

// ---------- reading an encoding gives back what was written ----------

proof fn lemma_hdr_byte(m: int, l: int)
    requires
        0 <= m <= 7,
        0 <= l < 32,
    ensures
        (m * 32 + l) / 32 == m,
        (m * 32 + l) % 32 == l,
{
    lemma_fundamental_div_mod_converse(m * 32 + l, 32, m, l);
}

/// Reading at an encoded header yields exactly that header.
pub proof fn lemma_p_hdr_inv(s: Seq<u8>, i: int, major: u8, arg: u64)
    requires
        major <= 7,
        frag_at(s, i, enc_hdr(major, arg)),
    ensures
        p_hdr(s, i) == Some((major, arg, i + enc_hdr(major, arg).len() as int)),
{
    let e = enc_hdr(major, arg);
    assert(s.subrange(i, i + e.len() as int)[0] == e[0]);
    reveal_with_fuel(be_bytes, 9);
    reveal_with_fuel(pow256, 9);
    if arg < 24 {
        lemma_hdr_byte(major as int, arg as int);
    } else if arg < 0x100 {
        lemma_hdr_byte(major as int, 24);
        assert(s.subrange(i, i + e.len() as int)[1] == e[1]);
        assert(s[i + 1] == ((arg as int) % 256) as u8);
    } else if arg < 0x10000 {
        lemma_hdr_byte(major as int, 25);
        assert forall|j: int| 0 <= j < 2 implies s.subrange(i + 1, i + 3)[j] == be_bytes(
            arg as int,
            2,
        )[j] by {
            assert(s.subrange(i, i + e.len() as int)[j + 1] == e[j + 1]);
        }
        assert(s.subrange(i + 1, i + 3) =~= be_bytes(arg as int, 2));
        lemma_horner_be(arg as int, 2);
    } else if arg < 0x100000000 {
        lemma_hdr_byte(major as int, 26);
        assert forall|j: int| 0 <= j < 4 implies s.subrange(i + 1, i + 5)[j] == be_bytes(
            arg as int,
            4,
        )[j] by {
            assert(s.subrange(i, i + e.len() as int)[j + 1] == e[j + 1]);
        }
        assert(s.subrange(i + 1, i + 5) =~= be_bytes(arg as int, 4));
        lemma_horner_be(arg as int, 4);
    } else {
        lemma_hdr_byte(major as int, 27);
        assert forall|j: int| 0 <= j < 8 implies s.subrange(i + 1, i + 9)[j] == be_bytes(
            arg as int,
            8,
        )[j] by {
            assert(s.subrange(i, i + e.len() as int)[j + 1] == e[j + 1]);
        }
        assert(s.subrange(i + 1, i + 9) =~= be_bytes(arg as int, 8));
        lemma_horner_be(arg as int, 8);
    }
}

/// Reading at an encoded unsigned integer yields exactly that integer.
pub proof fn lemma_p_uint_inv(s: Seq<u8>, i: int, n: u64)
    requires
        frag_at(s, i, enc_uint(n)),
    ensures
        p_uint(s, i) == Some((n, i + enc_uint(n).len() as int)),
{
    lemma_p_hdr_inv(s, i, 0, n);
}

/// Reading at an encoded byte string yields exactly those bytes.
pub proof fn lemma_p_bytes_inv(s: Seq<u8>, i: int, b: Seq<u8>)
    requires
        frag_at(s, i, enc_bytes(b)),
        b.len() < 0x10000000000000000,
    ensures
        p_bytes(s, i) == Some((b, i + enc_bytes(b).len() as int)),
{
    lemma_frag_at_split(s, i, enc_hdr(2, b.len() as u64), b);
    lemma_p_hdr_inv(s, i, 2, b.len() as u64);
}

/// Reading at an encoded text item yields exactly its UTF-8 bytes.
pub proof fn lemma_p_text_inv(s: Seq<u8>, i: int, t: Seq<u8>)
    requires
        frag_at(s, i, enc_text(t)),
        t.len() < 0x10000000000000000,
        valid_utf8(t),
    ensures
        p_text(s, i) == Some((t, i + enc_text(t).len() as int)),
{
    lemma_frag_at_split(s, i, enc_hdr(3, t.len() as u64), t);
    lemma_p_hdr_inv(s, i, 3, t.len() as u64);
}

/// Reading at an encoded boolean yields exactly that boolean.
pub proof fn lemma_p_bool_inv(s: Seq<u8>, i: int, v: bool)
    requires
        frag_at(s, i, enc_bool(v)),
    ensures
        p_bool(s, i) == Some((v, i + 1)),
{
    assert(s.subrange(i, i + 1)[0] == enc_bool(v)[0]);
}

} // verus!
