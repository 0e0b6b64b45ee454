//! The derivation-path sub-codec's textual side: reading the canonical text
//! form `m/44'/195'/0'/0/0` into an ordered list of `(index, hardened)`
//! pairs, and writing such a list back to text.

use vstd::prelude::*;

use crate::CodecError;

verus! {

// ---------- the textual form, as mathematics ----------

/// The position of the first `/` in `s`, or `s.len()` if there is none.
pub open spec fn first_slash(s: Seq<char>) -> int
    decreases s.len(),
{
    if s.len() == 0 {
        0
    } else if s[0] == '/' {
        0
    } else {
        1 + first_slash(s.drop_first())
    }
}

/// The pieces of `s` between `/` separators, in order.
pub open spec fn split_slash(s: Seq<char>) -> Seq<Seq<char>>
    decreases s.len(),
{
    let k = first_slash(s);
    if 0 <= k < s.len() {
        seq![s.subrange(0, k)] + split_slash(s.subrange(k + 1, s.len() as int))
    } else {
        seq![s]
    }
}

/// `s` with every leading `m/` removed.
pub open spec fn strip_m(s: Seq<char>) -> Seq<char>
    decreases s.len(),
{
    if s.len() >= 2 && s[0] == 'm' && s[1] == '/' {
        strip_m(s.subrange(2, s.len() as int))
    } else {
        s
    }
}

pub open spec fn is_digit(c: char) -> bool {
    48 <= c as u32 <= 57
}

pub open spec fn digit_val(c: char) -> int {
    (c as u32) - 48
}

/// A non-empty run of decimal digits.
pub open spec fn is_digits(d: Seq<char>) -> bool {
    d.len() > 0 && (forall|j: int| 0 <= j < d.len() ==> is_digit(d[j]))
}

/// The decimal value of a digit run.
pub open spec fn dec_val(d: Seq<char>) -> int
    decreases d.len(),
{
    if d.len() == 0 {
        0
    } else {
        dec_val(d.drop_last()) * 10 + digit_val(d.last())
    }
}

/// `c` with every trailing hardening mark removed.
pub open spec fn strip_quotes(c: Seq<char>) -> Seq<char>
    decreases c.len(),
{
    if c.len() > 0 && c.last() == '\'' {
        strip_quotes(c.drop_last())
    } else {
        c
    }
}

/// One path component: an unsigned index, written with an optional leading
/// `+` sign, with an optional trailing hardening mark.
pub open spec fn parse_comp(c: Seq<char>) -> Option<(u32, bool)> {
    let stripped = strip_quotes(c);
    let body = if stripped.len() > 0 && stripped[0] == '+' {
        stripped.drop_first()
    } else {
        stripped
    };
    if is_digits(body) && dec_val(body) < 0x100000000 {
        Some(((dec_val(body) as u32), c.len() > 0 && c.last() == '\''))
    } else {
        None
    }
}

/// All components in order, or nothing if one of them is malformed.
pub open spec fn parse_comps(cs: Seq<Seq<char>>) -> Option<Seq<(u32, bool)>>
    decreases cs.len(),
{
    if cs.len() == 0 {
        Some(Seq::empty())
    } else {
        match parse_comp(cs[0]) {
            None => None,
            Some(p) => match parse_comps(cs.drop_first()) {
                None => None,
                Some(r) => Some(seq![p] + r),
            },
        }
    }
}

/// The first malformed component of `cs`.
pub open spec fn first_bad(cs: Seq<Seq<char>>) -> Seq<char>
    decreases cs.len(),
{
    if cs.len() == 0 {
        Seq::empty()
    } else if parse_comp(cs[0]) is None {
        cs[0]
    } else {
        first_bad(cs.drop_first())
    }
}

/// Reading the canonical text form of a path.
pub open spec fn parse_path_text(s: Seq<char>) -> Option<Seq<(u32, bool)>> {
    parse_comps(split_slash(strip_m(s)))
}

/// The component named by the error when [`parse_path_text`] fails.
pub open spec fn first_bad_component(s: Seq<char>) -> Seq<char> {
    first_bad(split_slash(strip_m(s)))
}

pub open spec fn digit_char(d: int) -> char {
    ((48 + d) as u8) as char
}

/// The decimal digits of `n`, most significant first.
pub open spec fn dec_digits(n: int) -> Seq<char>
    decreases n,
{
    if n < 10 {
        seq![digit_char(n)]
    } else {
        dec_digits(n / 10) + seq![digit_char(n % 10)]
    }
}

/// The text of one component: the index, then a hardening mark if it is set.
pub open spec fn comp_text(p: (u32, bool)) -> Seq<char> {
    dec_digits(p.0 as int) + (if p.1 {
        seq!['\'']
    } else {
        Seq::<char>::empty()
    })
}

/// The canonical text form of a component list: `m`, then `/` and one
/// component's text for each component in order.
pub open spec fn path_to_text(ps: Seq<(u32, bool)>) -> Seq<char>
    decreases ps.len(),
{
    if ps.len() == 0 {
        seq!['m']
    } else {
        path_to_text(ps.drop_last()) + seq!['/'] + comp_text(ps.last())
    }
}

/// The standard coin-specific fallback path used when a decoded payload
/// carries no usable path.
pub open spec fn default_comps() -> Seq<(u32, bool)> {
    seq![(44u32, true), (195u32, true), (0u32, true), (0u32, false), (0u32, false)]
}

// ---------- helper lemmas ----------

proof fn lemma_first_slash_is(s: Seq<char>, k: int)
    requires
        0 <= k <= s.len(),
        forall|j: int| 0 <= j < k ==> s[j] != '/',
        k < s.len() ==> s[k] == '/',
    ensures
        first_slash(s) == k,
    decreases s.len(),
{
    if s.len() == 0 {
    } else if s[0] == '/' {
        assert(k == 0);
    } else {
        assert(k >= 1);
        assert forall|j: int| 0 <= j < k - 1 implies s.drop_first()[j] != '/' by {
            assert(s[j + 1] != '/');
        }
        lemma_first_slash_is(s.drop_first(), k - 1);
    }
}

proof fn lemma_dec_val_nonneg(d: Seq<char>)
    requires
        forall|j: int| 0 <= j < d.len() ==> is_digit(d[j]),
    ensures
        dec_val(d) >= 0,
    decreases d.len(),
{
    if d.len() > 0 {
        assert forall|j: int| 0 <= j < d.drop_last().len() implies is_digit(d.drop_last()[j]) by {
            assert(d.drop_last()[j] == d[j]);
        }
        lemma_dec_val_nonneg(d.drop_last());
        assert(is_digit(d[d.len() - 1]));
        assert(dec_val(d.drop_last()) * 10 >= 0);
    }
}

proof fn lemma_dec_val_prefix(d: Seq<char>, j: int)
    requires
        forall|i: int| 0 <= i < d.len() ==> is_digit(d[i]),
        0 <= j <= d.len(),
    ensures
        dec_val(d.subrange(0, j)) <= dec_val(d),
    decreases d.len() - j,
{
    if j < d.len() {
        lemma_dec_val_prefix(d, j + 1);
        assert(d.subrange(0, j + 1).drop_last() =~= d.subrange(0, j));
        assert(d.subrange(0, j + 1).last() == d[j]);
        assert forall|t: int| 0 <= t < j implies is_digit(d.subrange(0, j)[t]) by {
            assert(d.subrange(0, j)[t] == d[t]);
        }
        lemma_dec_val_nonneg(d.subrange(0, j));
        assert(is_digit(d[j]));
        assert(dec_val(d.subrange(0, j + 1)) == dec_val(d.subrange(0, j)) * 10 + digit_val(
            d[j],
        ));
        assert(dec_val(d.subrange(0, j)) * 10 >= dec_val(d.subrange(0, j)));
    } else {
        assert(d.subrange(0, j) =~= d);
    }
}

// ---------- reading the text form ----------

/// Reads one component, the characters of `path` from `i` to `k`.
#[verifier::loop_isolation(false)]
fn parse_component(path: &str, i: usize, k: usize) -> (r: Option<(u32, bool)>)
    requires
        i <= k <= path@.len(),
    ensures
        r == parse_comp(path@.subrange(i as int, k as int)),
{
    let ghost c = path@.subrange(i as int, k as int);
    let hardened = k > i && path.get_char(k - 1) == '\'';
    proof {
        assert(k > i ==> c.last() == path@[k as int - 1]);
    }
    // strip every trailing hardening mark
    let mut e = k;
    while e > i && path.get_char(e - 1) == '\''
        invariant
            i <= e <= k <= path@.len(),
            strip_quotes(c) == strip_quotes(path@.subrange(i as int, e as int)),
        decreases e,
    {
        proof {
            let cur = path@.subrange(i as int, e as int);
            assert(cur.last() == path@[e as int - 1]);
            assert(cur.drop_last() =~= path@.subrange(i as int, e as int - 1));
        }
        e = e - 1;
    }
    proof {
        let cur = path@.subrange(i as int, e as int);
        assert(e > i ==> cur.last() == path@[e as int - 1]);
        assert(strip_quotes(c) == cur);
    }
    // an optional leading plus sign
    let b = if e > i && path.get_char(i) == '+' {
        i + 1
    } else {
        i
    };
    let ghost stripped = strip_quotes(c);
    let ghost body = if stripped.len() > 0 && stripped[0] == '+' {
        stripped.drop_first()
    } else {
        stripped
    };
    proof {
        assert(e > i ==> path@.subrange(i as int, e as int)[0] == path@[i as int]);
        assert(body =~= path@.subrange(b as int, e as int));
    }
    if b == e {
        proof {
            assert(body.len() == 0);
            assert(!is_digits(body));
            assert(parse_comp(c) is None);
        }
        return None;
    }
    // the digits themselves
    let mut acc: u64 = 0;
    let mut j = b;
    while j < e
        invariant
            b <= j <= e <= path@.len(),
            body == path@.subrange(b as int, e as int),
            forall|t: int| b <= t < j ==> is_digit(path@[t]),
            acc as int == dec_val(path@.subrange(b as int, j as int)),
            acc <= 0xFFFFFFFF,
        decreases e - j,
    {
        let ch = path.get_char(j);
        let v = ch as u32;
        if v < 48 || v > 57 {
            proof {
                assert(body[j - b] == path@[j as int]);
                assert(!is_digit(body[j - b]));
                assert(!is_digits(body));
                assert(parse_comp(c) is None);
            }
            return None;
        }
        acc = acc * 10 + ((v - 48) as u64);
        j = j + 1;
        proof {
            assert(path@.subrange(b as int, j as int).drop_last() =~= path@.subrange(
                b as int,
                j as int - 1,
            ));
            assert(path@.subrange(b as int, j as int).last() == path@[j as int - 1]);
        }
        if acc > 0xFFFFFFFF {
            proof {
                if is_digits(body) {
                    lemma_dec_val_prefix(body, j - b);
                    assert(path@.subrange(b as int, j as int) =~= body.subrange(0, j - b));
                }
            }
            return None;
        }
    }
    proof {
        assert(path@.subrange(b as int, j as int) =~= body);
        assert(is_digits(body));
    }
    Some((acc as u32, hardened))
}

/// Whether `path` carries `m/` at position `i`.
fn has_m_slash(path: &str, i: usize, n: usize) -> (r: bool)
    requires
        i <= n,
        n == path@.len(),
    ensures
        r == (n - i >= 2 && path@[i as int] == 'm' && path@[i as int + 1] == '/'),
{
    if n - i < 2 {
        return false;
    }
    let c0 = path.get_char(i);
    let c1 = path.get_char(i + 1);
    c0 == 'm' && c1 == '/'
}

/// Reads the canonical text form of a derivation path into its ordered
/// `(index, hardened)` components. A malformed component is reported by name.
#[verifier::loop_isolation(false)]
pub fn parse_derivation_path(path: &str) -> (r: Result<Vec<(u32, bool)>, CodecError>)
    ensures
        match (r, parse_path_text(path@)) {
            (Ok(v), Some(ps)) => v@ == ps,
            (Err(e), None) => e matches CodecError::PathSyntax(c) && c@ == first_bad_component(
                path@,
            ),
            _ => false,
        },
{
    let n = path.unicode_len();
    let mut i: usize = 0;
    proof {
        assert(path@.subrange(0, n as int) =~= path@);
    }
    // strip every leading `m/`
    while has_m_slash(path, i, n)
        invariant
            i <= n,
            n == path@.len(),
            strip_m(path@) == strip_m(path@.subrange(i as int, n as int)),
        decreases n - i,
    {
        proof {
            let cur = path@.subrange(i as int, n as int);
            assert(cur[0] == path@[i as int]);
            assert(cur[1] == path@[i as int + 1]);
            assert(cur.subrange(2, cur.len() as int) =~= path@.subrange(i as int + 2, n as int));
        }
        i = i + 2;
    }
    proof {
        let cur = path@.subrange(i as int, n as int);
        assert(cur.len() >= 2 ==> cur[0] == path@[i as int] && cur[1] == path@[i as int + 1]);
        assert(strip_m(path@) == cur);
    }
    let ghost full = strip_m(path@);
    let mut out: Vec<(u32, bool)> = Vec::new();
    proof {
        match parse_comps(split_slash(full)) {
            Some(rest) => {
                assert(Seq::<(u32, bool)>::empty() + rest =~= rest);
            },
            None => {},
        }
    }
    let mut done = false;
    while !done
        invariant
            i <= n,
            n == path@.len(),
            !done ==> match parse_comps(split_slash(path@.subrange(i as int, n as int))) {
                Some(rest) => parse_comps(split_slash(full)) == Some(out@ + rest),
                None => {
                    &&& parse_comps(split_slash(full)) is None
                    &&& first_bad(split_slash(full)) == first_bad(
                        split_slash(path@.subrange(i as int, n as int)),
                    )
                },
            },
            done ==> parse_comps(split_slash(full)) == Some(out@),
        decreases n - i + (if done {
            0int
        } else {
            1int
        }),
    {
        let ghost suffix = path@.subrange(i as int, n as int);
        // find the end of the current component
        let mut k = i;
        while k < n && path.get_char(k) != '/'
            invariant
                i <= k <= n,
                n == path@.len(),
                forall|t: int| i <= t < k ==> path@[t] != '/',
            decreases n - k,
        {
            k = k + 1;
        }
        proof {
            assert forall|t: int| 0 <= t < k - i implies suffix[t] != '/' by {
                assert(suffix[t] == path@[i + t]);
            }
            assert(k < n ==> suffix[k - i] == path@[k as int]);
            lemma_first_slash_is(suffix, k - i);
        }
        let comp = parse_component(path, i, k);
        proof {
            assert(suffix.subrange(0, k - i) =~= path@.subrange(i as int, k as int));
        }
        match comp {
            None => {
                proof {
                    if k - i < suffix.len() {
                        assert(split_slash(suffix) == seq![suffix.subrange(0, k - i)]
                            + split_slash(suffix.subrange(k - i + 1, suffix.len() as int)));
                    } else {
                        assert(split_slash(suffix) == seq![suffix]);
                        assert(suffix.subrange(0, k - i) =~= suffix);
                    }
                    assert(split_slash(suffix)[0] == path@.subrange(i as int, k as int));
                    assert(parse_comps(split_slash(suffix)) is None);
                    assert(first_bad(split_slash(suffix)) == path@.subrange(i as int, k as int));
                }
                let text = path.substring_char(i, k).to_owned();
                return Err(CodecError::PathSyntax(text));
            },
            Some(p) => {
                out.push(p);
                if k == n {
                    proof {
                        assert(split_slash(suffix) == seq![suffix]);
                        assert(suffix =~= path@.subrange(i as int, k as int));
                        assert(split_slash(suffix)[0] == suffix);
                        assert(parse_comp(split_slash(suffix)[0]) == Some(p));
                        assert(split_slash(suffix).drop_first() =~= Seq::<Seq<char>>::empty());
                        assert(parse_comps(Seq::<Seq<char>>::empty()) == Some(Seq::<(
                            u32,
                            bool,
                        )>::empty()));
                        assert(parse_comps(split_slash(suffix).drop_first()) == Some(Seq::<(
                            u32,
                            bool,
                        )>::empty()));
                        assert(parse_comps(split_slash(suffix)) == Some(seq![p] + Seq::<(
                            u32,
                            bool,
                        )>::empty()));
                        assert(seq![p] + Seq::<(u32, bool)>::empty() =~= seq![p]);
                        assert(out@.drop_last() + seq![p] =~= out@);
                        assert(out@.drop_last() + (seq![p] + Seq::<(u32, bool)>::empty())
                            =~= out@);
                    }
                    done = true;
                } else {
                    proof {
                        let next = path@.subrange(i as int + ((k - i) as int) + 1, n as int);
                        assert(split_slash(suffix) == seq![suffix.subrange(0, k - i)]
                            + split_slash(suffix.subrange(k - i + 1, suffix.len() as int)));
                        assert(suffix.subrange(k - i + 1, suffix.len() as int) =~= path@.subrange(
                            k as int + 1,
                            n as int,
                        ));
                        assert(split_slash(suffix).drop_first() =~= split_slash(
                            path@.subrange(k as int + 1, n as int),
                        ));
                        match parse_comps(split_slash(path@.subrange(k as int + 1, n as int))) {
                            Some(rest) => {
                                assert(parse_comps(split_slash(suffix)) == Some(
                                    seq![p] + rest,
                                ));
                                assert(out@.drop_last() + (seq![p] + rest) =~= out@ + rest);
                            },
                            None => {},
                        }
                    }
                    i = k + 1;
                }
            },
        }
    }
    proof {
        assert(parse_path_text(path@) == Some(out@));
    }
    Ok(out)
}

// ---------- writing the text form ----------

fn digit_str(d: u32) -> (r: &'static str)
    requires
        d < 10,
    ensures
        r@ == seq![digit_char(d as int)],
{
    proof {
        reveal_strlit("0");
        reveal_strlit("1");
        reveal_strlit("2");
        reveal_strlit("3");
        reveal_strlit("4");
        reveal_strlit("5");
        reveal_strlit("6");
        reveal_strlit("7");
        reveal_strlit("8");
        reveal_strlit("9");
    }
    match d {
        0 => "0",
        1 => "1",
        2 => "2",
        3 => "3",
        4 => "4",
        5 => "5",
        6 => "6",
        7 => "7",
        8 => "8",
        _ => "9",
    }
}

/// Appends the decimal digits of `n` to `out`.
fn push_dec(out: &mut String, n: u32)
    ensures
        final(out)@ == old(out)@ + dec_digits(n as int),
    decreases n,
{
    if n >= 10 {
        push_dec(out, n / 10);
        out.append(digit_str(n % 10));
        assert(out@ =~= old(out)@ + dec_digits(n as int));
    } else {
        out.append(digit_str(n));
        assert(out@ =~= old(out)@ + dec_digits(n as int));
    }
}

/// Writes a component list back to the canonical text form.
pub fn print_path(ps: &Vec<(u32, bool)>) -> (r: String)
    ensures
        r@ == path_to_text(ps@),
{
    proof {
        reveal_strlit("m");
        reveal_strlit("/");
        reveal_strlit("'");
    }
    let mut out = String::from_str("m");
    let mut idx: usize = 0;
    while idx < ps.len()
        invariant
            idx <= ps@.len(),
            out@ == path_to_text(ps@.subrange(0, idx as int)),
        decreases ps@.len() - idx,
    {
        proof {
            reveal_strlit("/");
            reveal_strlit("'");
        }
        out.append("/");
        let (num, hardened) = ps[idx];
        push_dec(&mut out, num);
        if hardened {
            out.append("'");
        }
        idx = idx + 1;
        proof {
            assert(ps@.subrange(0, idx as int).drop_last() =~= ps@.subrange(0, idx as int - 1));
            assert(ps@.subrange(0, idx as int).last() == ps@[idx as int - 1]);
            assert(out@ =~= path_to_text(ps@.subrange(0, idx as int)));
        }
    }
    proof {
        assert(ps@.subrange(0, ps@.len() as int) =~= ps@);
    }
    out
}

// ---------- printing and reading invert each other ----------

/// The text of a component list without its leading `m`: a `/` and one
/// component's text for each component, in order.
pub open spec fn comps_text(ps: Seq<(u32, bool)>) -> Seq<char>
    decreases ps.len(),
{
    if ps.len() == 0 {
        Seq::empty()
    } else {
        seq!['/'] + comp_text(ps[0]) + comps_text(ps.drop_first())
    }
}

proof fn lemma_comps_text_snoc(ps: Seq<(u32, bool)>, p: (u32, bool))
    ensures
        comps_text(ps.push(p)) == comps_text(ps) + seq!['/'] + comp_text(p),
    decreases ps.len(),
{
    if ps.len() == 0 {
        assert(ps.push(p)[0] == p);
        assert(ps.push(p).drop_first() =~= Seq::<(u32, bool)>::empty());
        assert(comps_text(Seq::<(u32, bool)>::empty()) == Seq::<char>::empty());
        assert(comps_text(ps.push(p)) == (seq!['/'] + comp_text(p)) + Seq::<char>::empty());
        assert((seq!['/'] + comp_text(p)) + Seq::<char>::empty() =~= seq!['/'] + comp_text(p));
        assert(comps_text(ps) == Seq::<char>::empty());
        assert(Seq::<char>::empty() + seq!['/'] + comp_text(p) =~= seq!['/'] + comp_text(p));
    } else {
        assert(ps.push(p).drop_first() =~= ps.drop_first().push(p));
        assert(ps.push(p)[0] == ps[0]);
        lemma_comps_text_snoc(ps.drop_first(), p);
        assert((seq!['/'] + comp_text(ps[0])) + (comps_text(ps.drop_first()) + seq!['/']
            + comp_text(p)) =~= ((seq!['/'] + comp_text(ps[0])) + comps_text(ps.drop_first()))
            + seq!['/'] + comp_text(p));
    }
}

proof fn lemma_path_to_text_alt(ps: Seq<(u32, bool)>)
    ensures
        path_to_text(ps) == seq!['m'] + comps_text(ps),
    decreases ps.len(),
{
    if ps.len() == 0 {
        assert(seq!['m'] + comps_text(ps) =~= seq!['m']);
    } else {
        lemma_path_to_text_alt(ps.drop_last());
        lemma_comps_text_snoc(ps.drop_last(), ps.last());
        assert(ps.drop_last().push(ps.last()) =~= ps);
        assert((seq!['m'] + comps_text(ps.drop_last())) + seq!['/'] + comp_text(ps.last())
            =~= seq!['m'] + (comps_text(ps.drop_last()) + seq!['/'] + comp_text(ps.last())));
    }
}

proof fn lemma_dec_digits_props(n: int)
    requires
        0 <= n,
    ensures
        dec_digits(n).len() >= 1,
        forall|j: int| 0 <= j < dec_digits(n).len() ==> is_digit(#[trigger] dec_digits(n)[j]),
        dec_val(dec_digits(n)) == n,
    decreases n,
{
    if n < 10 {
        assert(dec_digits(n) == seq![digit_char(n)]);
        assert(is_digit(digit_char(n)));
        assert(seq![digit_char(n)].drop_last() =~= Seq::<char>::empty());
        assert(seq![digit_char(n)].last() == digit_char(n));
        assert(dec_val(Seq::<char>::empty()) == 0);
        assert(dec_val(seq![digit_char(n)]) == digit_val(digit_char(n)));
        assert(digit_val(digit_char(n)) == n);
    } else {
        lemma_dec_digits_props(n / 10);
        let d = dec_digits(n);
        assert(d == dec_digits(n / 10) + seq![digit_char(n % 10)]);
        assert(d.drop_last() =~= dec_digits(n / 10));
        assert(d.last() == digit_char(n % 10));
        assert(is_digit(digit_char(n % 10)));
        assert forall|j: int| 0 <= j < d.len() implies is_digit(#[trigger] d[j]) by {
            if j < d.len() - 1 {
                assert(d[j] == dec_digits(n / 10)[j]);
            }
        }
        vstd::arithmetic::div_mod::lemma_fundamental_div_mod(n, 10);
    }
}

/// Reading the text of one component yields that component.
proof fn lemma_parse_comp_text(p: (u32, bool))
    ensures
        comp_text(p).len() >= 1,
        is_digit(comp_text(p)[0]),
        forall|j: int| 0 <= j < comp_text(p).len() ==> #[trigger] comp_text(p)[j] != '/',
        parse_comp(comp_text(p)) == Some(p),
{
    lemma_dec_digits_props(p.0 as int);
    let d = dec_digits(p.0 as int);
    let c = comp_text(p);
    assert forall|j: int| 0 <= j < c.len() implies #[trigger] c[j] != '/' by {
        if j < d.len() {
            assert(c[j] == d[j]);
            assert(is_digit(d[j]));
        } else {
            assert(c[j] == '\'');
        }
    }
    if p.1 {
        assert(c.last() == '\'');
        assert(c.drop_last() =~= d);
        assert(d.last() != '\'' && d[0] != '+') by {
            assert(is_digit(d[d.len() - 1]));
            assert(is_digit(d[0]));
        }
        assert(strip_quotes(c) == strip_quotes(d));
        assert(strip_quotes(d) == d);
        assert(c[0] == d[0]);
    } else {
        assert(c =~= d);
        assert(is_digit(d[d.len() - 1]));
        assert(is_digit(d[0]));
        assert(c.last() != '\'');
        assert(strip_quotes(c) == c);
    }
}

/// Reading the joined texts of a component list yields that list.
proof fn lemma_parse_comps_text(ps: Seq<(u32, bool)>)
    requires
        ps.len() >= 1,
    ensures
        parse_comps(split_slash(comp_text(ps[0]) + comps_text(ps.drop_first()))) == Some(ps),
    decreases ps.len(),
{
    let ct = comp_text(ps[0]);
    let t = ct + comps_text(ps.drop_first());
    lemma_parse_comp_text(ps[0]);
    if ps.len() == 1 {
        assert(comps_text(ps.drop_first()) =~= Seq::<char>::empty());
        assert(t =~= ct);
        assert forall|j: int| 0 <= j < t.len() implies t[j] != '/' by {
            assert(ct[j] != '/');
        }
        lemma_first_slash_is(t, t.len() as int);
        assert(split_slash(t) == seq![t]);
        assert(split_slash(t)[0] == t);
        assert(parse_comp(t) == Some(ps[0]));
        assert(split_slash(t).drop_first() =~= Seq::<Seq<char>>::empty());
        assert(parse_comps(Seq::<Seq<char>>::empty()) == Some(Seq::<(u32, bool)>::empty()));
        assert(parse_comps(split_slash(t)) == Some(seq![ps[0]] + Seq::<(u32, bool)>::empty()));
        assert(seq![ps[0]] + Seq::<(u32, bool)>::empty() =~= ps);
    } else {
        let rest = ps.drop_first();
        assert(comps_text(rest) == seq!['/'] + comp_text(rest[0]) + comps_text(rest.drop_first()));
        assert forall|j: int| 0 <= j < ct.len() implies t[j] != '/' by {
            assert(t[j] == ct[j]);
        }
        assert(t[ct.len() as int] == comps_text(rest)[0]);
        assert(comps_text(rest)[0] == '/');
        lemma_first_slash_is(t, ct.len() as int);
        assert(split_slash(t) == seq![t.subrange(0, ct.len() as int)] + split_slash(
            t.subrange(ct.len() as int + 1, t.len() as int),
        ));
        assert(t.subrange(0, ct.len() as int) =~= ct);
        let t2 = comp_text(rest[0]) + comps_text(rest.drop_first());
        assert forall|j: int| 0 <= j < t2.len() implies t.subrange(
            ct.len() as int + 1,
            t.len() as int,
        )[j] == t2[j] by {
            assert(t[ct.len() + 1 + j] == comps_text(rest)[1 + j]);
            assert(comps_text(rest)[1 + j] == (comp_text(rest[0]) + comps_text(
                rest.drop_first(),
            ))[j]);
        }
        assert(t.subrange(ct.len() as int + 1, t.len() as int) =~= t2);
        lemma_parse_comps_text(rest);
        assert(split_slash(t)[0] == ct);
        assert(parse_comp(split_slash(t)[0]) == Some(ps[0]));
        assert(split_slash(t).drop_first() =~= split_slash(t2));
        assert(parse_comps(split_slash(t)) == Some(seq![ps[0]] + rest));
        assert(seq![ps[0]] + rest =~= ps);
    }
}

/// A parsed path always has at least one component.
pub proof fn lemma_parse_path_nonempty(s: Seq<char>)
    ensures
        parse_path_text(s) matches Some(ps) ==> ps.len() >= 1,
{
    let cs = split_slash(strip_m(s));
    assert(cs.len() >= 1);
}

/// Law: writing any non-empty component list to text and reading the text
/// back yields the same ordered components; the textual form loses nothing.
pub proof fn lemma_print_parse_inverse(ps: Seq<(u32, bool)>)
    requires
        ps.len() >= 1,
    ensures
        parse_path_text(path_to_text(ps)) == Some(ps),
{
    lemma_path_to_text_alt(ps);
    let t = seq!['m'] + comps_text(ps);
    let inner = comp_text(ps[0]) + comps_text(ps.drop_first());
    lemma_parse_comp_text(ps[0]);
    assert(comps_text(ps) == seq!['/'] + comp_text(ps[0]) + comps_text(ps.drop_first()));
    assert(t[0] == 'm');
    assert(t[1] == comps_text(ps)[0]);
    assert(comps_text(ps)[0] == '/');
    assert(t.subrange(2, t.len() as int) =~= inner);
    assert(strip_m(t) == strip_m(inner));
    assert(inner[0] == comp_text(ps[0])[0]);
    assert(is_digit(inner[0]));
    assert(inner[0] != 'm');
    assert(strip_m(inner) == inner);
    lemma_parse_comps_text(ps);
}

/// The fallback path's components, as a value.
pub fn default_path_components() -> (r: Vec<(u32, bool)>)
    ensures
        r@ == default_comps(),
{
    let mut v: Vec<(u32, bool)> = Vec::new();
    v.push((44, true));
    v.push((195, true));
    v.push((0, true));
    v.push((0, false));
    v.push((0, false));
    assert(v@ =~= default_comps());
    v
}

} // verus!
