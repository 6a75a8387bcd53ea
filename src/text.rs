//! Decimal numbers and length-prefixed strings over character sequences.

use vstd::prelude::*;
use vstd::std_specs::iter::IteratorSpec;

verus! {

/// Relies on `String::push`: appends one character.
#[verifier::external_body]
pub(crate) fn push_char(s: &mut String, c: char)
    ensures
        final(s)@ == old(s)@.push(c),
{
    s.push(c)
}

/// The characters of `s`, in order.
pub(crate) fn chars_of(s: &str) -> (r: Vec<char>)
    ensures
        r@ == s@,
{
    broadcast use vstd::string::axiom_spec_iter, vstd::string::next_postcondition;
    let mut it = s.chars();
    let mut out: Vec<char> = Vec::new();
    loop
        invariant
            it.obeys_prophetic_iter_laws(),
            out@ + it.remaining() == s@,
            it.decrease() is Some,
        ensures
            out@ == s@,
        decreases s@.len() - out@.len(),
    {
        match it.next() {
            Some(c) => {
                out.push(c);
                assert(out@ + it.remaining() =~= s@);
            },
            None => {
                assert(out@ =~= s@);
                break;
            },
        }
    }
    out
}

/// A string holding the characters `s[from..to]`.
pub(crate) fn string_of(s: &Vec<char>, from: usize, to: usize) -> (r: String)
    requires
        from <= to <= s@.len(),
    ensures
        r@ == s@.subrange(from as int, to as int),
{
    let mut out = String::new();
    let mut i = from;
    while i < to
        invariant
            from <= i <= to <= s@.len(),
            out@ == s@.subrange(from as int, i as int),
        decreases to - i,
    {
        push_char(&mut out, s[i]);
        i = i + 1;
        assert(out@ =~= s@.subrange(from as int, i as int));
    }
    out
}

pub open spec fn is_digit(c: char) -> bool {
    '0' <= c && c <= '9'
}

pub open spec fn digit_value(c: char) -> nat {
    (c as nat - '0' as nat) as nat
}

pub open spec fn digit_char(d: nat) -> char
    recommends
        d < 10,
{
    ((d + '0' as nat) as u32) as char
}

/// The shortest decimal spelling of `n`.
pub open spec fn dec(n: nat) -> Seq<char>
    decreases n,
{
    if n < 10 {
        seq![digit_char(n)]
    } else {
        dec(n / 10).push(digit_char(n % 10))
    }
}

/// The value of a run of decimal digits.
pub open spec fn digits_value(ds: Seq<char>) -> nat
    decreases ds.len(),
{
    if ds.len() == 0 {
        0
    } else {
        digits_value(ds.drop_last()) * 10 + digit_value(ds.last())
    }
}

/// The first position at or after `p` that does not hold a digit.
pub open spec fn digits_end(s: Seq<char>, p: int) -> int
    decreases s.len() - p,
{
    if 0 <= p < s.len() && is_digit(s[p]) {
        digits_end(s, p + 1)
    } else {
        p
    }
}

/// A number spelled at `p` and closed by `close`: its value and the position after `close`.
pub open spec fn parse_number(s: Seq<char>, p: int, close: char) -> Option<(nat, int)> {
    let e = digits_end(s, p);
    let v = digits_value(s.subrange(p, e));
    if 0 <= p < e && e < s.len() && s[e] == close && v <= usize::MAX {
        Some((v, e + 1))
    } else {
        None
    }
}

/// A number in the store's text: its digits, then `;`.
pub open spec fn enc_nat(n: nat) -> Seq<char> {
    dec(n) + seq![';']
}

/// A string in the store's text: its length in characters, `:`, then the characters.
pub open spec fn enc_str(s: Seq<char>) -> Seq<char> {
    dec(s.len()) + seq![':'] + s
}

pub open spec fn parse_nat(s: Seq<char>, p: int) -> Option<(nat, int)> {
    parse_number(s, p, ';')
}

pub open spec fn parse_str(s: Seq<char>, p: int) -> Option<(Seq<char>, int)> {
    match parse_number(s, p, ':') {
        Some((n, q)) => if q + n <= s.len() {
            Some((s.subrange(q, q + n), q + n))
        } else {
            None
        },
        None => None,
    }
}

proof fn lemma_dec_digits(n: nat)
    ensures
        dec(n).len() >= 1,
        forall|i: int| 0 <= i < dec(n).len() ==> is_digit(#[trigger] dec(n)[i]),
        digits_value(dec(n)) == n,
    decreases n,
{
    assert(digit_value(digit_char(n % 10)) == n % 10);
    if n >= 10 {
        lemma_dec_digits(n / 10);
        assert(dec(n).drop_last() =~= dec(n / 10));
        assert((n / 10) * 10 + n % 10 == n) by (nonlinear_arith);
        assert(dec(n).last() == digit_char(n % 10));
    } else {
        assert(dec(n).drop_last() =~= Seq::<char>::empty());
        assert(digits_value(Seq::<char>::empty()) == 0);
    }
}

proof fn lemma_digits_end(s: Seq<char>, p: int, k: int)
    requires
        0 <= p,
        0 <= k,
        p + k <= s.len(),
        forall|i: int| p <= i < p + k ==> is_digit(#[trigger] s[i]),
    ensures
        digits_end(s, p) == digits_end(s, p + k),
    decreases k,
{
    if k > 0 {
        lemma_digits_end(s, p + 1, k - 1);
    }
}

/// Reading a number back at the place where it was written.
pub proof fn lemma_parse_number(s: Seq<char>, p: int, n: nat, close: char)
    requires
        0 <= p,
        n <= usize::MAX,
        !is_digit(close),
        p + dec(n).len() < s.len(),
        s.subrange(p, p + dec(n).len()) == dec(n),
        s[p + dec(n).len()] == close,
    ensures
        parse_number(s, p, close) == Some((n, p + dec(n).len() + 1)),
{
    let k = dec(n).len() as int;
    lemma_dec_digits(n);
    assert forall|i: int| p <= i < p + k implies is_digit(#[trigger] s[i]) by {
        assert(s[i] == s.subrange(p, p + k)[i - p]);
    }
    lemma_digits_end(s, p, k);
}

pub proof fn lemma_parse_nat(s: Seq<char>, p: int, n: nat)
    requires
        0 <= p,
        n <= usize::MAX,
        p + enc_nat(n).len() <= s.len(),
        s.subrange(p, p + enc_nat(n).len()) == enc_nat(n),
    ensures
        parse_nat(s, p) == Some((n, p + enc_nat(n).len())),
{
    let k = dec(n).len() as int;
    assert(s.subrange(p, p + k) =~= s.subrange(p, p + enc_nat(n).len()).subrange(0, k));
    assert(s.subrange(p, p + enc_nat(n).len()).subrange(0, k) =~= dec(n));
    assert(s[p + k] == s.subrange(p, p + enc_nat(n).len())[k]);
    lemma_parse_number(s, p, n, ';');
}

pub proof fn lemma_parse_str(s: Seq<char>, p: int, t: Seq<char>)
    requires
        0 <= p,
        t.len() <= usize::MAX,
        p + enc_str(t).len() <= s.len(),
        s.subrange(p, p + enc_str(t).len()) == enc_str(t),
    ensures
        parse_str(s, p) == Some((t, p + enc_str(t).len())),
{
    let k = dec(t.len()).len() as int;
    let whole = s.subrange(p, p + enc_str(t).len());
    assert(s.subrange(p, p + k) =~= whole.subrange(0, k));
    assert(whole.subrange(0, k) =~= dec(t.len()));
    assert(s[p + k] == whole[k]);
    lemma_parse_number(s, p, t.len(), ':');
    assert(s.subrange(p + k + 1, p + k + 1 + t.len()) =~= whole.subrange(k + 1, k + 1 + t.len()));
}

/// Appends the decimal spelling of `n`.
pub(crate) fn write_dec(out: &mut String, n: usize)
    ensures
        final(out)@ == old(out)@ + dec(n as nat),
    decreases n,
{
    if n >= 10 {
        write_dec(out, n / 10);
    }
    let d = n % 10;
    let c = ((d as u8) + 48) as char;
    assert(c == digit_char((n % 10) as nat));
    push_char(out, c);
    assert(final(out)@ =~= old(out)@ + dec(n as nat));
}

pub(crate) fn write_nat(out: &mut String, n: usize)
    ensures
        final(out)@ == old(out)@ + enc_nat(n as nat),
{
    write_dec(out, n);
    push_char(out, ';');
    assert(final(out)@ =~= old(out)@ + enc_nat(n as nat));
}

pub(crate) fn write_str(out: &mut String, t: &str)
    ensures
        final(out)@ == old(out)@ + enc_str(t@),
{
    let n = t.unicode_len();
    write_dec(out, n);
    push_char(out, ':');
    out.append(t);
    assert(final(out)@ =~= old(out)@ + enc_str(t@));
}

proof fn lemma_digits_value_grows(s: Seq<char>, p: int, i: int, j: int)
    requires
        0 <= p <= i <= j <= s.len(),
    ensures
        digits_value(s.subrange(p, i)) <= digits_value(s.subrange(p, j)),
    decreases j - i,
{
    if i < j {
        lemma_digits_value_grows(s, p, i, j - 1);
        assert(s.subrange(p, j).drop_last() =~= s.subrange(p, j - 1));
    }
}

proof fn lemma_digits_end_bounds(s: Seq<char>, p: int)
    requires
        0 <= p <= s.len(),
    ensures
        p <= digits_end(s, p) <= s.len(),
        forall|i: int| p <= i < digits_end(s, p) ==> is_digit(#[trigger] s[i]),
    decreases s.len() - p,
{
    if p < s.len() && is_digit(s[p]) {
        lemma_digits_end_bounds(s, p + 1);
    }
}

/// Reads a number closed by `close` at position `p` of `s`.
pub(crate) fn read_number(s: &Vec<char>, p: usize, close: char) -> (r: Option<(usize, usize)>)
    ensures
        match parse_number(s@, p as int, close) {
            Some((v, q)) => r == Some((v as usize, q as usize)),
            None => r is None,
        },
{
    let ghost sv = s@;
    let len = s.len();
    if p >= len {
        return None;
    }
    proof {
        lemma_digits_end_bounds(sv, p as int);
        assert(sv.subrange(p as int, p as int) =~= Seq::<char>::empty());
    }
    let mut i: usize = p;
    let mut acc: usize = 0;
    let mut overflow = false;
    while i < len
        invariant
            len == sv.len(),
            sv == s@,
            p <= i <= len,
            i <= digits_end(sv, p as int),
            digits_end(sv, p as int) == digits_end(sv, i as int),
            !overflow ==> acc == digits_value(sv.subrange(p as int, i as int)),
            overflow ==> digits_value(sv.subrange(p as int, i as int)) > usize::MAX,
        ensures
            i == len || !is_digit(sv[i as int]),
        decreases len - i,
    {
        let c = s[i];
        if !('0' <= c && c <= '9') {
            break;
        }
        proof {
            assert(is_digit(sv[i as int]));
            lemma_digits_end_bounds(sv, i + 1);
            assert(sv.subrange(p as int, i + 1).drop_last() =~= sv.subrange(p as int, i as int));
            lemma_digits_value_grows(sv, p as int, i as int, i + 1);
        }
        if !overflow {
            let d = (c as u32 - 48) as usize;
            if acc > (usize::MAX - d) / 10 {
                overflow = true;
                assert(acc * 10 + d > usize::MAX) by (nonlinear_arith)
                    requires acc > (usize::MAX - d) / 10, d <= 9;
            } else {
                assert(acc * 10 + d <= usize::MAX) by (nonlinear_arith)
                    requires acc <= (usize::MAX - d) / 10, d <= 9;
                acc = acc * 10 + d;
            }
        }
        i = i + 1;
    }
    let e = i;
    if overflow || e == p || e >= len {
        return None;
    }
    let c = s[e];
    if c != close {
        return None;
    }
    Some((acc, e + 1))
}

pub(crate) fn read_nat(s: &Vec<char>, p: usize) -> (r: Option<(usize, usize)>)
    ensures
        match parse_nat(s@, p as int) {
            Some((v, q)) => r == Some((v as usize, q as usize)),
            None => r is None,
        },
{
    read_number(s, p, ';')
}

pub(crate) fn read_str(s: &Vec<char>, p: usize) -> (r: Option<(String, usize)>)
    ensures
        match parse_str(s@, p as int) {
            Some((t, q)) => r matches Some((rt, rq)) && rt@ == t && rq == q,
            None => r is None,
        },
{
    let len = s.len();
    match read_number(s, p, ':') {
        Some((n, q)) => {
            if n > len || q > len - n {
                None
            } else {
                let t = string_of(s, q, q + n);
                Some((t, q + n))
            }
        },
        None => None,
    }
}

} // verus!
