use vstd::prelude::*;
use vstd::string::*;

verus! {

/// The characters with Unicode's White_Space property, which `str::trim`
/// strips.
pub open spec fn is_white(c: char) -> bool {
    let v = c as u32;
    (9 <= v <= 13) || v == 32 || v == 0x85 || v == 0xa0 || v == 0x1680 || (0x2000 <= v <= 0x200a) || v
        == 0x2028 || v == 0x2029 || v == 0x202f || v == 0x205f || v == 0x3000
}

/// `s` without its leading white space.
pub open spec fn trim_start(s: Seq<char>) -> Seq<char>
    decreases s.len(),
{
    if s.len() > 0 && is_white(s[0]) {
        trim_start(s.drop_first())
    } else {
        s
    }
}

/// `s` without its trailing white space.
pub open spec fn trim_end(s: Seq<char>) -> Seq<char>
    decreases s.len(),
{
    if s.len() > 0 && is_white(s.last()) {
        trim_end(s.drop_last())
    } else {
        s
    }
}

/// `s` without white space at either end.
pub open spec fn trimmed(s: Seq<char>) -> Seq<char> {
    trim_end(trim_start(s))
}

pub open spec fn is_digit(c: char) -> bool {
    48 <= (c as u32) <= 57
}

/// The number that a string of decimal digits writes.
pub open spec fn digits_value(t: Seq<char>) -> nat
    decreases t.len(),
{
    if t.len() == 0 {
        0
    } else {
        digits_value(t.drop_last()) * 10 + ((t.last() as u32) - 48) as nat
    }
}

/// The digits of an unsigned number, after an optional `+`.
pub open spec fn unsigned_body(t: Seq<char>) -> Seq<char> {
    if t.len() > 0 && t[0] == '+' {
        t.drop_first()
    } else {
        t
    }
}

/// The slot that a reply names: the reply, trimmed, is an optional `+`
/// followed by one or more decimal digits, and the number fits in `usize`.
/// Any other reply names no slot.
pub open spec fn guess_of(s: Seq<char>) -> Option<usize> {
    let body = unsigned_body(trimmed(s));
    if body.len() > 0 && (forall|i: int| 0 <= i < body.len() ==> is_digit(#[trigger] body[i])) && digits_value(
        body,
    ) <= usize::MAX {
        Some(digits_value(body) as usize)
    } else {
        None
    }
}

/// The reply turns down another game: it is `N` or `n`, trimmed.
pub open spec fn declines(s: Seq<char>) -> bool {
    trimmed(s) == seq!['N'] || trimmed(s) == seq!['n']
}

/// A longer run of digits writes a number at least as large.
proof fn lemma_digits_value_prefix(t: Seq<char>, k: int)
    requires
        0 <= k <= t.len(),
        forall|i: int| 0 <= i < t.len() ==> is_digit(#[trigger] t[i]),
    ensures
        digits_value(t.subrange(0, k)) <= digits_value(t),
    decreases t.len() - k,
{
    if k < t.len() {
        lemma_digits_value_prefix(t, k + 1);
        let next = t.subrange(0, k + 1);
        assert(next.drop_last() =~= t.subrange(0, k));
        assert(is_digit(t[k]));
    } else {
        assert(t.subrange(0, k) =~= t);
    }
}

fn is_white_char(c: char) -> (r: bool)
    ensures
        r == is_white(c),
{
    let v = c as u32;
    (9 <= v && v <= 13) || v == 32 || v == 0x85 || v == 0xa0 || v == 0x1680 || (0x2000 <= v && v <= 0x200a)
        || v == 0x2028 || v == 0x2029 || v == 0x202f || v == 0x205f || v == 0x3000
}

/// The bounds of `s` without white space at either end.
fn trim_bounds(s: &str) -> (r: (usize, usize))
    ensures
        r.0 <= r.1 <= s@.len(),
        trimmed(s@) == s@.subrange(r.0 as int, r.1 as int),
{
    let n = s.unicode_len();
    let mut lo: usize = 0;
    assert(s@.subrange(0, n as int) =~= s@);
    while lo < n && is_white_char(s.get_char(lo))
        invariant
            lo <= n,
            n == s@.len(),
            trim_start(s@) == trim_start(s@.subrange(lo as int, n as int)),
        decreases n - lo,
    {
        assert(s@.subrange(lo as int, n as int).drop_first() =~= s@.subrange(lo + 1, n as int));
        lo = lo + 1;
    }
    proof {
        let rest = s@.subrange(lo as int, n as int);
        if lo < n {
            assert(rest[0] == s@[lo as int]);
        }
    }
    let mut hi: usize = n;
    while hi > lo && is_white_char(s.get_char(hi - 1))
        invariant
            lo <= hi <= n,
            n == s@.len(),
            trim_start(s@) == s@.subrange(lo as int, n as int),
            trimmed(s@) == trim_end(s@.subrange(lo as int, hi as int)),
        decreases hi,
    {
        assert(s@.subrange(lo as int, hi as int).drop_last() =~= s@.subrange(lo as int, hi - 1));
        hi = hi - 1;
    }
    proof {
        let rest = s@.subrange(lo as int, hi as int);
        if lo < hi {
            assert(rest.last() == s@[hi - 1]);
        }
    }
    (lo, hi)
}

/// The slot that the predictor's reply names, if it names one.
pub fn parse_guess(reply: &str) -> (r: Option<usize>)
    ensures
        r == guess_of(reply@),
{
    let (lo, hi) = trim_bounds(reply);
    let ghost t = reply@.subrange(lo as int, hi as int);
    let mut start = lo;
    if lo < hi && reply.get_char(lo) == '+' {
        start = lo + 1;
    }
    let ghost body = reply@.subrange(start as int, hi as int);
    assert(body =~= unsigned_body(t));
    assert(unsigned_body(trimmed(reply@)) == body);
    if start == hi {
        return None;
    }
    let mut value: usize = 0;
    let mut i: usize = start;
    while i < hi
        invariant
            start <= i <= hi <= reply@.len(),
            body == reply@.subrange(start as int, hi as int),
            unsigned_body(trimmed(reply@)) == body,
            forall|k: int| 0 <= k < i - start ==> is_digit(#[trigger] body[k]),
            value == digits_value(body.subrange(0, i - start)),
        decreases hi - i,
    {
        let c = reply.get_char(i);
        let v = c as u32;
        if v < 48 || v > 57 {
            assert(!is_digit(body[i - start]));
            return None;
        }
        let d = (v - 48) as usize;
        assert(body.subrange(0, i + 1 - start).drop_last() =~= body.subrange(0, i - start));
        assert(body.subrange(0, i + 1 - start).last() == c);
        assert(digits_value(body.subrange(0, i + 1 - start)) == value * 10 + d);
        if value > (usize::MAX - d) / 10 {
            proof {
                assert(value * 10 + d > usize::MAX) by (nonlinear_arith)
                    requires
                        value > (usize::MAX - d) / 10,
                        d <= 9,
                ;
                if forall|k: int| 0 <= k < body.len() ==> is_digit(#[trigger] body[k]) {
                    lemma_digits_value_prefix(body, i + 1 - start);
                }
            }
            return None;
        }
        assert(value * 10 + d <= usize::MAX) by (nonlinear_arith)
            requires
                value <= (usize::MAX - d) / 10,
                d <= 9,
        ;
        value = value * 10 + d;
        i = i + 1;
    }
    assert(body.subrange(0, body.len() as int) =~= body);
    Some(value)
}

/// Whether the reply turns down another game.
pub fn declines_replay(reply: &str) -> (r: bool)
    ensures
        r == declines(reply@),
{
    let (lo, hi) = trim_bounds(reply);
    if hi - lo != 1 {
        assert(reply@.subrange(lo as int, hi as int).len() != 1);
        return false;
    }
    let c = reply.get_char(lo);
    assert(reply@.subrange(lo as int, hi as int) =~= seq![c]);
    proof {
        if seq![c] == seq!['N'] {
            assert(seq![c][0] == seq!['N'][0]);
        }
        if seq![c] == seq!['n'] {
            assert(seq![c][0] == seq!['n'][0]);
        }
    }
    c == 'N' || c == 'n'
}

} // verus!
