//! Decimal text: turning integers into their canonical decimal literals,
//! reading integers out of command tokens, and recognising the decimal
//! shape that may stand on the wire as a number.

use vstd::prelude::*;

verus! {

broadcast use vstd::seq::group_seq_axioms;

pub open spec fn is_digit(c: char) -> bool {
    '0' <= c && c <= '9'
}

pub open spec fn digit_val(c: char) -> int {
    (c as u32) as int - ('0' as u32) as int
}

pub open spec fn digit_char(d: int) -> char {
    if d == 0 { '0' } else if d == 1 { '1' } else if d == 2 { '2' } else if d == 3 { '3' }
    else if d == 4 { '4' } else if d == 5 { '5' } else if d == 6 { '6' } else if d == 7 { '7' }
    else if d == 8 { '8' } else { '9' }
}

/// The decimal digits of `n`, most significant first.
pub open spec fn dec_digits(n: nat) -> Seq<char>
    decreases n,
{
    if n < 10 {
        seq![digit_char(n as int)]
    } else {
        dec_digits(n / 10) + seq![digit_char((n % 10) as int)]
    }
}

/// The decimal literal of `n`, with a leading minus sign when negative.
pub open spec fn dec_int(n: int) -> Seq<char> {
    if n < 0 {
        seq!['-'] + dec_digits((-n) as nat)
    } else {
        dec_digits(n as nat)
    }
}

pub proof fn lemma_dec_digits_all_digits(n: nat)
    ensures
        dec_digits(n).len() > 0,
        forall|k: int| 0 <= k < dec_digits(n).len() ==> is_digit(#[trigger] dec_digits(n)[k]),
    decreases n,
{
    if n >= 10 {
        lemma_dec_digits_all_digits(n / 10);
    }
}

/// Decimal literals are well-formed wire number literals.
pub proof fn lemma_dec_int_valid(n: int)
    ensures
        crate::json::valid_num_lit(dec_int(n)),
{
    if n < 0 {
        lemma_dec_digits_all_digits((-n) as nat);
        assert forall|k: int| 0 <= k < dec_int(n).len() implies crate::json::num_char(
            #[trigger] dec_int(n)[k],
        ) by {
            if k > 0 {
                assert(dec_int(n)[k] == dec_digits((-n) as nat)[k - 1]);
            }
        }
    } else {
        lemma_dec_digits_all_digits(n as nat);
        assert(dec_int(n)[0] == dec_digits(n as nat)[0]);
        assert(is_digit(dec_int(n)[0]));
        assert forall|k: int| 0 <= k < dec_int(n).len() implies crate::json::num_char(
            #[trigger] dec_int(n)[k],
        ) by {
            assert(is_digit(dec_digits(n as nat)[k]));
        }
    }
}

fn digit_char_ex(d: u8) -> (c: char)
    requires
        d < 10,
    ensures
        c == digit_char(d as int),
{
    if d == 0 { '0' } else if d == 1 { '1' } else if d == 2 { '2' } else if d == 3 { '3' }
    else if d == 4 { '4' } else if d == 5 { '5' } else if d == 6 { '6' } else if d == 7 { '7' }
    else if d == 8 { '8' } else { '9' }
}

fn push_dec_u64(n: u64, out: &mut Vec<char>)
    ensures
        final(out)@ == old(out)@ + dec_digits(n as nat),
    decreases n,
{
    if n >= 10 {
        push_dec_u64(n / 10, out);
    }
    out.push(digit_char_ex((n % 10) as u8));
    proof {
        assert(out@ =~= old(out)@ + dec_digits(n as nat));
    }
}

/// The canonical decimal text of `n`.
pub fn u64_to_string(n: u64) -> (r: String)
    ensures
        r@ == dec_digits(n as nat),
{
    let mut out: Vec<char> = Vec::new();
    push_dec_u64(n, &mut out);
    crate::strutil::chars_to_string(&out)
}

/// The canonical decimal text of `n`, signed.
pub fn i32_to_string(n: i32) -> (r: String)
    ensures
        r@ == dec_int(n as int),
{
    if n < 0 {
        let mut out: Vec<char> = Vec::new();
        out.push('-');
        let m: u64 = (-(n as i64)) as u64;
        push_dec_u64(m, &mut out);
        proof {
            assert(out@ =~= dec_int(n as int));
        }
        crate::strutil::chars_to_string(&out)
    } else {
        let mut out: Vec<char> = Vec::new();
        push_dec_u64(n as u64, &mut out);
        crate::strutil::chars_to_string(&out)
    }
}

// ---------------------------------------------------------------------------
// Reading integers out of tokens
// ---------------------------------------------------------------------------

/// The value of a digit string, most significant first.
pub open spec fn digits_val(s: Seq<char>) -> int
    decreases s.len(),
{
    if s.len() == 0 {
        0
    } else {
        digits_val(s.drop_last()) * 10 + digit_val(s.last())
    }
}

pub open spec fn all_digits(s: Seq<char>) -> bool {
    forall|k: int| 0 <= k < s.len() ==> is_digit(#[trigger] s[k])
}

/// What an unsigned decimal token means: an optional `+` sign, then one
/// or more digits, the whole value fitting in a `u64`.
pub open spec fn spec_parse_u64(s: Seq<char>) -> Option<u64> {
    let t = if s.len() > 0 && s[0] == '+' {
        s.drop_first()
    } else {
        s
    };
    if t.len() > 0 && all_digits(t) && digits_val(t) <= u64::MAX {
        Some(digits_val(t) as u64)
    } else {
        None
    }
}

/// What a signed decimal token means, within `i32` range.
pub open spec fn spec_parse_i32(s: Seq<char>) -> Option<i32> {
    let neg = s.len() > 0 && s[0] == '-';
    let t = if s.len() > 0 && (s[0] == '+' || s[0] == '-') {
        s.drop_first()
    } else {
        s
    };
    if t.len() > 0 && all_digits(t) {
        let v = if neg {
            -digits_val(t)
        } else {
            digits_val(t)
        };
        if i32::MIN <= v <= i32::MAX {
            Some(v as i32)
        } else {
            None
        }
    } else {
        None
    }
}

proof fn lemma_digits_val_nonneg(s: Seq<char>)
    requires
        all_digits(s),
    ensures
        digits_val(s) >= 0,
    decreases s.len(),
{
    if s.len() > 0 {
        assert(all_digits(s.drop_last()));
        lemma_digits_val_nonneg(s.drop_last());
        assert(is_digit(s.last()));
    }
}

/// A digit string's value only grows as more digits follow.
proof fn lemma_digits_val_prefix(s: Seq<char>, i: int)
    requires
        all_digits(s),
        0 <= i <= s.len(),
    ensures
        digits_val(s.take(i)) <= digits_val(s),
    decreases s.len() - i,
{
    if i < s.len() {
        lemma_digits_val_prefix(s, i + 1);
        let p = s.take(i);
        let q = s.take(i + 1);
        assert(q.drop_last() =~= p);
        assert(q.last() == s[i]);
        assert(all_digits(p));
        lemma_digits_val_nonneg(p);
        assert(is_digit(s[i]));
        assert(digits_val(q) == digits_val(p) * 10 + digit_val(s[i]));
        assert(digits_val(p) <= digits_val(q));
    } else {
        assert(s.take(i) =~= s);
    }
}

/// Reads the digit run `t` as a `u64`, detecting overflow exactly.
#[verifier::loop_isolation(false)]
fn digits_to_u64(t: &Vec<char>) -> (r: Option<u64>)
    requires
        t.len() > 0,
        all_digits(t@),
    ensures
        match r {
            Some(v) => digits_val(t@) <= u64::MAX && v as int == digits_val(t@),
            None => digits_val(t@) > u64::MAX,
        },
{
    let mut n: u64 = 0;
    let mut i: usize = 0;
    while i < t.len()
        invariant
            0 <= i <= t.len(),
            n as int == digits_val(t@.take(i as int)),
        decreases t.len() - i,
    {
        let c = t[i];
        let d: u64 = (c as u32 as u64) - ('0' as u32 as u64);
        proof {
            assert(is_digit(t@[i as int]));
            assert(d as int == digit_val(t@[i as int]));
        }
        if n > (u64::MAX - d) / 10 {
            proof {
                let q = t@.take(i + 1 as int);
                assert(q.drop_last() =~= t@.take(i as int));
                assert(q.last() == t@[i as int]);
                assert(digits_val(q) == (n as int) * 10 + (d as int));
                assert(digits_val(q) > u64::MAX);
                lemma_digits_val_prefix(t@, i + 1 as int);
            }
            return None;
        }
        proof {
            let q = t@.take(i + 1 as int);
            assert(q.drop_last() =~= t@.take(i as int));
            assert(q.last() == t@[i as int]);
        }
        n = n * 10 + d;
        i = i + 1;
    }
    proof {
        assert(t@.take(t@.len() as int) =~= t@);
    }
    Some(n)
}

/// Splits a token into its sign and digit run, if it has that shape.
#[verifier::loop_isolation(false)]
fn split_signed(s: &str) -> (r: Option<(bool, Vec<char>)>)
    ensures
        match r {
            Some((neg, t)) => {
                &&& s@.len() > 0
                &&& neg == (s@[0] == '-')
                &&& t@ == (if s@[0] == '+' || s@[0] == '-' {
                    s@.drop_first()
                } else {
                    s@
                })
                &&& t@.len() > 0
                &&& all_digits(t@)
            },
            None => {
                let t = if s@.len() > 0 && (s@[0] == '+' || s@[0] == '-') {
                    s@.drop_first()
                } else {
                    s@
                };
                t.len() == 0 || !all_digits(t)
            },
        },
{
    let cs = crate::strutil::str_to_chars(s);
    if cs.len() == 0 {
        return None;
    }
    let neg = cs[0] == '-';
    let start: usize = if cs[0] == '+' || cs[0] == '-' {
        1
    } else {
        0
    };
    let mut t: Vec<char> = Vec::new();
    let mut i: usize = start;
    while i < cs.len()
        invariant
            start <= i <= cs.len(),
            t@ == cs@.subrange(start as int, i as int),
            all_digits(t@),
        decreases cs.len() - i,
    {
        let c = cs[i];
        if !('0' <= c && c <= '9') {
            proof {
                let full = cs@.subrange(start as int, cs@.len() as int);
                assert(!is_digit(full[i - start]));
                if start == 1 {
                    assert(full =~= s@.drop_first());
                } else {
                    assert(full =~= s@);
                }
            }
            return None;
        }
        t.push(c);
        proof {
            assert(t@ =~= cs@.subrange(start as int, i + 1 as int));
        }
        i = i + 1;
    }
    if t.len() == 0 {
        return None;
    }
    proof {
        if start == 1 {
            assert(t@ =~= s@.drop_first());
        } else {
            assert(t@ =~= s@);
        }
    }
    Some((neg, t))
}

/// Reads a token as an unsigned integer, exactly as
/// [`spec_parse_u64`] says.
pub fn parse_u64(s: &str) -> (r: Option<u64>)
    ensures
        r == spec_parse_u64(s@),
{
    match split_signed(s) {
        None => None,
        Some((neg, t)) => {
            if neg {
                return None;
            }
            proof {
                lemma_digits_val_nonneg(t@);
            }
            digits_to_u64(&t)
        },
    }
}

/// Reads a token as a signed integer, exactly as [`spec_parse_i32`]
/// says.
pub fn parse_i32(s: &str) -> (r: Option<i32>)
    ensures
        r == spec_parse_i32(s@),
{
    match split_signed(s) {
        None => None,
        Some((neg, t)) => {
            proof {
                lemma_digits_val_nonneg(t@);
            }
            match digits_to_u64(&t) {
                None => None,
                Some(v) => {
                    if neg {
                        if v <= 2147483648u64 {
                            Some((-(v as i64)) as i32)
                        } else {
                            None
                        }
                    } else {
                        if v <= 2147483647u64 {
                            Some(v as i32)
                        } else {
                            None
                        }
                    }
                },
            }
        },
    }
}

// ---------------------------------------------------------------------------
// Decimal tokens
// ---------------------------------------------------------------------------

/// Scans the body of a decimal token: digits with at most one point
/// between digits.
pub open spec fn dec_body(s: Seq<char>, i: int, seen_dot: bool, last_digit: bool) -> bool
    decreases s.len() - i,
{
    if !(0 <= i < s.len()) {
        last_digit
    } else if is_digit(s[i]) {
        dec_body(s, i + 1, seen_dot, true)
    } else if s[i] == '.' && !seen_dot && last_digit {
        dec_body(s, i + 1, true, false)
    } else {
        false
    }
}

/// A token that may stand on the wire as a number: an optional minus
/// sign, digits, and at most one decimal point with digits on both
/// sides.
pub open spec fn decimal_token(s: Seq<char>) -> bool {
    let t = if s.len() > 0 && s[0] == '-' {
        s.drop_first()
    } else {
        s
    };
    t.len() > 0 && is_digit(t[0]) && dec_body(t, 0, false, false)
}

proof fn lemma_dec_body_chars(s: Seq<char>, i: int, seen_dot: bool, last_digit: bool)
    requires
        dec_body(s, i, seen_dot, last_digit),
        0 <= i <= s.len(),
    ensures
        forall|k: int| i <= k < s.len() ==> is_digit(#[trigger] s[k]) || s[k] == '.',
    decreases s.len() - i,
{
    if i < s.len() {
        if is_digit(s[i]) {
            lemma_dec_body_chars(s, i + 1, seen_dot, true);
        } else {
            lemma_dec_body_chars(s, i + 1, true, false);
        }
    }
}

/// A decimal token is a well-formed wire number literal.
pub proof fn lemma_decimal_token_valid(s: Seq<char>)
    requires
        decimal_token(s),
    ensures
        crate::json::valid_num_lit(s),
{
    if s.len() > 0 && s[0] == '-' {
        let t = s.drop_first();
        lemma_dec_body_chars(t, 0, false, false);
        assert forall|k: int| 0 <= k < s.len() implies crate::json::num_char(
            #[trigger] s[k],
        ) by {
            if k > 0 {
                assert(s[k] == t[k - 1]);
            }
        }
    } else {
        lemma_dec_body_chars(s, 0, false, false);
        assert forall|k: int| 0 <= k < s.len() implies crate::json::num_char(
            #[trigger] s[k],
        ) by {
            assert(is_digit(s[k]) || s[k] == '.');
        }
    }
}

/// Tests a token against [`decimal_token`].
#[verifier::loop_isolation(false)]
pub fn is_decimal_token(s: &str) -> (r: bool)
    ensures
        r == decimal_token(s@),
{
    let cs = crate::strutil::str_to_chars(s);
    if cs.len() == 0 {
        return false;
    }
    let start: usize = if cs[0] == '-' {
        1
    } else {
        0
    };
    let ghost t = if s@[0] == '-' {
        s@.drop_first()
    } else {
        s@
    };
    proof {
        assert(t =~= cs@.subrange(start as int, cs@.len() as int));
    }
    if start >= cs.len() {
        return false;
    }
    let c0 = cs[start];
    if !('0' <= c0 && c0 <= '9') {
        return false;
    }
    let mut i: usize = start;
    let mut seen_dot = false;
    let mut last_digit = false;
    loop
        invariant
            start <= i <= cs.len(),
            decimal_token(s@) == dec_body(t, i - start as int, seen_dot, last_digit),
        decreases cs.len() - i,
    {
        if i >= cs.len() {
            return last_digit;
        }
        let c = cs[i];
        proof {
            assert(t[i - start as int] == cs@[i as int]);
        }
        if '0' <= c && c <= '9' {
            last_digit = true;
        } else if c == '.' && !seen_dot && last_digit {
            seen_dot = true;
            last_digit = false;
        } else {
            return false;
        }
        i = i + 1;
    }
}

} // verus!
