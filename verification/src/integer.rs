use crate::number::{all_digits, digit_value, is_digit};
use crate::text::{chars_of, push_char};
use vstd::prelude::*;

verus! {

/// The value of a string of decimal digits.
pub open spec fn digits_value(s: Seq<char>) -> int
    decreases s.len(),
{
    if s.len() == 0 {
        0
    } else {
        digits_value(s.drop_last()) * 10 + digit_value(s.last())
    }
}

/// The text after an optional leading sign (`+` only, or `+` and `-`).
pub open spec fn unsigned_body(s: Seq<char>, allow_minus: bool) -> Seq<char> {
    if s.len() > 0 && (s[0] == '+' || (allow_minus && s[0] == '-')) {
        s.drop_first()
    } else {
        s
    }
}

/// What `u32::from_str` reads: an optional `+` and at least one digit, of a
/// value that fits.
pub open spec fn spec_parse_u32(s: Seq<char>) -> Option<int> {
    let body = unsigned_body(s, false);
    if body.len() > 0 && all_digits(body) && digits_value(body) <= u32::MAX {
        Some(digits_value(body))
    } else {
        None
    }
}

/// What `i64::from_str` reads: an optional sign and at least one digit, of
/// a value that fits.
pub open spec fn spec_parse_i64(s: Seq<char>) -> Option<int> {
    let body = unsigned_body(s, true);
    let value = if s.len() > 0 && s[0] == '-' {
        -digits_value(body)
    } else {
        digits_value(body)
    };
    if body.len() > 0 && all_digits(body) && i64::MIN <= value <= i64::MAX {
        Some(value)
    } else {
        None
    }
}

proof fn lemma_digits_value_prefix(s: Seq<char>, k: int)
    requires
        all_digits(s),
        0 <= k <= s.len(),
    ensures
        0 <= digits_value(s.take(k)) <= digits_value(s),
    decreases s.len() - k,
{
    if k < s.len() {
        lemma_digits_value_prefix(s, k + 1);
        assert(s.take(k + 1).drop_last() =~= s.take(k));
        assert(is_digit(s[k]));
    } else {
        assert(s.take(k) =~= s);
        lemma_digits_value_nonneg(s);
    }
}

proof fn lemma_digits_value_nonneg(s: Seq<char>)
    requires
        all_digits(s),
    ensures
        0 <= digits_value(s),
    decreases s.len(),
{
    if s.len() > 0 {
        assert(all_digits(s.drop_last()));
        lemma_digits_value_nonneg(s.drop_last());
        assert(is_digit(s.last()));
    }
}

/// Value of `s[from..]` when it is a nonempty digit string whose value is at
/// most `limit`; nothing otherwise.
fn digits_up_to(s: &Vec<char>, from: usize, limit: u128) -> (res: Option<u128>)
    requires
        from <= s.len(),
        limit <= u64::MAX,
    ensures
        ({
            let body = s@.subrange(from as int, s.len() as int);
            match res {
                Some(v) => body.len() > 0 && all_digits(body) && v == digits_value(body) && v
                    <= limit,
                None => !(body.len() > 0 && all_digits(body) && digits_value(body) <= limit),
            }
        }),
{
    let ghost body = s@.subrange(from as int, s.len() as int);
    if from == s.len() {
        return None;
    }
    let mut v: u128 = 0;
    let mut i: usize = from;
    while i < s.len()
        invariant
            body == s@.subrange(from as int, s.len() as int),
            from <= i <= s.len(),
            limit <= u64::MAX,
            all_digits(body.take(i - from)),
            v == digits_value(body.take(i - from)),
            v <= limit,
        decreases s.len() - i,
    {
        if !(s[i] >= '0' && s[i] <= '9') {
            assert(body[i - from] == s@[i as int]);
            return None;
        }
        let d: u128 = (s[i] as u32 - '0' as u32) as u128;
        let next: u128 = v * 10 + d;
        assert(body.take(i - from + 1).drop_last() =~= body.take(i - from));
        assert(body.take(i - from + 1).last() == s@[i as int]);
        assert(all_digits(body.take(i - from + 1)));
        if next > limit {
            proof {
                if all_digits(body) {
                    lemma_digits_value_prefix(body, i - from + 1);
                }
            }
            return None;
        }
        v = next;
        i = i + 1;
    }
    assert(body.take(s.len() - from) =~= body);
    Some(v)
}

/// Reads a text as `u32::from_str` would.
pub fn parse_u32(text: &str) -> (res: Option<u32>)
    ensures
        match res {
            Some(v) => spec_parse_u32(text@) == Some(v as int),
            None => spec_parse_u32(text@) is None,
        },
{
    let s = chars_of(text);
    let from: usize = if s.len() > 0 && s[0] == '+' {
        1
    } else {
        0
    };
    assert(s@.subrange(from as int, s.len() as int) =~= unsigned_body(text@, false));
    match digits_up_to(&s, from, 4294967295) {
        Some(v) => Some(v as u32),
        None => None,
    }
}

/// Reads a text as `i64::from_str` would.
pub fn parse_i64(text: &str) -> (res: Option<i64>)
    ensures
        match res {
            Some(v) => spec_parse_i64(text@) == Some(v as int),
            None => spec_parse_i64(text@) is None,
        },
{
    let s = chars_of(text);
    let negative = s.len() > 0 && s[0] == '-';
    let from: usize = if s.len() > 0 && (s[0] == '+' || s[0] == '-') {
        1
    } else {
        0
    };
    assert(s@.subrange(from as int, s.len() as int) =~= unsigned_body(text@, true));
    let limit: u128 = if negative {
        9223372036854775808
    } else {
        9223372036854775807
    };
    match digits_up_to(&s, from, limit) {
        Some(v) => if negative {
            if v == 9223372036854775808 {
                Some(i64::MIN)
            } else {
                Some(0 - (v as i64))
            }
        } else {
            Some(v as i64)
        },
        None => None,
    }
}


/// The character of the decimal digit `d` (`0` to `9`).
pub open spec fn digit_char(d: int) -> char {
    if d <= 0 {
        '0'
    } else if d == 1 {
        '1'
    } else if d == 2 {
        '2'
    } else if d == 3 {
        '3'
    } else if d == 4 {
        '4'
    } else if d == 5 {
        '5'
    } else if d == 6 {
        '6'
    } else if d == 7 {
        '7'
    } else if d == 8 {
        '8'
    } else {
        '9'
    }
}

/// The decimal digits of `n`, most significant first, without leading
/// zeros (`0` is the single digit `0`).
pub open spec fn nat_digits(n: nat) -> Seq<char>
    decreases n,
{
    if n < 10 {
        seq![digit_char(n as int)]
    } else {
        nat_digits(n / 10).push(digit_char((n % 10) as int))
    }
}

/// The decimal text of an integer, as integers are displayed: its digits,
/// after a `-` when it is negative.
pub open spec fn decimal_text(v: int) -> Seq<char> {
    if v < 0 {
        seq!['-'] + nat_digits((-v) as nat)
    } else {
        nat_digits(v as nat)
    }
}

fn digit_char_exec(d: u64) -> (c: char)
    requires
        d < 10,
    ensures
        c == digit_char(d as int),
{
    if d == 0 {
        '0'
    } else if d == 1 {
        '1'
    } else if d == 2 {
        '2'
    } else if d == 3 {
        '3'
    } else if d == 4 {
        '4'
    } else if d == 5 {
        '5'
    } else if d == 6 {
        '6'
    } else if d == 7 {
        '7'
    } else if d == 8 {
        '8'
    } else {
        '9'
    }
}

/// Appends the decimal digits of `n` to `s`.
fn push_digits(s: &mut String, n: u64)
    ensures
        final(s)@ == old(s)@ + nat_digits(n as nat),
    decreases n,
{
    if n >= 10 {
        push_digits(s, n / 10);
    }
    push_char(s, digit_char_exec(n % 10));
    assert(final(s)@ =~= old(s)@ + nat_digits(n as nat));
}

/// The decimal text of `v` (see [`decimal_text`]).
pub fn decimal_text_of(v: i64) -> (res: String)
    ensures
        res@ == decimal_text(v as int),
{
    let mut res = String::new();
    if v < 0 {
        push_char(&mut res, '-');
        let magnitude: u64 = (0i128 - (v as i128)) as u64;
        push_digits(&mut res, magnitude);
    } else {
        push_digits(&mut res, v as u64);
    }
    assert(res@ =~= decimal_text(v as int));
    res
}

} // verus!
