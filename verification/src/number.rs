use crate::text::chars_of;
use vstd::prelude::*;

verus! {

/// Exponents written in a number's text are read up to this bound; larger
/// ones are held at the bound. Such values lie far outside the range of an
/// `f64` (where they become infinity or zero) and keep their order among
/// ordinary values.
pub const EXPONENT_CAP: u64 = 1000000000000;

/// A number as `f64::from_str` accepts it, held exactly in decimal.
///
/// A finite value is `±0.d1d2…dn × 10^exponent` with `d1 != 0` and
/// `dn != 0`; zero has no digits and exponent 0.
#[derive(Clone, Debug)]
pub enum Number {
    NotANumber,
    Infinite { negative: bool },
    Finite { negative: bool, digits: Vec<u8>, exponent: i128 },
}

/// The mathematical content of a [`Number`].
pub enum NumberModel {
    NotANumber,
    Infinite { negative: bool },
    Finite { negative: bool, digits: Seq<u8>, exponent: int },
}

impl View for Number {
    type V = NumberModel;

    open spec fn view(&self) -> NumberModel {
        match self {
            Number::NotANumber => NumberModel::NotANumber,
            Number::Infinite { negative } => NumberModel::Infinite { negative: *negative },
            Number::Finite { negative, digits, exponent } => NumberModel::Finite {
                negative: *negative,
                digits: digits@,
                exponent: *exponent as int,
            },
        }
    }
}

pub open spec fn is_digit(c: char) -> bool {
    '0' <= c && c <= '9'
}

pub open spec fn digit_value(c: char) -> u8 {
    (c as u32 - '0' as u32) as u8
}

pub open spec fn all_digits(s: Seq<char>) -> bool {
    forall|i: int| 0 <= i < s.len() ==> is_digit(#[trigger] s[i])
}

/// Length of an optional leading `+` or `-`.
pub open spec fn sign_len(s: Seq<char>) -> int {
    if s.len() > 0 && (s[0] == '+' || s[0] == '-') {
        1
    } else {
        0
    }
}

/// First position at or after `i` that holds `a` or `b`, or the length.
pub open spec fn scan_to(s: Seq<char>, i: int, a: char, b: char) -> int
    decreases s.len() - i,
{
    if i < 0 || i >= s.len() || s[i] == a || s[i] == b {
        i
    } else {
        scan_to(s, i + 1, a, b)
    }
}

/// `s` spells the word whose lower-case letters are `lower` and upper-case
/// letters are `upper`, in any mix of case.
pub open spec fn spells_ignoring_case(s: Seq<char>, lower: Seq<char>, upper: Seq<char>) -> bool {
    &&& s.len() == lower.len()
    &&& lower.len() == upper.len()
    &&& forall|i: int| 0 <= i < s.len() ==> s[i] == lower[i] || s[i] == upper[i]
}

/// Value of the first `n` digits of `s`, held at [`EXPONENT_CAP`] once it
/// goes beyond it.
pub open spec fn capped_value(s: Seq<char>, n: int) -> int
    decreases n,
{
    if n <= 0 {
        0
    } else {
        let v = capped_value(s, n - 1) * 10 + digit_value(s[n - 1]);
        if v > EXPONENT_CAP {
            EXPONENT_CAP as int
        } else {
            v
        }
    }
}

/// First position at or after `i` whose digit is not zero, or the length.
pub open spec fn skip_zeros(d: Seq<u8>, i: int) -> int
    decreases d.len() - i,
{
    if i < 0 || i >= d.len() || d[i] != 0 {
        i
    } else {
        skip_zeros(d, i + 1)
    }
}

/// End of `d[..j]` once its trailing zeros are dropped.
pub open spec fn trim_zeros_end(d: Seq<u8>, j: int) -> int
    decreases j,
{
    if j <= 0 || j > d.len() || d[j - 1] != 0 {
        j
    } else {
        trim_zeros_end(d, j - 1)
    }
}

/// Reads `Digit* ['.' Digit*] [('e'|'E') Sign? Digit+]` with at least one
/// mantissa digit, and normalises it.
pub open spec fn spec_parse_finite(body: Seq<char>, negative: bool) -> Option<NumberModel> {
    let ie = scan_to(body, 0, 'e', 'E');
    let mant = body.subrange(0, ie);
    let ip = scan_to(mant, 0, '.', '.');
    let int_part = mant.subrange(0, ip);
    let frac = if ip < mant.len() {
        mant.subrange(ip + 1, mant.len() as int)
    } else {
        Seq::<char>::empty()
    };
    let exp_part = if ie < body.len() {
        body.subrange(ie + 1, body.len() as int)
    } else {
        Seq::<char>::empty()
    };
    let es = sign_len(exp_part);
    let exp_digits = exp_part.subrange(es, exp_part.len() as int);
    let mantissa_ok = all_digits(int_part) && all_digits(frac) && int_part.len() + frac.len() > 0;
    let exponent_ok = ie == body.len() || (exp_digits.len() > 0 && all_digits(exp_digits));
    if !(mantissa_ok && exponent_ok) {
        None
    } else {
        let magnitude = capped_value(exp_digits, exp_digits.len() as int);
        let shift = if ie == body.len() {
            0
        } else if es == 1 && exp_part[0] == '-' {
            -magnitude
        } else {
            magnitude
        };
        let all = (int_part + frac).map_values(|c: char| digit_value(c));
        let lz = skip_zeros(all, 0);
        if lz >= all.len() {
            Some(NumberModel::Finite { negative, digits: Seq::empty(), exponent: 0 })
        } else {
            Some(
                NumberModel::Finite {
                    negative,
                    digits: all.subrange(lz, trim_zeros_end(all, all.len() as int)),
                    exponent: int_part.len() + shift - lz,
                },
            )
        }
    }
}

/// What `f64::from_str` accepts, and the exact value of what it reads:
/// an optional sign, then `inf`, `infinity` or `nan` in any case, or a
/// decimal number with an optional exponent.
pub open spec fn spec_parse_number(s: Seq<char>) -> Option<NumberModel> {
    let k = sign_len(s);
    let negative = k == 1 && s[0] == '-';
    let body = s.subrange(k, s.len() as int);
    if spells_ignoring_case(body, "inf"@, "INF"@) || spells_ignoring_case(
        body,
        "infinity"@,
        "INFINITY"@,
    ) {
        Some(NumberModel::Infinite { negative })
    } else if spells_ignoring_case(body, "nan"@, "NAN"@) {
        Some(NumberModel::NotANumber)
    } else {
        spec_parse_finite(body, negative)
    }
}

/// The text is one that `f64::from_str` accepts.
pub open spec fn is_number_text(s: Seq<char>) -> bool {
    spec_parse_number(s) is Some
}

/// The number a text reads as (meaningful where [`is_number_text`] holds).
pub open spec fn number_of(s: Seq<char>) -> NumberModel {
    spec_parse_number(s)->0
}

pub open spec fn is_nan(n: NumberModel) -> bool {
    n is NotANumber
}

/// -1, 0 or 1 by the sign of a value that is not NaN.
pub open spec fn sign_of(n: NumberModel) -> int {
    match n {
        NumberModel::NotANumber => 0,
        NumberModel::Infinite { negative } => if negative {
            -1
        } else {
            1
        },
        NumberModel::Finite { negative, digits, exponent } => if digits.len() == 0 {
            0
        } else if negative {
            -1
        } else {
            1
        },
    }
}

/// Lexicographic order on digit strings, a prefix coming first, from
/// position `i` on.
pub open spec fn digits_le_from(x: Seq<u8>, y: Seq<u8>, i: int) -> bool
    decreases x.len() - i,
{
    if i < 0 || i >= x.len() {
        true
    } else if i >= y.len() {
        false
    } else if x[i] != y[i] {
        x[i] < y[i]
    } else {
        digits_le_from(x, y, i + 1)
    }
}

/// For two positive normalised finite values (`0.x × 10^ex` and
/// `0.y × 10^ey`), the first is at most the second.
pub open spec fn positive_le(x: Seq<u8>, ex: int, y: Seq<u8>, ey: int) -> bool {
    ex < ey || (ex == ey && digits_le_from(x, y, 0))
}

/// Numeric order on values that are not NaN: negative infinity first,
/// positive infinity last, finite values by their exact decimal value.
pub open spec fn number_le(a: NumberModel, b: NumberModel) -> bool {
    match (a, b) {
        (NumberModel::Infinite { negative: na }, NumberModel::Infinite { negative: nb }) => na
            || !nb,
        (NumberModel::Infinite { negative }, _) => negative,
        (_, NumberModel::Infinite { negative }) => !negative,
        (
            NumberModel::Finite { negative: _, digits: da, exponent: ea },
            NumberModel::Finite { negative: _, digits: db, exponent: eb },
        ) => if sign_of(a) != sign_of(b) {
            sign_of(a) < sign_of(b)
        } else if sign_of(a) == 0 {
            true
        } else if sign_of(a) > 0 {
            positive_le(da, ea, db, eb)
        } else {
            positive_le(db, eb, da, ea)
        },
        _ => false,
    }
}

/// The value is finite and its magnitude lies below the positive value
/// `0.c1c2… × 10^e` (the digits `c`, with `c1 != 0`), or, when `inclusive`,
/// at most at it. Zero always qualifies; NaN and the infinities never do.
/// The comparison is on the exact decimal value (see [`positive_le`]).
pub open spec fn magnitude_under(n: NumberModel, c: Seq<u8>, e: int, inclusive: bool) -> bool {
    match n {
        NumberModel::Finite { negative: _, digits, exponent } => digits.len() == 0 || if inclusive {
            positive_le(digits, exponent, c, e)
        } else {
            !positive_le(c, e, digits, exponent)
        },
        _ => false,
    }
}

/// The normalised form holds: digits 0 to 9, no leading or trailing zero,
/// and zero with exponent 0.
pub open spec fn normalised(n: NumberModel) -> bool {
    match n {
        NumberModel::Finite { negative: _, digits, exponent } => {
            &&& forall|i: int| 0 <= i < digits.len() ==> #[trigger] digits[i] < 10
            &&& digits.len() > 0 ==> digits[0] != 0 && digits[digits.len() - 1] != 0
            &&& digits.len() == 0 ==> exponent == 0
        },
        _ => true,
    }
}

fn copy_range<T: Copy>(v: &Vec<T>, from: usize, to: usize) -> (res: Vec<T>)
    requires
        from <= to <= v.len(),
    ensures
        res@ == v@.subrange(from as int, to as int),
{
    let mut res: Vec<T> = Vec::new();
    let mut i: usize = from;
    while i < to
        invariant
            from <= i <= to <= v.len(),
            res@ == v@.subrange(from as int, i as int),
        decreases to - i,
    {
        res.push(v[i]);
        i = i + 1;
        assert(res@ =~= v@.subrange(from as int, i as int));
    }
    res
}

fn scan_to_exec(s: &Vec<char>, a: char, b: char) -> (res: usize)
    ensures
        res == scan_to(s@, 0, a, b),
        res <= s.len(),
{
    let mut i: usize = 0;
    while i < s.len() && s[i] != a && s[i] != b
        invariant
            i <= s.len(),
            scan_to(s@, 0, a, b) == scan_to(s@, i as int, a, b),
        decreases s.len() - i,
    {
        i = i + 1;
    }
    i
}

fn all_digits_exec(s: &Vec<char>) -> (res: bool)
    ensures
        res == all_digits(s@),
{
    let mut i: usize = 0;
    while i < s.len()
        invariant
            i <= s.len(),
            forall|k: int| 0 <= k < i ==> is_digit(#[trigger] s@[k]),
        decreases s.len() - i,
    {
        if !(s[i] >= '0' && s[i] <= '9') {
            return false;
        }
        i = i + 1;
    }
    true
}

fn spells_exec(s: &Vec<char>, lower: &str, upper: &str) -> (res: bool)
    ensures
        res == spells_ignoring_case(s@, lower@, upper@),
{
    let lo = chars_of(lower);
    let up = chars_of(upper);
    if s.len() != lo.len() || lo.len() != up.len() {
        return false;
    }
    let mut i: usize = 0;
    while i < s.len()
        invariant
            lo@ == lower@,
            up@ == upper@,
            s.len() == lo.len() == up.len(),
            i <= s.len(),
            forall|k: int| 0 <= k < i ==> s@[k] == lo@[k] || s@[k] == up@[k],
        decreases s.len() - i,
    {
        if s[i] != lo[i] && s[i] != up[i] {
            return false;
        }
        i = i + 1;
    }
    true
}

fn capped_value_exec(s: &Vec<char>) -> (res: u64)
    requires
        all_digits(s@),
    ensures
        res == capped_value(s@, s.len() as int),
        res <= EXPONENT_CAP,
{
    let mut v: u64 = 0;
    let mut i: usize = 0;
    while i < s.len()
        invariant
            all_digits(s@),
            i <= s.len(),
            v == capped_value(s@, i as int),
            v <= EXPONENT_CAP,
        decreases s.len() - i,
    {
        assert(is_digit(s@[i as int]));
        let d: u64 = (s[i] as u32 - '0' as u32) as u64;
        let next: u64 = v * 10 + d;
        if next > EXPONENT_CAP {
            v = EXPONENT_CAP;
        } else {
            v = next;
        }
        i = i + 1;
    }
    v
}

fn digit_values(int_part: &Vec<char>, frac: &Vec<char>) -> (res: Vec<u8>)
    requires
        all_digits(int_part@),
        all_digits(frac@),
        int_part.len() + frac.len() <= usize::MAX,
    ensures
        res@ == (int_part@ + frac@).map_values(|c: char| digit_value(c)),
        forall|i: int| 0 <= i < res.len() ==> #[trigger] res@[i] < 10,
{
    let ghost whole = int_part@ + frac@;
    let mut res: Vec<u8> = Vec::new();
    let mut i: usize = 0;
    let total = int_part.len() + frac.len();
    while i < total
        invariant
            total == int_part.len() + frac.len(),
            whole == int_part@ + frac@,
            all_digits(int_part@),
            all_digits(frac@),
            i <= int_part.len() + frac.len(),
            res@ == whole.subrange(0, i as int).map_values(|c: char| digit_value(c)),
            forall|k: int| 0 <= k < res.len() ==> #[trigger] res@[k] < 10,
        decreases int_part.len() + frac.len() - i,
    {
        let c = if i < int_part.len() {
            int_part[i]
        } else {
            frac[i - int_part.len()]
        };
        assert(c == whole[i as int]);
        assert(is_digit(c));
        res.push((c as u32 - '0' as u32) as u8);
        i = i + 1;
        assert(res@ =~= whole.subrange(0, i as int).map_values(|c: char| digit_value(c)));
    }
    assert(whole.subrange(0, i as int) =~= whole);
    res
}

fn skip_zeros_exec(d: &Vec<u8>) -> (res: usize)
    ensures
        res == skip_zeros(d@, 0),
        res <= d.len(),
        res < d.len() ==> d@[res as int] != 0,
{
    let mut i: usize = 0;
    while i < d.len() && d[i] == 0
        invariant
            i <= d.len(),
            skip_zeros(d@, 0) == skip_zeros(d@, i as int),
        decreases d.len() - i,
    {
        i = i + 1;
    }
    i
}

fn trim_zeros_end_exec(d: &Vec<u8>, lz: usize) -> (res: usize)
    requires
        lz < d.len(),
        d@[lz as int] != 0,
    ensures
        res == trim_zeros_end(d@, d.len() as int),
        lz < res <= d.len(),
        d@[res - 1] != 0,
{
    let mut j: usize = d.len();
    while j > 0 && d[j - 1] == 0
        invariant
            lz < d.len(),
            d@[lz as int] != 0,
            lz < j <= d.len(),
            trim_zeros_end(d@, d.len() as int) == trim_zeros_end(d@, j as int),
        decreases j,
    {
        j = j - 1;
    }
    j
}

proof fn lemma_capped_nonneg(s: Seq<char>, n: int)
    ensures
        0 <= capped_value(s, n) <= EXPONENT_CAP,
    decreases n,
{
    if n > 0 {
        lemma_capped_nonneg(s, n - 1);
    }
}

fn parse_finite(body: &Vec<char>, negative: bool) -> (res: Option<Number>)
    ensures
        match res {
            Some(n) => spec_parse_finite(body@, negative) == Some(n@) && normalised(n@),
            None => spec_parse_finite(body@, negative) is None,
        },
{
    let ie = scan_to_exec(body, 'e', 'E');
    let mant = copy_range(body, 0, ie);
    let ip = scan_to_exec(&mant, '.', '.');
    let int_part = copy_range(&mant, 0, ip);
    let frac = if ip < mant.len() {
        copy_range(&mant, ip + 1, mant.len())
    } else {
        Vec::new()
    };
    let exp_part = if ie < body.len() {
        copy_range(body, ie + 1, body.len())
    } else {
        Vec::new()
    };
    let es: usize = if exp_part.len() > 0 && (exp_part[0] == '+' || exp_part[0] == '-') {
        1
    } else {
        0
    };
    let exp_digits = copy_range(&exp_part, es, exp_part.len());
    assert(frac@ =~= (if ip < mant.len() {
        mant@.subrange(ip + 1, mant@.len() as int)
    } else {
        Seq::<char>::empty()
    }));
    assert(exp_part@ =~= (if ie < body.len() {
        body@.subrange(ie + 1, body@.len() as int)
    } else {
        Seq::<char>::empty()
    }));
    assert(int_part.len() + frac.len() <= body.len());
    if !(all_digits_exec(&int_part) && all_digits_exec(&frac) && (int_part.len() > 0 || frac.len()
        > 0)) {
        return None;
    }
    if ie < body.len() && !(exp_digits.len() > 0 && all_digits_exec(&exp_digits)) {
        return None;
    }
    let shift: i128 = if ie == body.len() {
        0
    } else {
        let magnitude = capped_value_exec(&exp_digits);
        if es == 1 && exp_part[0] == '-' {
            0 - (magnitude as i128)
        } else {
            magnitude as i128
        }
    };
    let all = digit_values(&int_part, &frac);
    let lz = skip_zeros_exec(&all);
    if lz >= all.len() {
        return Some(Number::Finite { negative, digits: Vec::new(), exponent: 0 });
    }
    let te = trim_zeros_end_exec(&all, lz);
    let digits = copy_range(&all, lz, te);
    proof {
        lemma_capped_nonneg(exp_digits@, exp_digits@.len() as int);
    }
    let exponent: i128 = int_part.len() as i128 + shift - lz as i128;
    assert(digits@ =~= all@.subrange(lz as int, te as int));
    Some(Number::Finite { negative, digits, exponent })
}

/// Reads a text as `f64::from_str` would, keeping the exact decimal value.
pub fn parse_number(text: &str) -> (res: Option<Number>)
    ensures
        match res {
            Some(n) => spec_parse_number(text@) == Some(n@) && normalised(n@),
            None => spec_parse_number(text@) is None,
        },
{
    let s = chars_of(text);
    let k: usize = if s.len() > 0 && (s[0] == '+' || s[0] == '-') {
        1
    } else {
        0
    };
    let negative = k == 1 && s[0] == '-';
    let body = copy_range(&s, k, s.len());
    if spells_exec(&body, "inf", "INF") || spells_exec(&body, "infinity", "INFINITY") {
        return Some(Number::Infinite { negative });
    }
    if spells_exec(&body, "nan", "NAN") {
        return Some(Number::NotANumber);
    }
    parse_finite(&body, negative)
}

fn digits_le_exec(x: &[u8], y: &[u8]) -> (res: bool)
    ensures
        res == digits_le_from(x@, y@, 0),
{
    let mut i: usize = 0;
    while i < x.len()
        invariant
            i <= x.len(),
            digits_le_from(x@, y@, 0) == digits_le_from(x@, y@, i as int),
        decreases x.len() - i,
    {
        if i >= y.len() {
            return false;
        }
        if x[i] != y[i] {
            return x[i] < y[i];
        }
        i = i + 1;
    }
    true
}

fn sign_exec(n: &Number) -> (res: i8)
    ensures
        res == sign_of(n@),
{
    match n {
        Number::NotANumber => 0,
        Number::Infinite { negative } => if *negative {
            -1
        } else {
            1
        },
        Number::Finite { negative, digits, exponent: _ } => if digits.len() == 0 {
            0
        } else if *negative {
            -1
        } else {
            1
        },
    }
}

/// Numeric `a <= b` for values that are not NaN.
pub fn number_le_exec(a: &Number, b: &Number) -> (res: bool)
    ensures
        res == number_le(a@, b@),
{
    match (a, b) {
        (Number::Infinite { negative: na }, Number::Infinite { negative: nb }) => *na || !*nb,
        (Number::Infinite { negative }, _) => *negative,
        (_, Number::Infinite { negative }) => !*negative,
        (
            Number::Finite { negative: _, digits: da, exponent: ea },
            Number::Finite { negative: _, digits: db, exponent: eb },
        ) => {
            let sa = sign_exec(a);
            let sb = sign_exec(b);
            if sa != sb {
                sa < sb
            } else if sa == 0 {
                true
            } else if sa > 0 {
                *ea < *eb || (*ea == *eb && digits_le_exec(da.as_slice(), db.as_slice()))
            } else {
                *eb < *ea || (*eb == *ea && digits_le_exec(db.as_slice(), da.as_slice()))
            }
        },
        _ => false,
    }
}

/// Whether `|n|` lies below `0.c × 10^e` (or at most at it when
/// `inclusive`); see [`magnitude_under`].
pub fn magnitude_under_exec(n: &Number, c: &[u8], e: i128, inclusive: bool) -> (res: bool)
    ensures
        res == magnitude_under(n@, c@, e as int, inclusive),
{
    match n {
        Number::Finite { negative: _, digits, exponent } => {
            if digits.len() == 0 {
                true
            } else if inclusive {
                *exponent < e || (*exponent == e && digits_le_exec(digits.as_slice(), c))
            } else {
                !(e < *exponent || (e == *exponent && digits_le_exec(c, digits.as_slice())))
            }
        },
        _ => false,
    }
}

proof fn lemma_digits_le_reflexive(x: Seq<u8>, i: int)
    requires
        i >= 0,
    ensures
        digits_le_from(x, x, i),
    decreases x.len() - i,
{
    if i < x.len() {
        lemma_digits_le_reflexive(x, i + 1);
    }
}

proof fn lemma_digits_le_total(x: Seq<u8>, y: Seq<u8>, i: int)
    requires
        i >= 0,
    ensures
        digits_le_from(x, y, i) || digits_le_from(y, x, i),
    decreases x.len() - i,
{
    if i < x.len() && i < y.len() && x[i] == y[i] {
        lemma_digits_le_total(x, y, i + 1);
    }
}

proof fn lemma_digits_le_transitive(x: Seq<u8>, y: Seq<u8>, z: Seq<u8>, i: int)
    requires
        i >= 0,
        digits_le_from(x, y, i),
        digits_le_from(y, z, i),
    ensures
        digits_le_from(x, z, i),
    decreases x.len() - i,
{
    if i < x.len() && i < y.len() && i < z.len() && x[i] == y[i] && y[i] == z[i] {
        lemma_digits_le_transitive(x, y, z, i + 1);
    }
}

/// Every value that is not NaN is at most itself.
pub proof fn lemma_number_le_reflexive(a: NumberModel)
    requires
        !is_nan(a),
    ensures
        number_le(a, a),
{
    if let NumberModel::Finite { negative: _, digits, exponent: _ } = a {
        lemma_digits_le_reflexive(digits, 0);
    }
}

/// Any two values that are not NaN are ordered one way or the other.
pub proof fn lemma_number_le_total(a: NumberModel, b: NumberModel)
    requires
        !is_nan(a),
        !is_nan(b),
    ensures
        number_le(a, b) || number_le(b, a),
{
    if let (
        NumberModel::Finite { negative: _, digits: da, exponent: _ },
        NumberModel::Finite { negative: _, digits: db, exponent: _ },
    ) = (a, b) {
        lemma_digits_le_total(da, db, 0);
    }
}

/// The numeric order is transitive.
pub proof fn lemma_number_le_transitive(a: NumberModel, b: NumberModel, c: NumberModel)
    requires
        !is_nan(a),
        !is_nan(b),
        !is_nan(c),
        number_le(a, b),
        number_le(b, c),
    ensures
        number_le(a, c),
{
    if let (
        NumberModel::Finite { negative: _, digits: da, exponent: _ },
        NumberModel::Finite { negative: _, digits: db, exponent: _ },
        NumberModel::Finite { negative: _, digits: dc, exponent: _ },
    ) = (a, b, c) {
        if digits_le_from(da, db, 0) && digits_le_from(db, dc, 0) {
            lemma_digits_le_transitive(da, db, dc, 0);
        }
        if digits_le_from(dc, db, 0) && digits_le_from(db, da, 0) {
            lemma_digits_le_transitive(dc, db, da, 0);
        }
    }
}

} // verus!
