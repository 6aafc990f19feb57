use crate::integer::digits_value;
use crate::number::{
    all_digits, capped_value, digit_value, digits_le_from, is_digit, magnitude_under, normalised,
    number_le, number_of, scan_to, sign_len, sign_of, skip_zeros, spec_parse_finite,
    spec_parse_number, spells_ignoring_case, trim_zeros_end, NumberModel,
};
use vstd::prelude::*;

verus! {

/// `10^k` for `k >= 0` (1 below).
pub open spec fn pow10(k: int) -> int
    decreases k,
{
    if k <= 0 {
        1
    } else {
        10 * pow10(k - 1)
    }
}

/// The value of `0.d1d2…dn × 10^t`: digit `i` (from 0) weighs `10^(t-1-i)`.
/// An integer when `t >= n`.
pub open spec fn lead_value(d: Seq<u8>, t: int) -> int
    decreases d.len(),
{
    if d.len() == 0 {
        0
    } else {
        d[0] * pow10(t - 1) + lead_value(d.drop_first(), t - 1)
    }
}

/// The value of a finite number times `10^scale`.
pub open spec fn scaled_value(n: NumberModel, scale: int) -> int {
    match n {
        NumberModel::Finite { negative, digits, exponent } => {
            let magnitude = lead_value(digits, scale + exponent);
            if negative {
                -magnitude
            } else {
                magnitude
            }
        },
        _ => 0,
    }
}

/// `scale` makes the number an integer: its last digit weighs at least 1.
pub open spec fn scale_fits(n: NumberModel, scale: int) -> bool {
    match n {
        NumberModel::Finite { negative: _, digits, exponent } => scale + exponent >= digits.len(),
        _ => false,
    }
}

spec fn small_digits(d: Seq<u8>) -> bool {
    forall|i: int| 0 <= i < d.len() ==> #[trigger] d[i] < 10
}

spec fn no_trailing_zero(d: Seq<u8>) -> bool {
    d.len() > 0 ==> d[d.len() - 1] != 0
}

proof fn lemma_pow10_positive(k: int)
    ensures
        pow10(k) >= 1,
    decreases k,
{
    if k > 0 {
        lemma_pow10_positive(k - 1);
    }
}

proof fn lemma_pow10_monotone(a: int, b: int)
    requires
        a <= b,
    ensures
        pow10(a) <= pow10(b),
    decreases b - a,
{
    if a < b {
        lemma_pow10_monotone(a, b - 1);
        lemma_pow10_positive(b - 1);
        if b > 0 {
            assert(pow10(b) == 10 * pow10(b - 1));
        }
    }
}

proof fn lemma_lead_value_bounds(d: Seq<u8>, t: int)
    requires
        small_digits(d),
        d.len() <= t,
    ensures
        0 <= lead_value(d, t) < pow10(t),
        d.len() > 0 && d[0] != 0 ==> pow10(t - 1) <= lead_value(d, t),
    decreases d.len(),
{
    if d.len() == 0 {
        lemma_pow10_positive(t);
    } else {
        let rest = d.drop_first();
        assert(small_digits(rest)) by {
            assert forall|i: int| 0 <= i < rest.len() implies #[trigger] rest[i] < 10 by {
                assert(rest[i] == d[i + 1]);
            }
        }
        lemma_lead_value_bounds(rest, t - 1);
        lemma_pow10_positive(t - 1);
        let p = pow10(t - 1);
        let d0 = d[0] as int;
        assert(t >= 1);
        assert(pow10(t) == 10 * p);
        assert(0 <= d0 <= 9);
        assert(0 <= d0 * p <= 9 * p) by (nonlinear_arith)
            requires
                0 <= d0 <= 9,
                p >= 1,
        ;
        assert(d0 >= 1 ==> d0 * p >= p) by (nonlinear_arith)
            requires
                p >= 1,
        ;
    }
}

proof fn lemma_lead_value_positive(d: Seq<u8>, t: int)
    requires
        small_digits(d),
        d.len() <= t,
        d.len() > 0,
        no_trailing_zero(d),
    ensures
        lead_value(d, t) > 0,
    decreases d.len(),
{
    let rest = d.drop_first();
    assert(small_digits(rest)) by {
        assert forall|i: int| 0 <= i < rest.len() implies #[trigger] rest[i] < 10 by {
            assert(rest[i] == d[i + 1]);
        }
    }
    lemma_lead_value_bounds(rest, t - 1);
    lemma_pow10_positive(t - 1);
    if d[0] == 0 {
        assert(rest.len() > 0);
        assert(rest[rest.len() - 1] == d[d.len() - 1]);
        lemma_lead_value_positive(rest, t - 1);
        assert(d[0] * pow10(t - 1) == 0);
    } else {
        let p = pow10(t - 1);
        let d0 = d[0] as int;
        assert(d0 * p >= p) by (nonlinear_arith)
            requires
                d0 >= 1,
                p >= 1,
        ;
    }
}

proof fn lemma_digits_le_shift(x: Seq<u8>, y: Seq<u8>, i: int)
    requires
        i >= 0,
        x.len() > 0,
        y.len() > 0,
    ensures
        digits_le_from(x, y, i + 1) == digits_le_from(x.drop_first(), y.drop_first(), i),
    decreases x.len() - i,
{
    if i + 1 < x.len() && i + 1 < y.len() && x[i + 1] == y[i + 1] {
        lemma_digits_le_shift(x, y, i + 1);
    }
}

/// For digit strings without trailing zeros that fit in `t` places, the
/// lexicographic order is the order of their values.
proof fn lemma_digits_le_is_value_le(x: Seq<u8>, y: Seq<u8>, t: int)
    requires
        small_digits(x),
        small_digits(y),
        no_trailing_zero(x),
        no_trailing_zero(y),
        x.len() <= t,
        y.len() <= t,
    ensures
        digits_le_from(x, y, 0) == (lead_value(x, t) <= lead_value(y, t)),
    decreases x.len() + y.len(),
{
    if x.len() == 0 {
        lemma_lead_value_bounds(y, t);
    } else if y.len() == 0 {
        lemma_lead_value_positive(x, t);
    } else {
        let xr = x.drop_first();
        let yr = y.drop_first();
        assert(small_digits(xr)) by {
            assert forall|i: int| 0 <= i < xr.len() implies #[trigger] xr[i] < 10 by {
                assert(xr[i] == x[i + 1]);
            }
        }
        assert(small_digits(yr)) by {
            assert forall|i: int| 0 <= i < yr.len() implies #[trigger] yr[i] < 10 by {
                assert(yr[i] == y[i + 1]);
            }
        }
        assert(no_trailing_zero(xr)) by {
            if xr.len() > 0 {
                assert(xr[xr.len() - 1] == x[x.len() - 1]);
            }
        }
        assert(no_trailing_zero(yr)) by {
            if yr.len() > 0 {
                assert(yr[yr.len() - 1] == y[y.len() - 1]);
            }
        }
        lemma_lead_value_bounds(xr, t - 1);
        lemma_lead_value_bounds(yr, t - 1);
        lemma_pow10_positive(t - 1);
        let p = pow10(t - 1);
        let x0 = x[0] as int;
        let y0 = y[0] as int;
        if x0 == y0 {
            lemma_digits_le_shift(x, y, 0);
            lemma_digits_le_is_value_le(xr, yr, t - 1);
        } else if x0 < y0 {
            assert(x0 * p + p <= y0 * p) by (nonlinear_arith)
                requires
                    x0 + 1 <= y0,
                    p >= 1,
            ;
        } else {
            assert(y0 * p + p <= x0 * p) by (nonlinear_arith)
                requires
                    y0 + 1 <= x0,
                    p >= 1,
            ;
        }
    }
}

/// The order [`number_le`] is the order of the values: for two normalised
/// finite numbers, both scaled by a power of ten that makes them integers,
/// `number_le` holds exactly when the first integer is at most the second.
pub proof fn lemma_number_le_is_value_order(a: NumberModel, b: NumberModel, scale: int)
    requires
        a is Finite,
        b is Finite,
        normalised(a),
        normalised(b),
        scale_fits(a, scale),
        scale_fits(b, scale),
    ensures
        number_le(a, b) == (scaled_value(a, scale) <= scaled_value(b, scale)),
{
    let da = a->digits;
    let db = b->digits;
    let ta = scale + a->exponent;
    let tb = scale + b->exponent;
    assert(small_digits(da));
    assert(small_digits(db));
    lemma_lead_value_bounds(da, ta);
    lemma_lead_value_bounds(db, tb);
    if da.len() > 0 {
        lemma_lead_value_positive(da, ta);
    }
    if db.len() > 0 {
        lemma_lead_value_positive(db, tb);
    }
    if sign_of(a) == sign_of(b) && sign_of(a) != 0 {
        let ma = lead_value(da, ta);
        let mb = lead_value(db, tb);
        if ta < tb {
            lemma_pow10_monotone(ta, tb - 1);
            assert(ma < mb);
        } else if tb < ta {
            lemma_pow10_monotone(tb, ta - 1);
            assert(mb < ma);
        } else {
            lemma_digits_le_is_value_le(da, db, ta);
            lemma_digits_le_is_value_le(db, da, ta);
        }
    }
}

/// The magnitude test [`magnitude_under`] is the order of values: for a
/// normalised finite number `q` and a positive normalised bound
/// `0.c × 10^e`, both scaled by a power of ten that makes them integers,
/// it holds exactly when `|q|` is at most the bound (`inclusive`) or below
/// it (otherwise).
pub proof fn lemma_magnitude_under_is_value_order(
    q: NumberModel,
    c: Seq<u8>,
    e: int,
    inclusive: bool,
    scale: int,
)
    requires
        q is Finite,
        normalised(q),
        c.len() > 0,
        normalised(NumberModel::Finite { negative: false, digits: c, exponent: e }),
        scale_fits(q, scale),
        scale_fits(NumberModel::Finite { negative: false, digits: c, exponent: e }, scale),
    ensures
        ({
            let v = scaled_value(q, scale);
            let m = if v < 0 {
                -v
            } else {
                v
            };
            let bound = scaled_value(
                NumberModel::Finite { negative: false, digits: c, exponent: e },
                scale,
            );
            magnitude_under(q, c, e, inclusive) == if inclusive {
                m <= bound
            } else {
                m < bound
            }
        }),
{
    let b = NumberModel::Finite { negative: false, digits: c, exponent: e };
    let d = q->digits;
    let x = q->exponent;
    let a = NumberModel::Finite { negative: false, digits: d, exponent: x };
    assert(small_digits(d));
    lemma_lead_value_bounds(d, scale + x);
    lemma_number_le_is_value_order(a, b, scale);
    lemma_number_le_is_value_order(b, a, scale);
}

proof fn lemma_lead_value_append(x: Seq<u8>, y: Seq<u8>, t: int)
    ensures
        lead_value(x + y, t) == lead_value(x, t) + lead_value(y, t - x.len()),
    decreases x.len(),
{
    if x.len() == 0 {
        assert(x + y =~= y);
    } else {
        assert((x + y).drop_first() =~= x.drop_first() + y);
        assert((x + y)[0] == x[0]);
        lemma_lead_value_append(x.drop_first(), y, t - 1);
    }
}

proof fn lemma_lead_value_zeros(z: Seq<u8>, t: int)
    requires
        forall|i: int| 0 <= i < z.len() ==> #[trigger] z[i] == 0,
    ensures
        lead_value(z, t) == 0,
    decreases z.len(),
{
    if z.len() > 0 {
        let r = z.drop_first();
        assert forall|i: int| 0 <= i < r.len() implies #[trigger] r[i] == 0 by {
            assert(r[i] == z[i + 1]);
        }
        lemma_lead_value_zeros(r, t - 1);
        assert(z[0] == 0);
    }
}

proof fn lemma_lead_value_shift(x: Seq<u8>, t: int)
    requires
        t >= x.len(),
    ensures
        lead_value(x, t + 1) == 10 * lead_value(x, t),
    decreases x.len(),
{
    if x.len() > 0 {
        lemma_lead_value_shift(x.drop_first(), t - 1);
        let p = pow10(t - 1);
        let x0 = x[0] as int;
        assert(pow10(t) == 10 * p);
        assert(x0 * (10 * p) == 10 * (x0 * p)) by (nonlinear_arith);
    }
}

proof fn lemma_skip_zeros(d: Seq<u8>, i: int)
    requires
        0 <= i <= d.len(),
    ensures
        i <= skip_zeros(d, i) <= d.len(),
        forall|k: int| i <= k < skip_zeros(d, i) ==> #[trigger] d[k] == 0,
        skip_zeros(d, i) < d.len() ==> d[skip_zeros(d, i)] != 0,
    decreases d.len() - i,
{
    if i < d.len() && d[i] == 0 {
        lemma_skip_zeros(d, i + 1);
    }
}

proof fn lemma_trim_zeros_end(d: Seq<u8>, j: int)
    requires
        0 <= j <= d.len(),
    ensures
        0 <= trim_zeros_end(d, j) <= j,
        forall|k: int| trim_zeros_end(d, j) <= k < j ==> #[trigger] d[k] == 0,
        forall|k: int| 0 <= k < j && #[trigger] d[k] != 0 ==> k < trim_zeros_end(d, j),
    decreases j,
{
    if j > 0 && d[j - 1] == 0 {
        lemma_trim_zeros_end(d, j - 1);
    }
}

/// Dropping the leading and trailing zeros of a digit string, and counting
/// the place of the first kept digit, keeps its value.
proof fn lemma_normalised_digits_value(all: Seq<u8>)
    ensures
        ({
            let lz = skip_zeros(all, 0);
            if lz >= all.len() {
                lead_value(all, all.len() as int) == 0
            } else {
                &&& lz < trim_zeros_end(all, all.len() as int)
                &&& lead_value(
                    all.subrange(lz, trim_zeros_end(all, all.len() as int)),
                    all.len() - lz,
                ) == lead_value(all, all.len() as int)
            }
        }),
{
    let n = all.len() as int;
    lemma_skip_zeros(all, 0);
    let lz = skip_zeros(all, 0);
    if lz >= n {
        lemma_lead_value_zeros(all, n);
    } else {
        lemma_trim_zeros_end(all, n);
        let te = trim_zeros_end(all, n);
        assert(all[lz] != 0);
        let head = all.subrange(0, lz);
        let mid = all.subrange(lz, te);
        let tail = all.subrange(te, n);
        assert(all =~= head + (mid + tail));
        assert forall|i: int| 0 <= i < head.len() implies #[trigger] head[i] == 0 by {
            assert(head[i] == all[i]);
        }
        assert forall|i: int| 0 <= i < tail.len() implies #[trigger] tail[i] == 0 by {
            assert(tail[i] == all[te + i]);
        }
        lemma_lead_value_append(head, mid + tail, n);
        lemma_lead_value_zeros(head, n);
        lemma_lead_value_append(mid, tail, n - lz);
        lemma_lead_value_zeros(tail, n - lz - mid.len());
    }
}

/// The value of a digit text is the value of its digits placed as an
/// integer.
proof fn lemma_digits_value_is_lead_value(cs: Seq<char>)
    requires
        all_digits(cs),
    ensures
        digits_value(cs) == lead_value(cs.map_values(|c: char| digit_value(c)), cs.len() as int),
    decreases cs.len(),
{
    if cs.len() > 0 {
        let init = cs.drop_last();
        let m = cs.map_values(|c: char| digit_value(c));
        let mi = init.map_values(|c: char| digit_value(c));
        assert(all_digits(init)) by {
            assert forall|i: int| 0 <= i < init.len() implies is_digit(#[trigger] init[i]) by {
                assert(init[i] == cs[i]);
            }
        }
        lemma_digits_value_is_lead_value(init);
        assert(m =~= mi + seq![digit_value(cs.last())]);
        lemma_lead_value_append(mi, seq![digit_value(cs.last())], cs.len() as int);
        lemma_lead_value_shift(mi, init.len() as int);
        let one = seq![digit_value(cs.last())];
        assert(one.drop_first() =~= Seq::<u8>::empty());
        assert(lead_value(one, 1) == one[0] * pow10(0) + lead_value(one.drop_first(), 0));
    }
}

proof fn lemma_scan_to_first(s: Seq<char>, i: int, a: char, b: char, j: int)
    requires
        0 <= i <= j <= s.len(),
        forall|k: int| i <= k < j ==> #[trigger] s[k] != a && s[k] != b,
        j == s.len() || s[j] == a || s[j] == b,
    ensures
        scan_to(s, i, a, b) == j,
    decreases j - i,
{
    if i < j {
        lemma_scan_to_first(s, i + 1, a, b, j);
    }
}

/// The number a mantissa without exponent reads as, scaled by `10^f.len()`,
/// is the integer its digits write.
proof fn lemma_mantissa_value(body: Seq<char>, d: Seq<char>, f: Seq<char>)
    requires
        all_digits(d),
        all_digits(f),
        d.len() + f.len() > 0,
        scan_to(body, 0, 'e', 'E') == body.len(),
        ({
            let mant = body.subrange(0, body.len() as int);
            let ip = scan_to(mant, 0, '.', '.');
            &&& mant.subrange(0, ip) == d
            &&& (if ip < mant.len() {
                mant.subrange(ip + 1, mant.len() as int)
            } else {
                Seq::<char>::empty()
            }) == f
        }),
    ensures
        spec_parse_finite(body, false) matches Some(n) && n matches NumberModel::Finite {
            negative,
            ..
        } && !negative,
        scaled_value(spec_parse_finite(body, false)->0, f.len() as int) == digits_value(d + f),
{
    let all = (d + f).map_values(|c: char| digit_value(c));
    assert(all_digits(d + f)) by {
        assert forall|i: int| 0 <= i < (d + f).len() implies is_digit(#[trigger] (d + f)[i]) by {
            if i < d.len() {
                assert((d + f)[i] == d[i]);
            } else {
                assert((d + f)[i] == f[i - d.len()]);
            }
        }
    }
    lemma_digits_value_is_lead_value(d + f);
    lemma_normalised_digits_value(all);
    let empty = Seq::<char>::empty();
    assert(empty.subrange(0, 0) =~= empty);
    assert(capped_value(empty, 0) == 0);
}

/// A plain decimal text, digits `d`, a point and digits `f` (no sign, no
/// exponent), reads as a non-negative finite number whose value, scaled by
/// `10^f.len()`, is the integer written by the digits of `d` followed by
/// those of `f`: `"62199.9"` is `621999 / 10`.
pub proof fn lemma_plain_decimal_value(d: Seq<char>, f: Seq<char>)
    requires
        all_digits(d),
        all_digits(f),
        d.len() + f.len() > 0,
    ensures
        spec_parse_number(d + seq!['.'] + f) matches Some(n) && n matches NumberModel::Finite {
            negative,
            ..
        } && !negative,
        scaled_value(number_of(d + seq!['.'] + f), f.len() as int) == digits_value(d + f),
{
    let s = d + seq!['.'] + f;
    assert forall|k: int| 0 <= k < d.len() implies #[trigger] s[k] == d[k] by {}
    assert(s[d.len() as int] == '.');
    assert forall|k: int| 0 <= k < f.len() implies #[trigger] s[d.len() + 1 + k] == f[k] by {}
    assert(is_digit(s[0]) || s[0] == '.') by {
        if d.len() > 0 {
            assert(is_digit(d[0]));
        }
    }
    assert(sign_len(s) == 0);
    assert(s.subrange(0, s.len() as int) =~= s);
    reveal_strlit("inf");
    reveal_strlit("INF");
    reveal_strlit("infinity");
    reveal_strlit("INFINITY");
    reveal_strlit("nan");
    reveal_strlit("NAN");
    assert(!spells_ignoring_case(s, "inf"@, "INF"@));
    assert(!spells_ignoring_case(s, "infinity"@, "INFINITY"@));
    assert(!spells_ignoring_case(s, "nan"@, "NAN"@));
    assert forall|k: int| 0 <= k < s.len() implies #[trigger] s[k] != 'e' && s[k] != 'E' by {
        if k < d.len() {
            assert(is_digit(d[k]));
        } else if k > d.len() {
            assert(s[k] == f[k - d.len() - 1]);
            assert(is_digit(f[k - d.len() - 1]));
        }
    }
    lemma_scan_to_first(s, 0, 'e', 'E', s.len() as int);
    assert forall|k: int| 0 <= k < d.len() implies #[trigger] s[k] != '.' && s[k] != '.' by {
        assert(is_digit(d[k]));
    }
    lemma_scan_to_first(s, 0, '.', '.', d.len() as int);
    assert(s.subrange(0, d.len() as int) =~= d);
    assert(s.subrange((d.len() + 1) as int, s.len() as int) =~= f);
    lemma_mantissa_value(s, d, f);
}

/// A text of digits alone reads as a non-negative finite number whose
/// value is the integer the digits write.
pub proof fn lemma_plain_integer_value(d: Seq<char>)
    requires
        all_digits(d),
        d.len() > 0,
    ensures
        spec_parse_number(d) matches Some(n) && n matches NumberModel::Finite { negative, .. }
            && !negative,
        scaled_value(number_of(d), 0) == digits_value(d),
{
    assert(is_digit(d[0]));
    assert(sign_len(d) == 0);
    assert(d.subrange(0, d.len() as int) =~= d);
    reveal_strlit("inf");
    reveal_strlit("INF");
    reveal_strlit("infinity");
    reveal_strlit("INFINITY");
    reveal_strlit("nan");
    reveal_strlit("NAN");
    assert(!spells_ignoring_case(d, "inf"@, "INF"@));
    assert(!spells_ignoring_case(d, "infinity"@, "INFINITY"@));
    assert(!spells_ignoring_case(d, "nan"@, "NAN"@));
    assert forall|k: int| 0 <= k < d.len() implies #[trigger] d[k] != 'e' && d[k] != 'E' && d[k]
        != '.' by {
        assert(is_digit(d[k]));
    }
    lemma_scan_to_first(d, 0, 'e', 'E', d.len() as int);
    lemma_scan_to_first(d, 0, '.', '.', d.len() as int);
    assert(d + Seq::<char>::empty() =~= d);
    lemma_mantissa_value(d, d, Seq::<char>::empty());
}

/// A `-` before a text that starts with a digit reads as the same number
/// with the opposite sign, and a `+` as the same number: the sign of the
/// text is the sign of what it reads as, whatever follows.
pub proof fn lemma_sign_of_text(s: Seq<char>)
    requires
        s.len() > 0,
        is_digit(s[0]),
    ensures
        spec_parse_number(seq!['+'] + s) == spec_parse_number(s),
        spec_parse_number(s) is Some ==> spec_parse_number(s)->0 is Finite,
        match (spec_parse_number(s), spec_parse_number(seq!['-'] + s)) {
            (
                Some(NumberModel::Finite { negative: false, digits, exponent }),
                Some(NumberModel::Finite { negative: true, digits: d2, exponent: e2 }),
            ) => digits == d2 && exponent == e2,
            (None, None) => true,
            _ => false,
        },
{
    reveal_strlit("inf");
    reveal_strlit("INF");
    reveal_strlit("infinity");
    reveal_strlit("INFINITY");
    reveal_strlit("nan");
    reveal_strlit("NAN");
    let minus = seq!['-'] + s;
    let plus = seq!['+'] + s;
    assert(minus.subrange(1, minus.len() as int) =~= s);
    assert(plus.subrange(1, plus.len() as int) =~= s);
    assert(s.subrange(0, s.len() as int) =~= s);
    assert(sign_len(s) == 0);
    assert(!spells_ignoring_case(s, "inf"@, "INF"@));
    assert(!spells_ignoring_case(s, "infinity"@, "INFINITY"@));
    assert(!spells_ignoring_case(s, "nan"@, "NAN"@));
}

} // verus!
