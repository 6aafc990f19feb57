use super::contracts::{BinanceDepthOrderBookEvent, BinanceWsBidsAsks};
use crate::number::{
    is_nan, is_number_text, lemma_number_le_reflexive, lemma_number_le_total,
    lemma_number_le_transitive, magnitude_under, magnitude_under_exec, number_le,
    number_le_exec, number_of, parse_number, Number, NumberModel,
};
use crate::number::normalised;
use crate::number_value::{lead_value, lemma_magnitude_under_is_value_order, pow10, scale_fits, scaled_value};
use crate::str_map::StrMap;
use crate::text::to_uppercase;
use crate::websocket_core::BidAsk;
use vstd::prelude::*;

verus! {

/// The digits of the largest magnitude of a quantity that removes its price
/// level: `0.` and these digits, times `10^QTY_NEGLIGIBLE_EXPONENT`, that is
/// `0.0000999999999999999980159100243515268857663613744080066680908203125`.
///
/// A quantity read as an `f64` is negligible when it lies strictly between
/// `-0.0001` and `0.0001`, the bound itself read as an `f64`. That `f64` is
/// the double nearest `10^-4`; this decimal is the midpoint between it and
/// the double just below it, and a text reads as a double below the bound
/// exactly when its magnitude is at most the midpoint (the midpoint itself
/// rounds to the lower double, whose last bit is even). So comparing the
/// exact decimal with this midpoint removes the same levels as comparing
/// the `f64` reading with `0.0001`.
pub const QTY_NEGLIGIBLE_DIGITS: [u8; 63] = [9, 9, 9, 9, 9, 9, 9, 9, 9, 9, 9, 9, 9, 9, 9, 9, 8, 0, 1, 5, 9, 1, 0, 0, 2, 4, 3, 5, 1, 5, 2, 6, 8, 8, 5, 7, 6, 6, 3, 6, 1, 3, 7, 4, 4, 0, 8, 0, 0, 6, 6, 6, 8, 0, 9, 0, 8, 2, 0, 3, 1, 2, 5];

/// The decimal exponent of the negligible-quantity bound (see
/// [`QTY_NEGLIGIBLE_DIGITS`]).
pub const QTY_NEGLIGIBLE_EXPONENT: i128 = -4;

/// The quantity removes its price level: its `f64` reading lies strictly
/// between `-0.0001` and `0.0001` (see [`QTY_NEGLIGIBLE_DIGITS`]).
pub open spec fn negligible_qty(qty: NumberModel) -> bool {
    magnitude_under(qty, QTY_NEGLIGIBLE_DIGITS@, QTY_NEGLIGIBLE_EXPONENT as int, true)
}

/// The negligible-quantity bound as a number: `0.QTY_NEGLIGIBLE_DIGITS × 10^QTY_NEGLIGIBLE_EXPONENT`.
pub open spec fn negligible_qty_bound() -> NumberModel {
    NumberModel::Finite { negative: false, digits: QTY_NEGLIGIBLE_DIGITS@, exponent: QTY_NEGLIGIBLE_EXPONENT as int }
}

/// The bound written as an integer count of `10^-67`:
/// `0.0000999999999999999980159100243515268857663613744080066680908203125`.
pub proof fn lemma_negligible_qty_bound_value()
    ensures
        scaled_value(negligible_qty_bound(), 67)
            == 999999999999999980159100243515268857663613744080066680908203125int,
{
    let d = QTY_NEGLIGIBLE_DIGITS@;
    assert(pow10(0) == 1int);
    assert(d.skip(63).len() == 0);
    assert(lead_value(d.skip(63), 0) == 0int);
    assert(pow10(1) == 10int);
    assert(pow10(2) == 100int);
    assert(pow10(3) == 1000int);
    assert(pow10(4) == 10000int);
    assert(pow10(5) == 100000int);
    assert(pow10(6) == 1000000int);
    assert(pow10(7) == 10000000int);
    assert(pow10(8) == 100000000int);
    assert(pow10(9) == 1000000000int);
    assert(pow10(10) == 10000000000int);
    assert(pow10(11) == 100000000000int);
    assert(pow10(12) == 1000000000000int);
    assert(pow10(13) == 10000000000000int);
    assert(pow10(14) == 100000000000000int);
    assert(pow10(15) == 1000000000000000int);
    assert(pow10(16) == 10000000000000000int);
    assert(pow10(17) == 100000000000000000int);
    assert(pow10(18) == 1000000000000000000int);
    assert(pow10(19) == 10000000000000000000int);
    assert(pow10(20) == 100000000000000000000int);
    assert(pow10(21) == 1000000000000000000000int);
    assert(pow10(22) == 10000000000000000000000int);
    assert(pow10(23) == 100000000000000000000000int);
    assert(pow10(24) == 1000000000000000000000000int);
    assert(pow10(25) == 10000000000000000000000000int);
    assert(pow10(26) == 100000000000000000000000000int);
    assert(pow10(27) == 1000000000000000000000000000int);
    assert(pow10(28) == 10000000000000000000000000000int);
    assert(pow10(29) == 100000000000000000000000000000int);
    assert(pow10(30) == 1000000000000000000000000000000int);
    assert(pow10(31) == 10000000000000000000000000000000int);
    assert(pow10(32) == 100000000000000000000000000000000int);
    assert(pow10(33) == 1000000000000000000000000000000000int);
    assert(pow10(34) == 10000000000000000000000000000000000int);
    assert(pow10(35) == 100000000000000000000000000000000000int);
    assert(pow10(36) == 1000000000000000000000000000000000000int);
    assert(pow10(37) == 10000000000000000000000000000000000000int);
    assert(pow10(38) == 100000000000000000000000000000000000000int);
    assert(pow10(39) == 1000000000000000000000000000000000000000int);
    assert(pow10(40) == 10000000000000000000000000000000000000000int);
    assert(pow10(41) == 100000000000000000000000000000000000000000int);
    assert(pow10(42) == 1000000000000000000000000000000000000000000int);
    assert(pow10(43) == 10000000000000000000000000000000000000000000int);
    assert(pow10(44) == 100000000000000000000000000000000000000000000int);
    assert(pow10(45) == 1000000000000000000000000000000000000000000000int);
    assert(pow10(46) == 10000000000000000000000000000000000000000000000int);
    assert(pow10(47) == 100000000000000000000000000000000000000000000000int);
    assert(pow10(48) == 1000000000000000000000000000000000000000000000000int);
    assert(pow10(49) == 10000000000000000000000000000000000000000000000000int);
    assert(pow10(50) == 100000000000000000000000000000000000000000000000000int);
    assert(pow10(51) == 1000000000000000000000000000000000000000000000000000int);
    assert(pow10(52) == 10000000000000000000000000000000000000000000000000000int);
    assert(pow10(53) == 100000000000000000000000000000000000000000000000000000int);
    assert(pow10(54) == 1000000000000000000000000000000000000000000000000000000int);
    assert(pow10(55) == 10000000000000000000000000000000000000000000000000000000int);
    assert(pow10(56) == 100000000000000000000000000000000000000000000000000000000int);
    assert(pow10(57) == 1000000000000000000000000000000000000000000000000000000000int);
    assert(pow10(58) == 10000000000000000000000000000000000000000000000000000000000int);
    assert(pow10(59) == 100000000000000000000000000000000000000000000000000000000000int);
    assert(pow10(60) == 1000000000000000000000000000000000000000000000000000000000000int);
    assert(pow10(61) == 10000000000000000000000000000000000000000000000000000000000000int);
    assert(pow10(62) == 100000000000000000000000000000000000000000000000000000000000000int);
    assert(d.skip(62).drop_first() =~= d.skip(63));
    assert(lead_value(d.skip(62), 1) == 5int);
    assert(d.skip(61).drop_first() =~= d.skip(62));
    assert(lead_value(d.skip(61), 2) == 25int);
    assert(d.skip(60).drop_first() =~= d.skip(61));
    assert(lead_value(d.skip(60), 3) == 125int);
    assert(d.skip(59).drop_first() =~= d.skip(60));
    assert(lead_value(d.skip(59), 4) == 3125int);
    assert(d.skip(58).drop_first() =~= d.skip(59));
    assert(lead_value(d.skip(58), 5) == 3125int);
    assert(d.skip(57).drop_first() =~= d.skip(58));
    assert(lead_value(d.skip(57), 6) == 203125int);
    assert(d.skip(56).drop_first() =~= d.skip(57));
    assert(lead_value(d.skip(56), 7) == 8203125int);
    assert(d.skip(55).drop_first() =~= d.skip(56));
    assert(lead_value(d.skip(55), 8) == 8203125int);
    assert(d.skip(54).drop_first() =~= d.skip(55));
    assert(lead_value(d.skip(54), 9) == 908203125int);
    assert(d.skip(53).drop_first() =~= d.skip(54));
    assert(lead_value(d.skip(53), 10) == 908203125int);
    assert(d.skip(52).drop_first() =~= d.skip(53));
    assert(lead_value(d.skip(52), 11) == 80908203125int);
    assert(d.skip(51).drop_first() =~= d.skip(52));
    assert(lead_value(d.skip(51), 12) == 680908203125int);
    assert(d.skip(50).drop_first() =~= d.skip(51));
    assert(lead_value(d.skip(50), 13) == 6680908203125int);
    assert(d.skip(49).drop_first() =~= d.skip(50));
    assert(lead_value(d.skip(49), 14) == 66680908203125int);
    assert(d.skip(48).drop_first() =~= d.skip(49));
    assert(lead_value(d.skip(48), 15) == 66680908203125int);
    assert(d.skip(47).drop_first() =~= d.skip(48));
    assert(lead_value(d.skip(47), 16) == 66680908203125int);
    assert(d.skip(46).drop_first() =~= d.skip(47));
    assert(lead_value(d.skip(46), 17) == 80066680908203125int);
    assert(d.skip(45).drop_first() =~= d.skip(46));
    assert(lead_value(d.skip(45), 18) == 80066680908203125int);
    assert(d.skip(44).drop_first() =~= d.skip(45));
    assert(lead_value(d.skip(44), 19) == 4080066680908203125int);
    assert(d.skip(43).drop_first() =~= d.skip(44));
    assert(lead_value(d.skip(43), 20) == 44080066680908203125int);
    assert(d.skip(42).drop_first() =~= d.skip(43));
    assert(lead_value(d.skip(42), 21) == 744080066680908203125int);
    assert(d.skip(41).drop_first() =~= d.skip(42));
    assert(lead_value(d.skip(41), 22) == 3744080066680908203125int);
    assert(d.skip(40).drop_first() =~= d.skip(41));
    assert(lead_value(d.skip(40), 23) == 13744080066680908203125int);
    assert(d.skip(39).drop_first() =~= d.skip(40));
    assert(lead_value(d.skip(39), 24) == 613744080066680908203125int);
    assert(d.skip(38).drop_first() =~= d.skip(39));
    assert(lead_value(d.skip(38), 25) == 3613744080066680908203125int);
    assert(d.skip(37).drop_first() =~= d.skip(38));
    assert(lead_value(d.skip(37), 26) == 63613744080066680908203125int);
    assert(d.skip(36).drop_first() =~= d.skip(37));
    assert(lead_value(d.skip(36), 27) == 663613744080066680908203125int);
    assert(d.skip(35).drop_first() =~= d.skip(36));
    assert(lead_value(d.skip(35), 28) == 7663613744080066680908203125int);
    assert(d.skip(34).drop_first() =~= d.skip(35));
    assert(lead_value(d.skip(34), 29) == 57663613744080066680908203125int);
    assert(d.skip(33).drop_first() =~= d.skip(34));
    assert(lead_value(d.skip(33), 30) == 857663613744080066680908203125int);
    assert(d.skip(32).drop_first() =~= d.skip(33));
    assert(lead_value(d.skip(32), 31) == 8857663613744080066680908203125int);
    assert(d.skip(31).drop_first() =~= d.skip(32));
    assert(lead_value(d.skip(31), 32) == 68857663613744080066680908203125int);
    assert(d.skip(30).drop_first() =~= d.skip(31));
    assert(lead_value(d.skip(30), 33) == 268857663613744080066680908203125int);
    assert(d.skip(29).drop_first() =~= d.skip(30));
    assert(lead_value(d.skip(29), 34) == 5268857663613744080066680908203125int);
    assert(d.skip(28).drop_first() =~= d.skip(29));
    assert(lead_value(d.skip(28), 35) == 15268857663613744080066680908203125int);
    assert(d.skip(27).drop_first() =~= d.skip(28));
    assert(lead_value(d.skip(27), 36) == 515268857663613744080066680908203125int);
    assert(d.skip(26).drop_first() =~= d.skip(27));
    assert(lead_value(d.skip(26), 37) == 3515268857663613744080066680908203125int);
    assert(d.skip(25).drop_first() =~= d.skip(26));
    assert(lead_value(d.skip(25), 38) == 43515268857663613744080066680908203125int);
    assert(d.skip(24).drop_first() =~= d.skip(25));
    assert(lead_value(d.skip(24), 39) == 243515268857663613744080066680908203125int);
    assert(d.skip(23).drop_first() =~= d.skip(24));
    assert(lead_value(d.skip(23), 40) == 243515268857663613744080066680908203125int);
    assert(d.skip(22).drop_first() =~= d.skip(23));
    assert(lead_value(d.skip(22), 41) == 243515268857663613744080066680908203125int);
    assert(d.skip(21).drop_first() =~= d.skip(22));
    assert(lead_value(d.skip(21), 42) == 100243515268857663613744080066680908203125int);
    assert(d.skip(20).drop_first() =~= d.skip(21));
    assert(lead_value(d.skip(20), 43) == 9100243515268857663613744080066680908203125int);
    assert(d.skip(19).drop_first() =~= d.skip(20));
    assert(lead_value(d.skip(19), 44) == 59100243515268857663613744080066680908203125int);
    assert(d.skip(18).drop_first() =~= d.skip(19));
    assert(lead_value(d.skip(18), 45) == 159100243515268857663613744080066680908203125int);
    assert(d.skip(17).drop_first() =~= d.skip(18));
    assert(lead_value(d.skip(17), 46) == 159100243515268857663613744080066680908203125int);
    assert(d.skip(16).drop_first() =~= d.skip(17));
    assert(lead_value(d.skip(16), 47) == 80159100243515268857663613744080066680908203125int);
    assert(d.skip(15).drop_first() =~= d.skip(16));
    assert(lead_value(d.skip(15), 48) == 980159100243515268857663613744080066680908203125int);
    assert(d.skip(14).drop_first() =~= d.skip(15));
    assert(lead_value(d.skip(14), 49) == 9980159100243515268857663613744080066680908203125int);
    assert(d.skip(13).drop_first() =~= d.skip(14));
    assert(lead_value(d.skip(13), 50) == 99980159100243515268857663613744080066680908203125int);
    assert(d.skip(12).drop_first() =~= d.skip(13));
    assert(lead_value(d.skip(12), 51) == 999980159100243515268857663613744080066680908203125int);
    assert(d.skip(11).drop_first() =~= d.skip(12));
    assert(lead_value(d.skip(11), 52) == 9999980159100243515268857663613744080066680908203125int);
    assert(d.skip(10).drop_first() =~= d.skip(11));
    assert(lead_value(d.skip(10), 53) == 99999980159100243515268857663613744080066680908203125int);
    assert(d.skip(9).drop_first() =~= d.skip(10));
    assert(lead_value(d.skip(9), 54) == 999999980159100243515268857663613744080066680908203125int);
    assert(d.skip(8).drop_first() =~= d.skip(9));
    assert(lead_value(d.skip(8), 55) == 9999999980159100243515268857663613744080066680908203125int);
    assert(d.skip(7).drop_first() =~= d.skip(8));
    assert(lead_value(d.skip(7), 56) == 99999999980159100243515268857663613744080066680908203125int);
    assert(d.skip(6).drop_first() =~= d.skip(7));
    assert(lead_value(d.skip(6), 57) == 999999999980159100243515268857663613744080066680908203125int);
    assert(d.skip(5).drop_first() =~= d.skip(6));
    assert(lead_value(d.skip(5), 58) == 9999999999980159100243515268857663613744080066680908203125int);
    assert(d.skip(4).drop_first() =~= d.skip(5));
    assert(lead_value(d.skip(4), 59) == 99999999999980159100243515268857663613744080066680908203125int);
    assert(d.skip(3).drop_first() =~= d.skip(4));
    assert(lead_value(d.skip(3), 60) == 999999999999980159100243515268857663613744080066680908203125int);
    assert(d.skip(2).drop_first() =~= d.skip(3));
    assert(lead_value(d.skip(2), 61) == 9999999999999980159100243515268857663613744080066680908203125int);
    assert(d.skip(1).drop_first() =~= d.skip(2));
    assert(lead_value(d.skip(1), 62) == 99999999999999980159100243515268857663613744080066680908203125int);
    assert(d.skip(0).drop_first() =~= d.skip(1));
    assert(lead_value(d.skip(0), 63) == 999999999999999980159100243515268857663613744080066680908203125int);
    assert(d.skip(0) =~= d);
}

/// A quantity is negligible exactly when its magnitude is at most the bound
/// [`negligible_qty_bound`], comparing values: with both scaled by a power of ten
/// that makes them integers, `|q| <= bound`.
pub proof fn lemma_negligible_qty_is_value_order(q: NumberModel, scale: int)
    requires
        q is Finite,
        normalised(q),
        scale_fits(q, scale),
        scale_fits(negligible_qty_bound(), scale),
    ensures
        ({
            let v = scaled_value(q, scale);
            let m = if v < 0 {
                -v
            } else {
                v
            };
            negligible_qty(q) == (m <= scaled_value(negligible_qty_bound(), scale))
        }),
{
    let c = QTY_NEGLIGIBLE_DIGITS@;
    assert(c.len() > 0);
    assert(normalised(negligible_qty_bound()));
    lemma_magnitude_under_is_value_order(q, c, QTY_NEGLIGIBLE_EXPONENT as int, true, scale);
}

/// The book refuses the gap rule's updates once a side holds this many levels.
pub const MAX_LEVELS_PER_SIDE: usize = 3000;

/// The numbers held in a side of a book, as values.
pub open spec fn model_map(m: Map<Seq<char>, Number>) -> Map<Seq<char>, NumberModel> {
    m.map_values(|n: Number| n@)
}

/// Every quantity of the levels is a text `f64::from_str` reads.
pub open spec fn quantities_readable(ticks: Seq<BinanceWsBidsAsks>) -> bool {
    forall|i: int| 0 <= i < ticks.len() ==> is_number_text(#[trigger] ticks[i].qty@)
}

/// Every price of a side is a text `f64::from_str` reads.
pub open spec fn prices_readable(keys: Set<Seq<char>>) -> bool {
    forall|k: Seq<char>| keys.contains(k) ==> is_number_text(k)
}

/// The levels listed one after another, a later level of a price replacing
/// an earlier one.
pub open spec fn ticks_to_map(ticks: Seq<BinanceWsBidsAsks>) -> Map<Seq<char>, NumberModel>
    decreases ticks.len(),
{
    if ticks.len() == 0 {
        Map::empty()
    } else {
        ticks_to_map(ticks.drop_last()).insert(
            ticks.last().price@,
            number_of(ticks.last().qty@),
        )
    }
}

/// One level applied to a side: a negligible quantity removes the price,
/// any other quantity becomes the price's quantity.
pub open spec fn level_update(
    side: Map<Seq<char>, NumberModel>,
    price: Seq<char>,
    qty: NumberModel,
) -> Map<Seq<char>, NumberModel> {
    if negligible_qty(qty) {
        side.remove(price)
    } else {
        side.insert(price, qty)
    }
}

/// The levels applied to a side in order.
pub open spec fn apply_ticks(side: Map<Seq<char>, NumberModel>, ticks: Seq<BinanceWsBidsAsks>) -> Map<
    Seq<char>,
    NumberModel,
>
    decreases ticks.len(),
{
    if ticks.len() == 0 {
        side
    } else {
        level_update(
            apply_ticks(side, ticks.drop_last()),
            ticks.last().price@,
            number_of(ticks.last().qty@),
        )
    }
}

/// `a` comes no later than `b` in the search for the highest (or, with
/// `highest` false, the lowest) price.
pub open spec fn ranks_below(a: NumberModel, b: NumberModel, highest: bool) -> bool {
    if highest {
        number_le(a, b)
    } else {
        number_le(b, a)
    }
}

/// `best` is a price of `keys` with the highest (or lowest) value; NaN
/// prices count only where every price is NaN, as in a fold that starts
/// from NaN with `f64::max` (or `f64::min`).
pub open spec fn is_extreme_price(keys: Set<Seq<char>>, best: Seq<char>, highest: bool) -> bool {
    &&& keys.contains(best)
    &&& forall|k: Seq<char>|
        keys.contains(k) && !is_nan(number_of(k)) ==> ranks_below(
            number_of(k),
            number_of(best),
            highest,
        )
    &&& is_nan(number_of(best)) ==> forall|k: Seq<char>| keys.contains(k) ==> is_nan(number_of(k))
}

/// An order book of one instrument: quantity by price text on each side.
#[derive(Debug)]
pub struct BinanceOrderBook {
    pub instrument: String,
    pub date: i64,
    pub last_id: u128,
    pub bids: StrMap<Number>,
    pub asks: StrMap<Number>,
}

/// Reads a quantity whose text is known to be readable.
fn read_number(text: &str) -> (res: Number)
    requires
        is_number_text(text@),
    ensures
        res@ == number_of(text@),
{
    match parse_number(text) {
        Some(n) => n,
        None => {
            proof {
                assert(false);
            }
            vstd::pervasive::unreached()
        },
    }
}

/// The price of `side` with the highest (or lowest) value.
fn extreme_key(side: &StrMap<Number>, highest: bool) -> (res: String)
    requires
        side@.dom().len() > 0,
        prices_readable(side@.dom()),
    ensures
        is_extreme_price(side@.dom(), res@, highest),
{
    proof {
        use_type_invariant(side);
        side.lemma_entries();
    }
    let ghost keys = side.key_list();
    let n = side.entry_count();
    assert(keys.len() > 0) by {
        if keys.len() == 0 {
            assert(side@.dom().len() == 0);
        }
    }
    assert(is_number_text(keys[0]));
    let mut best: usize = 0;
    let mut best_num = read_number(side.key_at(0).as_str());
    proof {
        if !is_nan(best_num@) {
            lemma_number_le_reflexive(best_num@);
        }
    }
    let mut i: usize = 1;
    while i < n
        invariant
            n == keys.len(),
            keys == side.key_list(),
            forall|j: int| 0 <= j < keys.len() ==> side@.contains_key(#[trigger] keys[j]),
            prices_readable(side@.dom()),
            0 <= best < i <= n,
            best_num@ == number_of(keys[best as int]),
            forall|j: int|
                0 <= j < i && !is_nan(number_of(#[trigger] keys[j])) ==> ranks_below(
                    number_of(keys[j]),
                    best_num@,
                    highest,
                ),
            is_nan(best_num@) ==> forall|j: int| 0 <= j < i ==> is_nan(number_of(#[trigger] keys[j])),
        decreases n - i,
    {
        assert(side@.contains_key(keys[i as int]));
        let candidate = read_number(side.key_at(i).as_str());
        let ghost c = candidate@;
        let ghost cur = best_num@;
        let take = match candidate {
            Number::NotANumber => false,
            _ => match best_num {
                Number::NotANumber => true,
                _ => if highest {
                    !number_le_exec(&candidate, &best_num)
                } else {
                    !number_le_exec(&best_num, &candidate)
                },
            },
        };
        if take {
            proof {
                lemma_number_le_reflexive(c);
                if !is_nan(cur) {
                    lemma_number_le_total(c, cur);
                    assert forall|j: int|
                        0 <= j < i + 1 && !is_nan(number_of(#[trigger] keys[j])) implies ranks_below(
                        number_of(keys[j]),
                        c,
                        highest,
                    ) by {
                        if j < i {
                            if highest {
                                lemma_number_le_transitive(number_of(keys[j]), cur, c);
                            } else {
                                lemma_number_le_transitive(c, cur, number_of(keys[j]));
                            }
                        }
                    }
                }
            }
            best = i;
            best_num = candidate;
        } else {
            proof {
                if !is_nan(c) {
                    assert(!is_nan(cur));
                    lemma_number_le_total(c, cur);
                }
            }
        }
        i = i + 1;
    }
    let res = side.key_at(best).clone();
    assert forall|k: Seq<char>| side@.dom().contains(k) && !is_nan(number_of(k)) implies ranks_below(
        number_of(k),
        number_of(res@),
        highest,
    ) by {
        assert(side@.contains_key(k));
        let j = choose|j: int| 0 <= j < keys.len() && keys[j] == k;
        assert(!is_nan(number_of(keys[j])));
    }
    assert forall|k: Seq<char>| is_nan(number_of(res@)) && side@.dom().contains(k) implies is_nan(
        number_of(k),
    ) by {
        assert(side@.contains_key(k));
        let j = choose|j: int| 0 <= j < keys.len() && keys[j] == k;
        assert(is_nan(number_of(keys[j])));
    }
    res
}

/// Every price of `side` is readable.
fn side_prices_readable(side: &StrMap<Number>) -> (res: bool)
    ensures
        res == prices_readable(side@.dom()),
{
    proof {
        use_type_invariant(side);
        side.lemma_entries();
    }
    let ghost keys = side.key_list();
    let n = side.entry_count();
    let mut i: usize = 0;
    while i < n
        invariant
            n == keys.len(),
            keys == side.key_list(),
            forall|j: int| 0 <= j < keys.len() ==> side@.contains_key(#[trigger] keys[j]),
            i <= n,
            forall|j: int| 0 <= j < i ==> is_number_text(#[trigger] keys[j]),
        decreases n - i,
    {
        if parse_number(side.key_at(i).as_str()).is_none() {
            assert(side@.dom().contains(keys[i as int]));
            assert(!is_number_text(keys[i as int]));
            assert(!prices_readable(side@.dom()));
            return false;
        }
        i = i + 1;
    }
    assert forall|k: Seq<char>| side@.dom().contains(k) implies is_number_text(k) by {
        assert(side@.contains_key(k));
        let j = choose|j: int| 0 <= j < keys.len() && keys[j] == k;
        assert(is_number_text(keys[j]));
    }
    true
}

/// Applies the levels of an update to one side of the book.
fn apply_side(side: &mut StrMap<Number>, ticks: &Vec<BinanceWsBidsAsks>)
    requires
        quantities_readable(ticks@),
    ensures
        model_map(final(side)@) == apply_ticks(model_map(old(side)@), ticks@),
{
    let mut i: usize = 0;
    while i < ticks.len()
        invariant
            quantities_readable(ticks@),
            i <= ticks.len(),
            model_map(side@) == apply_ticks(model_map(old(side)@), ticks@.take(i as int)),
        decreases ticks.len() - i,
    {
        assert(is_number_text(ticks@[i as int].qty@));
        let volume = read_number(ticks[i].qty.as_str());
        let price = ticks[i].price.clone();
        let ghost before = side@;
        if magnitude_under_exec(&volume, QTY_NEGLIGIBLE_DIGITS.as_slice(), QTY_NEGLIGIBLE_EXPONENT, true) {
            side.remove(price.as_str());
            assert(model_map(side@) =~= model_map(before).remove(price@));
        } else {
            let ghost v = volume@;
            side.insert(price, volume);
            assert(model_map(side@) =~= model_map(before).insert(ticks@[i as int].price@, v));
        }
        assert(ticks@.take(i + 1).drop_last() =~= ticks@.take(i as int));
        i = i + 1;
    }
    assert(ticks@.take(ticks.len() as int) =~= ticks@);
}

/// Collects price levels into a side of a book, a later level of a price
/// replacing an earlier one; negligible quantities are kept.
pub fn bid_ask_to_hash_map(bidasks: &Vec<BinanceWsBidsAsks>) -> (res: StrMap<Number>)
    requires
        quantities_readable(bidasks@),
    ensures
        model_map(res@) == ticks_to_map(bidasks@),
{
    let mut hashmap: StrMap<Number> = StrMap::new();
    let mut i: usize = 0;
    assert(model_map(hashmap@) =~= Map::empty());
    while i < bidasks.len()
        invariant
            quantities_readable(bidasks@),
            i <= bidasks.len(),
            model_map(hashmap@) == ticks_to_map(bidasks@.take(i as int)),
        decreases bidasks.len() - i,
    {
        assert(is_number_text(bidasks@[i as int].qty@));
        let volume = read_number(bidasks[i].qty.as_str());
        let ghost before = hashmap@;
        let ghost v = volume@;
        hashmap.insert(bidasks[i].price.clone(), volume);
        assert(model_map(hashmap@) =~= model_map(before).insert(bidasks@[i as int].price@, v));
        assert(bidasks@.take(i + 1).drop_last() =~= bidasks@.take(i as int));
        i = i + 1;
    }
    assert(bidasks@.take(bidasks.len() as int) =~= bidasks@);
    hashmap
}

impl BinanceOrderBook {
    /// A book made from the levels of a first update.
    pub fn new(message: &BinanceDepthOrderBookEvent) -> (res: BinanceOrderBook)
        requires
            quantities_readable(message.bids@),
            quantities_readable(message.asks@),
        ensures
            res.instrument@ == crate::text::unicode_uppercase(message.symbol@),
            res.date == message.event_time,
            res.last_id == message.final_update_id,
            model_map(res.bids@) == ticks_to_map(message.bids@),
            model_map(res.asks@) == ticks_to_map(message.asks@),
    {
        BinanceOrderBook {
            instrument: to_uppercase(message.symbol.as_str()),
            date: message.event_time,
            last_id: message.final_update_id,
            bids: bid_ask_to_hash_map(&message.bids),
            asks: bid_ask_to_hash_map(&message.asks),
        }
    }

    /// An update may be applied: it starts right after the last applied one,
    /// or it spans the last applied one while neither side has reached
    /// [`MAX_LEVELS_PER_SIDE`] levels.
    pub fn is_valid(&self, socket_book: &BinanceDepthOrderBookEvent) -> (res: bool)
        ensures
            res == (socket_book.first_update_id == self.last_id + 1 || (
            socket_book.first_update_id <= self.last_id && self.last_id
                <= socket_book.final_update_id && self.asks@.dom().len() < MAX_LEVELS_PER_SIDE
                && self.bids@.dom().len() < MAX_LEVELS_PER_SIDE)),
    {
        let follows = self.last_id < u128::MAX && socket_book.first_update_id == self.last_id + 1;
        if follows || (socket_book.first_update_id <= self.last_id && self.last_id
            <= socket_book.final_update_id && self.asks.len() < MAX_LEVELS_PER_SIDE
            && self.bids.len() < MAX_LEVELS_PER_SIDE) {
            return true;
        }
        return false;
    }

    /// Applies an update's asks, then its bids, and records its id and time.
    pub fn process_bids_and_asks(&mut self, socket_message: &BinanceDepthOrderBookEvent)
        requires
            quantities_readable(socket_message.bids@),
            quantities_readable(socket_message.asks@),
        ensures
            final(self).instrument == old(self).instrument,
            final(self).last_id == socket_message.final_update_id,
            final(self).date == socket_message.event_time,
            model_map(final(self).asks@) == apply_ticks(
                model_map(old(self).asks@),
                socket_message.asks@,
            ),
            model_map(final(self).bids@) == apply_ticks(
                model_map(old(self).bids@),
                socket_message.bids@,
            ),
    {
        apply_side(&mut self.asks, &socket_message.asks);
        apply_side(&mut self.bids, &socket_message.bids);
        self.last_id = socket_message.final_update_id;
        self.date = socket_message.event_time;
    }

    /// Every price of the book is readable, as [`Self::get_best_price`]
    /// needs when both sides hold levels.
    pub fn has_readable_prices(&self) -> (res: bool)
        ensures
            res == (prices_readable(self.bids@.dom()) && prices_readable(self.asks@.dom())),
    {
        side_prices_readable(&self.bids) && side_prices_readable(&self.asks)
    }

    /// The highest bid and the lowest ask, when both sides hold levels.
    pub fn get_best_price(&self) -> (res: Option<BidAsk>)
        requires
            self.bids@.dom().len() == 0 || self.asks@.dom().len() == 0 || (prices_readable(
                self.bids@.dom(),
            ) && prices_readable(self.asks@.dom())),
        ensures
            match res {
                None => self.bids@.dom().len() == 0 || self.asks@.dom().len() == 0,
                Some(best) => {
                    &&& self.bids@.dom().len() > 0
                    &&& self.asks@.dom().len() > 0
                    &&& best.date == self.date
                    &&& best.id == self.instrument
                    &&& is_extreme_price(self.bids@.dom(), best.bid@, true)
                    &&& is_extreme_price(self.asks@.dom(), best.ask@, false)
                },
            },
    {
        if self.bids.len() == 0 || self.asks.len() == 0 {
            return None;
        }
        let bid = extreme_key(&self.bids, true);
        let ask = extreme_key(&self.asks, false);
        return Some(BidAsk { date: self.date, id: self.instrument.clone(), ask, bid });
    }
}

/// Position of the last level of `ticks` at price `p`, or -1.
pub open spec fn last_level_of(ticks: Seq<BinanceWsBidsAsks>, p: Seq<char>) -> int
    decreases ticks.len(),
{
    if ticks.len() == 0 {
        -1
    } else if ticks.last().price@ == p {
        ticks.len() - 1
    } else {
        last_level_of(ticks.drop_last(), p)
    }
}

/// A price after levels are applied depends only on the last level at that
/// price, or, where there is none, on the side before.
proof fn lemma_apply_ticks_at(side: Map<Seq<char>, NumberModel>, ticks: Seq<BinanceWsBidsAsks>, p: Seq<char>)
    ensures
        -1 <= last_level_of(ticks, p) < ticks.len(),
        last_level_of(ticks, p) >= 0 ==> ticks[last_level_of(ticks, p)].price@ == p,
        ({
            let after = apply_ticks(side, ticks);
            let j = last_level_of(ticks, p);
            if j < 0 {
                &&& after.contains_key(p) == side.contains_key(p)
                &&& side.contains_key(p) ==> after[p] == side[p]
            } else {
                let q = number_of(ticks[j].qty@);
                &&& after.contains_key(p) == !negligible_qty(q)
                &&& after.contains_key(p) ==> after[p] == q
            }
        }),
    decreases ticks.len(),
{
    if ticks.len() > 0 {
        lemma_apply_ticks_at(side, ticks.drop_last(), p);
        if ticks.last().price@ != p {
            let j = last_level_of(ticks.drop_last(), p);
            if j >= 0 {
                assert(ticks.drop_last()[j] == ticks[j]);
            }
        }
    }
}

/// Applying the same levels a second time leaves a side as applying them
/// once: an update delivered twice does no harm.
pub proof fn lemma_apply_ticks_idempotent(side: Map<Seq<char>, NumberModel>, ticks: Seq<BinanceWsBidsAsks>)
    ensures
        apply_ticks(apply_ticks(side, ticks), ticks) == apply_ticks(side, ticks),
{
    let once = apply_ticks(side, ticks);
    let twice = apply_ticks(once, ticks);
    assert forall|p: Seq<char>| #[trigger] twice.contains_key(p) == once.contains_key(p) && (
    once.contains_key(p) ==> twice[p] == once[p]) by {
        lemma_apply_ticks_at(side, ticks, p);
        lemma_apply_ticks_at(once, ticks, p);
    }
    assert(twice =~= once);
}

} // verus!
