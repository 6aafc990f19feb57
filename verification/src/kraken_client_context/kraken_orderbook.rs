use super::contracts::{OrderBookEvent, OrderBookSnapshotEvent, WsBidsAsks, WsBidsAsksSnapshot};
use crate::number::{
    is_number_text, magnitude_under, magnitude_under_exec, number_of, parse_number,
    Number, NumberModel,
};
use crate::number::normalised;
use crate::number_value::{lead_value, lemma_magnitude_under_is_value_order, pow10, scale_fits, scaled_value};
use crate::str_map::StrMap;
use crate::text::{
    lemma_text_le_reflexive, lemma_text_le_total, lemma_text_le_transitive, text_le, text_le_exec,
    to_uppercase, unicode_uppercase,
};
use crate::websocket_core::{BidAsk, MessageError};
use vstd::prelude::*;

verus! {

/// The digits of the bound below which a volume removes its price level:
/// `0.` and these digits, times `10^VOLUME_NEGLIGIBLE_EXPONENT`, that is
/// `0.00000000999999999999999938204499574825705188185764882291550748050212860107421875`.
///
/// A volume read as an `f64` is negligible when it lies strictly between
/// `-0.00000001` and `0.00000001`, the bound itself read as an `f64`. That
/// `f64` is the double nearest `10^-8`; this decimal is the midpoint between
/// it and the double just below it, and a text reads as a double below the
/// bound exactly when its magnitude is below the midpoint (the midpoint
/// itself rounds up to the bound, whose last bit is even). So comparing the
/// exact decimal with this midpoint removes the same levels as comparing
/// the `f64` reading with `0.00000001`.
pub const VOLUME_NEGLIGIBLE_DIGITS: [u8; 72] = [9, 9, 9, 9, 9, 9, 9, 9, 9, 9, 9, 9, 9, 9, 9, 9, 3, 8, 2, 0, 4, 4, 9, 9, 5, 7, 4, 8, 2, 5, 7, 0, 5, 1, 8, 8, 1, 8, 5, 7, 6, 4, 8, 8, 2, 2, 9, 1, 5, 5, 0, 7, 4, 8, 0, 5, 0, 2, 1, 2, 8, 6, 0, 1, 0, 7, 4, 2, 1, 8, 7, 5];

/// The decimal exponent of the negligible-volume bound (see
/// [`VOLUME_NEGLIGIBLE_DIGITS`]).
pub const VOLUME_NEGLIGIBLE_EXPONENT: i128 = -8;

/// The volume removes its price level: its `f64` reading lies strictly
/// between `-0.00000001` and `0.00000001` (see [`VOLUME_NEGLIGIBLE_DIGITS`]).
pub open spec fn negligible_volume(qty: NumberModel) -> bool {
    magnitude_under(qty, VOLUME_NEGLIGIBLE_DIGITS@, VOLUME_NEGLIGIBLE_EXPONENT as int, false)
}

/// The negligible-quantity bound as a number: `0.VOLUME_NEGLIGIBLE_DIGITS × 10^VOLUME_NEGLIGIBLE_EXPONENT`.
pub open spec fn negligible_volume_bound() -> NumberModel {
    NumberModel::Finite { negative: false, digits: VOLUME_NEGLIGIBLE_DIGITS@, exponent: VOLUME_NEGLIGIBLE_EXPONENT as int }
}

/// The bound written as an integer count of `10^-80`:
/// `0.00000000999999999999999938204499574825705188185764882291550748050212860107421875`.
pub proof fn lemma_negligible_volume_bound_value()
    ensures
        scaled_value(negligible_volume_bound(), 80)
            == 999999999999999938204499574825705188185764882291550748050212860107421875int,
{
    let d = VOLUME_NEGLIGIBLE_DIGITS@;
    assert(pow10(0) == 1int);
    assert(d.skip(72).len() == 0);
    assert(lead_value(d.skip(72), 0) == 0int);
    assert(pow10(1) == 10int);
    assert(pow10(2) == 100int);
    assert(pow10(3) == 1000int);
    assert(pow10(4) == 10000int);
    assert(pow10(5) == 100000int);
    assert(pow10(6) == 1000000int);
    assert(pow10(7) == 10000000int);
    assert(pow10(8) == 100000000int);
    assert(pow10(9) == 1000000000int);
    assert(pow10(10) == 10000000000int);
    assert(pow10(11) == 100000000000int);
    assert(pow10(12) == 1000000000000int);
    assert(pow10(13) == 10000000000000int);
    assert(pow10(14) == 100000000000000int);
    assert(pow10(15) == 1000000000000000int);
    assert(pow10(16) == 10000000000000000int);
    assert(pow10(17) == 100000000000000000int);
    assert(pow10(18) == 1000000000000000000int);
    assert(pow10(19) == 10000000000000000000int);
    assert(pow10(20) == 100000000000000000000int);
    assert(pow10(21) == 1000000000000000000000int);
    assert(pow10(22) == 10000000000000000000000int);
    assert(pow10(23) == 100000000000000000000000int);
    assert(pow10(24) == 1000000000000000000000000int);
    assert(pow10(25) == 10000000000000000000000000int);
    assert(pow10(26) == 100000000000000000000000000int);
    assert(pow10(27) == 1000000000000000000000000000int);
    assert(pow10(28) == 10000000000000000000000000000int);
    assert(pow10(29) == 100000000000000000000000000000int);
    assert(pow10(30) == 1000000000000000000000000000000int);
    assert(pow10(31) == 10000000000000000000000000000000int);
    assert(pow10(32) == 100000000000000000000000000000000int);
    assert(pow10(33) == 1000000000000000000000000000000000int);
    assert(pow10(34) == 10000000000000000000000000000000000int);
    assert(pow10(35) == 100000000000000000000000000000000000int);
    assert(pow10(36) == 1000000000000000000000000000000000000int);
    assert(pow10(37) == 10000000000000000000000000000000000000int);
    assert(pow10(38) == 100000000000000000000000000000000000000int);
    assert(pow10(39) == 1000000000000000000000000000000000000000int);
    assert(pow10(40) == 10000000000000000000000000000000000000000int);
    assert(pow10(41) == 100000000000000000000000000000000000000000int);
    assert(pow10(42) == 1000000000000000000000000000000000000000000int);
    assert(pow10(43) == 10000000000000000000000000000000000000000000int);
    assert(pow10(44) == 100000000000000000000000000000000000000000000int);
    assert(pow10(45) == 1000000000000000000000000000000000000000000000int);
    assert(pow10(46) == 10000000000000000000000000000000000000000000000int);
    assert(pow10(47) == 100000000000000000000000000000000000000000000000int);
    assert(pow10(48) == 1000000000000000000000000000000000000000000000000int);
    assert(pow10(49) == 10000000000000000000000000000000000000000000000000int);
    assert(pow10(50) == 100000000000000000000000000000000000000000000000000int);
    assert(pow10(51) == 1000000000000000000000000000000000000000000000000000int);
    assert(pow10(52) == 10000000000000000000000000000000000000000000000000000int);
    assert(pow10(53) == 100000000000000000000000000000000000000000000000000000int);
    assert(pow10(54) == 1000000000000000000000000000000000000000000000000000000int);
    assert(pow10(55) == 10000000000000000000000000000000000000000000000000000000int);
    assert(pow10(56) == 100000000000000000000000000000000000000000000000000000000int);
    assert(pow10(57) == 1000000000000000000000000000000000000000000000000000000000int);
    assert(pow10(58) == 10000000000000000000000000000000000000000000000000000000000int);
    assert(pow10(59) == 100000000000000000000000000000000000000000000000000000000000int);
    assert(pow10(60) == 1000000000000000000000000000000000000000000000000000000000000int);
    assert(pow10(61) == 10000000000000000000000000000000000000000000000000000000000000int);
    assert(pow10(62) == 100000000000000000000000000000000000000000000000000000000000000int);
    assert(pow10(63) == 1000000000000000000000000000000000000000000000000000000000000000int);
    assert(pow10(64) == 10000000000000000000000000000000000000000000000000000000000000000int);
    assert(pow10(65) == 100000000000000000000000000000000000000000000000000000000000000000int);
    assert(pow10(66) == 1000000000000000000000000000000000000000000000000000000000000000000int);
    assert(pow10(67) == 10000000000000000000000000000000000000000000000000000000000000000000int);
    assert(pow10(68) == 100000000000000000000000000000000000000000000000000000000000000000000int);
    assert(pow10(69) == 1000000000000000000000000000000000000000000000000000000000000000000000int);
    assert(pow10(70) == 10000000000000000000000000000000000000000000000000000000000000000000000int);
    assert(pow10(71) == 100000000000000000000000000000000000000000000000000000000000000000000000int);
    assert(d.skip(71).drop_first() =~= d.skip(72));
    assert(lead_value(d.skip(71), 1) == 5int);
    assert(d.skip(70).drop_first() =~= d.skip(71));
    assert(lead_value(d.skip(70), 2) == 75int);
    assert(d.skip(69).drop_first() =~= d.skip(70));
    assert(lead_value(d.skip(69), 3) == 875int);
    assert(d.skip(68).drop_first() =~= d.skip(69));
    assert(lead_value(d.skip(68), 4) == 1875int);
    assert(d.skip(67).drop_first() =~= d.skip(68));
    assert(lead_value(d.skip(67), 5) == 21875int);
    assert(d.skip(66).drop_first() =~= d.skip(67));
    assert(lead_value(d.skip(66), 6) == 421875int);
    assert(d.skip(65).drop_first() =~= d.skip(66));
    assert(lead_value(d.skip(65), 7) == 7421875int);
    assert(d.skip(64).drop_first() =~= d.skip(65));
    assert(lead_value(d.skip(64), 8) == 7421875int);
    assert(d.skip(63).drop_first() =~= d.skip(64));
    assert(lead_value(d.skip(63), 9) == 107421875int);
    assert(d.skip(62).drop_first() =~= d.skip(63));
    assert(lead_value(d.skip(62), 10) == 107421875int);
    assert(d.skip(61).drop_first() =~= d.skip(62));
    assert(lead_value(d.skip(61), 11) == 60107421875int);
    assert(d.skip(60).drop_first() =~= d.skip(61));
    assert(lead_value(d.skip(60), 12) == 860107421875int);
    assert(d.skip(59).drop_first() =~= d.skip(60));
    assert(lead_value(d.skip(59), 13) == 2860107421875int);
    assert(d.skip(58).drop_first() =~= d.skip(59));
    assert(lead_value(d.skip(58), 14) == 12860107421875int);
    assert(d.skip(57).drop_first() =~= d.skip(58));
    assert(lead_value(d.skip(57), 15) == 212860107421875int);
    assert(d.skip(56).drop_first() =~= d.skip(57));
    assert(lead_value(d.skip(56), 16) == 212860107421875int);
    assert(d.skip(55).drop_first() =~= d.skip(56));
    assert(lead_value(d.skip(55), 17) == 50212860107421875int);
    assert(d.skip(54).drop_first() =~= d.skip(55));
    assert(lead_value(d.skip(54), 18) == 50212860107421875int);
    assert(d.skip(53).drop_first() =~= d.skip(54));
    assert(lead_value(d.skip(53), 19) == 8050212860107421875int);
    assert(d.skip(52).drop_first() =~= d.skip(53));
    assert(lead_value(d.skip(52), 20) == 48050212860107421875int);
    assert(d.skip(51).drop_first() =~= d.skip(52));
    assert(lead_value(d.skip(51), 21) == 748050212860107421875int);
    assert(d.skip(50).drop_first() =~= d.skip(51));
    assert(lead_value(d.skip(50), 22) == 748050212860107421875int);
    assert(d.skip(49).drop_first() =~= d.skip(50));
    assert(lead_value(d.skip(49), 23) == 50748050212860107421875int);
    assert(d.skip(48).drop_first() =~= d.skip(49));
    assert(lead_value(d.skip(48), 24) == 550748050212860107421875int);
    assert(d.skip(47).drop_first() =~= d.skip(48));
    assert(lead_value(d.skip(47), 25) == 1550748050212860107421875int);
    assert(d.skip(46).drop_first() =~= d.skip(47));
    assert(lead_value(d.skip(46), 26) == 91550748050212860107421875int);
    assert(d.skip(45).drop_first() =~= d.skip(46));
    assert(lead_value(d.skip(45), 27) == 291550748050212860107421875int);
    assert(d.skip(44).drop_first() =~= d.skip(45));
    assert(lead_value(d.skip(44), 28) == 2291550748050212860107421875int);
    assert(d.skip(43).drop_first() =~= d.skip(44));
    assert(lead_value(d.skip(43), 29) == 82291550748050212860107421875int);
    assert(d.skip(42).drop_first() =~= d.skip(43));
    assert(lead_value(d.skip(42), 30) == 882291550748050212860107421875int);
    assert(d.skip(41).drop_first() =~= d.skip(42));
    assert(lead_value(d.skip(41), 31) == 4882291550748050212860107421875int);
    assert(d.skip(40).drop_first() =~= d.skip(41));
    assert(lead_value(d.skip(40), 32) == 64882291550748050212860107421875int);
    assert(d.skip(39).drop_first() =~= d.skip(40));
    assert(lead_value(d.skip(39), 33) == 764882291550748050212860107421875int);
    assert(d.skip(38).drop_first() =~= d.skip(39));
    assert(lead_value(d.skip(38), 34) == 5764882291550748050212860107421875int);
    assert(d.skip(37).drop_first() =~= d.skip(38));
    assert(lead_value(d.skip(37), 35) == 85764882291550748050212860107421875int);
    assert(d.skip(36).drop_first() =~= d.skip(37));
    assert(lead_value(d.skip(36), 36) == 185764882291550748050212860107421875int);
    assert(d.skip(35).drop_first() =~= d.skip(36));
    assert(lead_value(d.skip(35), 37) == 8185764882291550748050212860107421875int);
    assert(d.skip(34).drop_first() =~= d.skip(35));
    assert(lead_value(d.skip(34), 38) == 88185764882291550748050212860107421875int);
    assert(d.skip(33).drop_first() =~= d.skip(34));
    assert(lead_value(d.skip(33), 39) == 188185764882291550748050212860107421875int);
    assert(d.skip(32).drop_first() =~= d.skip(33));
    assert(lead_value(d.skip(32), 40) == 5188185764882291550748050212860107421875int);
    assert(d.skip(31).drop_first() =~= d.skip(32));
    assert(lead_value(d.skip(31), 41) == 5188185764882291550748050212860107421875int);
    assert(d.skip(30).drop_first() =~= d.skip(31));
    assert(lead_value(d.skip(30), 42) == 705188185764882291550748050212860107421875int);
    assert(d.skip(29).drop_first() =~= d.skip(30));
    assert(lead_value(d.skip(29), 43) == 5705188185764882291550748050212860107421875int);
    assert(d.skip(28).drop_first() =~= d.skip(29));
    assert(lead_value(d.skip(28), 44) == 25705188185764882291550748050212860107421875int);
    assert(d.skip(27).drop_first() =~= d.skip(28));
    assert(lead_value(d.skip(27), 45) == 825705188185764882291550748050212860107421875int);
    assert(d.skip(26).drop_first() =~= d.skip(27));
    assert(lead_value(d.skip(26), 46) == 4825705188185764882291550748050212860107421875int);
    assert(d.skip(25).drop_first() =~= d.skip(26));
    assert(lead_value(d.skip(25), 47) == 74825705188185764882291550748050212860107421875int);
    assert(d.skip(24).drop_first() =~= d.skip(25));
    assert(lead_value(d.skip(24), 48) == 574825705188185764882291550748050212860107421875int);
    assert(d.skip(23).drop_first() =~= d.skip(24));
    assert(lead_value(d.skip(23), 49) == 9574825705188185764882291550748050212860107421875int);
    assert(d.skip(22).drop_first() =~= d.skip(23));
    assert(lead_value(d.skip(22), 50) == 99574825705188185764882291550748050212860107421875int);
    assert(d.skip(21).drop_first() =~= d.skip(22));
    assert(lead_value(d.skip(21), 51) == 499574825705188185764882291550748050212860107421875int);
    assert(d.skip(20).drop_first() =~= d.skip(21));
    assert(lead_value(d.skip(20), 52) == 4499574825705188185764882291550748050212860107421875int);
    assert(d.skip(19).drop_first() =~= d.skip(20));
    assert(lead_value(d.skip(19), 53) == 4499574825705188185764882291550748050212860107421875int);
    assert(d.skip(18).drop_first() =~= d.skip(19));
    assert(lead_value(d.skip(18), 54) == 204499574825705188185764882291550748050212860107421875int);
    assert(d.skip(17).drop_first() =~= d.skip(18));
    assert(lead_value(d.skip(17), 55) == 8204499574825705188185764882291550748050212860107421875int);
    assert(d.skip(16).drop_first() =~= d.skip(17));
    assert(lead_value(d.skip(16), 56) == 38204499574825705188185764882291550748050212860107421875int);
    assert(d.skip(15).drop_first() =~= d.skip(16));
    assert(lead_value(d.skip(15), 57) == 938204499574825705188185764882291550748050212860107421875int);
    assert(d.skip(14).drop_first() =~= d.skip(15));
    assert(lead_value(d.skip(14), 58) == 9938204499574825705188185764882291550748050212860107421875int);
    assert(d.skip(13).drop_first() =~= d.skip(14));
    assert(lead_value(d.skip(13), 59) == 99938204499574825705188185764882291550748050212860107421875int);
    assert(d.skip(12).drop_first() =~= d.skip(13));
    assert(lead_value(d.skip(12), 60) == 999938204499574825705188185764882291550748050212860107421875int);
    assert(d.skip(11).drop_first() =~= d.skip(12));
    assert(lead_value(d.skip(11), 61) == 9999938204499574825705188185764882291550748050212860107421875int);
    assert(d.skip(10).drop_first() =~= d.skip(11));
    assert(lead_value(d.skip(10), 62) == 99999938204499574825705188185764882291550748050212860107421875int);
    assert(d.skip(9).drop_first() =~= d.skip(10));
    assert(lead_value(d.skip(9), 63) == 999999938204499574825705188185764882291550748050212860107421875int);
    assert(d.skip(8).drop_first() =~= d.skip(9));
    assert(lead_value(d.skip(8), 64) == 9999999938204499574825705188185764882291550748050212860107421875int);
    assert(d.skip(7).drop_first() =~= d.skip(8));
    assert(lead_value(d.skip(7), 65) == 99999999938204499574825705188185764882291550748050212860107421875int);
    assert(d.skip(6).drop_first() =~= d.skip(7));
    assert(lead_value(d.skip(6), 66) == 999999999938204499574825705188185764882291550748050212860107421875int);
    assert(d.skip(5).drop_first() =~= d.skip(6));
    assert(lead_value(d.skip(5), 67) == 9999999999938204499574825705188185764882291550748050212860107421875int);
    assert(d.skip(4).drop_first() =~= d.skip(5));
    assert(lead_value(d.skip(4), 68) == 99999999999938204499574825705188185764882291550748050212860107421875int);
    assert(d.skip(3).drop_first() =~= d.skip(4));
    assert(lead_value(d.skip(3), 69) == 999999999999938204499574825705188185764882291550748050212860107421875int);
    assert(d.skip(2).drop_first() =~= d.skip(3));
    assert(lead_value(d.skip(2), 70) == 9999999999999938204499574825705188185764882291550748050212860107421875int);
    assert(d.skip(1).drop_first() =~= d.skip(2));
    assert(lead_value(d.skip(1), 71) == 99999999999999938204499574825705188185764882291550748050212860107421875int);
    assert(d.skip(0).drop_first() =~= d.skip(1));
    assert(lead_value(d.skip(0), 72) == 999999999999999938204499574825705188185764882291550748050212860107421875int);
    assert(d.skip(0) =~= d);
}

/// A quantity is negligible exactly when its magnitude is below the bound
/// [`negligible_volume_bound`], comparing values: with both scaled by a power of ten
/// that makes them integers, `|q| < bound`.
pub proof fn lemma_negligible_volume_is_value_order(q: NumberModel, scale: int)
    requires
        q is Finite,
        normalised(q),
        scale_fits(q, scale),
        scale_fits(negligible_volume_bound(), scale),
    ensures
        ({
            let v = scaled_value(q, scale);
            let m = if v < 0 {
                -v
            } else {
                v
            };
            negligible_volume(q) == (m < scaled_value(negligible_volume_bound(), scale))
        }),
{
    let c = VOLUME_NEGLIGIBLE_DIGITS@;
    assert(c.len() > 0);
    assert(normalised(negligible_volume_bound()));
    lemma_magnitude_under_is_value_order(q, c, VOLUME_NEGLIGIBLE_EXPONENT as int, false, scale);
}

/// A level of a snapshot, as texts.
pub struct SnapshotLevel {
    pub price: Seq<char>,
    pub qty: Seq<char>,
    pub time: Seq<char>,
}

/// A level of an update, as texts.
pub struct UpdateLevel {
    pub price: Seq<char>,
    pub qty: Seq<char>,
    pub time: Seq<char>,
    pub republished: Seq<char>,
}

pub open spec fn snapshot_levels(v: Seq<WsBidsAsksSnapshot>) -> Seq<SnapshotLevel> {
    v.map_values(
        |l: WsBidsAsksSnapshot| SnapshotLevel { price: l.price@, qty: l.qty@, time: l.time@ },
    )
}

pub open spec fn update_levels(v: Seq<WsBidsAsks>) -> Seq<UpdateLevel> {
    v.map_values(
        |l: WsBidsAsks|
            UpdateLevel {
                price: l.price@,
                qty: l.qty@,
                time: l.time@,
                republished: l.republished@,
            },
    )
}

/// Every quantity and time of the snapshot levels is a readable number.
pub open spec fn snapshot_readable(levels: Seq<SnapshotLevel>) -> bool {
    forall|i: int|
        0 <= i < levels.len() ==> is_number_text(#[trigger] levels[i].qty) && is_number_text(
            levels[i].time,
        )
}

/// Every quantity and time of the update levels is a readable number.
pub open spec fn updates_readable(levels: Seq<UpdateLevel>) -> bool {
    forall|i: int|
        0 <= i < levels.len() ==> is_number_text(#[trigger] levels[i].qty) && is_number_text(
            levels[i].time,
        )
}

/// The (quantity, time) pairs of a side, as values.
pub open spec fn pair_model(m: Map<Seq<char>, (Number, Number)>) -> Map<
    Seq<char>,
    (NumberModel, NumberModel),
> {
    m.map_values(|p: (Number, Number)| (p.0@, p.1@))
}

/// Snapshot levels listed one after another, a later level of a price
/// replacing an earlier one.
pub open spec fn snapshot_to_map(levels: Seq<SnapshotLevel>) -> Map<
    Seq<char>,
    (NumberModel, NumberModel),
>
    decreases levels.len(),
{
    if levels.len() == 0 {
        Map::empty()
    } else {
        snapshot_to_map(levels.drop_last()).insert(
            levels.last().price,
            (number_of(levels.last().qty), number_of(levels.last().time)),
        )
    }
}

/// Update levels applied to a side in order: a negligible quantity removes
/// the price, any other sets its quantity and time.
pub open spec fn apply_updates(
    side: Map<Seq<char>, (NumberModel, NumberModel)>,
    levels: Seq<UpdateLevel>,
) -> Map<Seq<char>, (NumberModel, NumberModel)>
    decreases levels.len(),
{
    if levels.len() == 0 {
        side
    } else {
        let before = apply_updates(side, levels.drop_last());
        let l = levels.last();
        if negligible_volume(number_of(l.qty)) {
            before.remove(l.price)
        } else {
            before.insert(l.price, (number_of(l.qty), number_of(l.time)))
        }
    }
}

/// `k` is the first of `keys` in the order of texts.
pub open spec fn is_least_text(keys: Set<Seq<char>>, k: Seq<char>) -> bool {
    keys.contains(k) && forall|o: Seq<char>| keys.contains(o) ==> text_le(k, o)
}

/// `k` is the last of `keys` in the order of texts.
pub open spec fn is_greatest_text(keys: Set<Seq<char>>, k: Seq<char>) -> bool {
    keys.contains(k) && forall|o: Seq<char>| keys.contains(o) ==> text_le(o, k)
}

/// An order book of one pair: (quantity, time) by price text on each side.
#[derive(Debug)]
pub struct KrakenOrderBook {
    pub instrument: String,
    pub date: i64,
    pub last_id: u128,
    pub bids: StrMap<(Number, Number)>,
    pub asks: StrMap<(Number, Number)>,
}

/// The first (or last) price text of a side.
pub open spec fn end_readable(keys: Set<Seq<char>>, last: bool) -> bool {
    forall|k: Seq<char>|
        (if last {
            is_greatest_text(keys, k)
        } else {
            is_least_text(keys, k)
        }) ==> is_number_text(k)
}

/// The prices that a quote reads (lowest ask text, highest bid text) are
/// readable numbers.
pub open spec fn quoted_prices_readable(book: KrakenOrderBook) -> bool {
    end_readable(book.asks@.dom(), false) && end_readable(book.bids@.dom(), true)
}

/// What is answered for a book: nothing while a side is empty; otherwise
/// the lowest ask and highest bid price texts, or an error when one of
/// them is not a number.
pub open spec fn kraken_quote(book: KrakenOrderBook, res: Result<Option<BidAsk>, MessageError>) -> bool {
    if book.bids@.dom().len() == 0 || book.asks@.dom().len() == 0 {
        res == Ok::<Option<BidAsk>, MessageError>(None)
    } else if !quoted_prices_readable(book) {
        res == Err::<Option<BidAsk>, MessageError>(MessageError::UnreadablePrice)
    } else {
        &&& res matches Ok(Some(best))
        &&& best.date == book.date
        &&& best.id == book.instrument
        &&& is_least_text(book.asks@.dom(), best.ask@)
        &&& is_greatest_text(book.bids@.dom(), best.bid@)
    }
}

fn read_number(text: &str) -> (res: Number)
    requires
        is_number_text(text@),
    ensures
        res@ == number_of(text@),
{
    match parse_number(text) {
        Some(n) => n,
        None => {
            proof {
                assert(false);
            }
            vstd::pervasive::unreached()
        },
    }
}

/// The first (or, with `last`, the last) price text of a nonempty side.
fn end_key(side: &StrMap<(Number, Number)>, last: bool) -> (res: String)
    requires
        side@.dom().len() > 0,
    ensures
        last ==> is_greatest_text(side@.dom(), res@),
        !last ==> is_least_text(side@.dom(), res@),
{
    proof {
        use_type_invariant(side);
        side.lemma_entries();
    }
    let ghost keys = side.key_list();
    let n = side.entry_count();
    assert(keys.len() > 0) by {
        if keys.len() == 0 {
            assert(side@.dom().len() == 0);
        }
    }
    let mut best: usize = 0;
    proof {
        lemma_text_le_reflexive(keys[0]);
    }
    let mut i: usize = 1;
    while i < n
        invariant
            n == keys.len(),
            keys == side.key_list(),
            0 <= best < i <= n,
            forall|j: int|
                0 <= j < i ==> (if last {
                    text_le(#[trigger] keys[j], keys[best as int])
                } else {
                    text_le(keys[best as int], keys[j])
                }),
        decreases n - i,
    {
        let better = if last {
            !text_le_exec(side.key_at(i).as_str(), side.key_at(best).as_str())
        } else {
            !text_le_exec(side.key_at(best).as_str(), side.key_at(i).as_str())
        };
        proof {
            lemma_text_le_total(keys[i as int], keys[best as int]);
            lemma_text_le_reflexive(keys[i as int]);
        }
        if better {
            proof {
                assert forall|j: int| 0 <= j < i + 1 implies (if last {
                    text_le(#[trigger] keys[j], keys[i as int])
                } else {
                    text_le(keys[i as int], keys[j])
                }) by {
                    if j < i {
                        if last {
                            lemma_text_le_transitive(keys[j], keys[best as int], keys[i as int]);
                        } else {
                            lemma_text_le_transitive(keys[i as int], keys[best as int], keys[j]);
                        }
                    }
                }
            }
            best = i;
        }
        i = i + 1;
    }
    let res = side.key_at(best).clone();
    assert forall|o: Seq<char>| side@.dom().contains(o) implies (if last {
        text_le(o, res@)
    } else {
        text_le(res@, o)
    }) by {
        assert(side@.contains_key(o));
        let j = choose|j: int| 0 <= j < keys.len() && keys[j] == o;
        assert(if last {
            text_le(keys[j], keys[best as int])
        } else {
            text_le(keys[best as int], keys[j])
        });
    }
    res
}

/// Collects snapshot levels into a side of a book, a later level of a
/// price replacing an earlier one.
pub fn bid_ask_to_btree_map(bidasks: &Vec<WsBidsAsksSnapshot>) -> (res: StrMap<(Number, Number)>)
    requires
        snapshot_readable(snapshot_levels(bidasks@)),
    ensures
        pair_model(res@) == snapshot_to_map(snapshot_levels(bidasks@)),
{
    let ghost levels = snapshot_levels(bidasks@);
    let mut btree_map: StrMap<(Number, Number)> = StrMap::new();
    let mut i: usize = 0;
    assert(pair_model(btree_map@) =~= Map::empty());
    while i < bidasks.len()
        invariant
            levels == snapshot_levels(bidasks@),
            snapshot_readable(levels),
            i <= bidasks.len(),
            pair_model(btree_map@) == snapshot_to_map(levels.take(i as int)),
        decreases bidasks.len() - i,
    {
        assert(is_number_text(levels[i as int].qty) && is_number_text(levels[i as int].time));
        let qty = read_number(bidasks[i].qty.as_str());
        let time = read_number(bidasks[i].time.as_str());
        let ghost before = btree_map@;
        let ghost v = (qty@, time@);
        btree_map.insert(bidasks[i].price.clone(), (qty, time));
        assert(pair_model(btree_map@) =~= pair_model(before).insert(levels[i as int].price, v));
        assert(levels.take(i + 1).drop_last() =~= levels.take(i as int));
        i = i + 1;
    }
    assert(levels.take(bidasks.len() as int) =~= levels);
    btree_map
}

/// Applies update levels to one side of the book.
fn apply_side(side: &mut StrMap<(Number, Number)>, ticks: &Vec<WsBidsAsks>)
    requires
        updates_readable(update_levels(ticks@)),
    ensures
        pair_model(final(side)@) == apply_updates(pair_model(old(side)@), update_levels(ticks@)),
{
    let ghost levels = update_levels(ticks@);
    let mut i: usize = 0;
    while i < ticks.len()
        invariant
            levels == update_levels(ticks@),
            updates_readable(levels),
            i <= ticks.len(),
            pair_model(side@) == apply_updates(pair_model(old(side)@), levels.take(i as int)),
        decreases ticks.len() - i,
    {
        assert(is_number_text(levels[i as int].qty) && is_number_text(levels[i as int].time));
        let volume = read_number(ticks[i].qty.as_str());
        let time = read_number(ticks[i].time.as_str());
        let price = ticks[i].price.clone();
        let ghost before = side@;
        assert(levels.take(i + 1).drop_last() =~= levels.take(i as int));
        assert(levels.take(i + 1).last() == levels[i as int]);
        if magnitude_under_exec(&volume, VOLUME_NEGLIGIBLE_DIGITS.as_slice(), VOLUME_NEGLIGIBLE_EXPONENT, false) {
            side.remove(price.as_str());
            assert(pair_model(side@) =~= pair_model(before).remove(price@));
        } else {
            let ghost v = (volume@, time@);
            side.insert(price, (volume, time));
            assert(pair_model(side@) =~= pair_model(before).insert(levels[i as int].price, v));
        }
        i = i + 1;
    }
    assert(levels.take(ticks.len() as int) =~= levels);
}

impl KrakenOrderBook {
    /// A book made from a snapshot.
    pub fn new(message: &OrderBookSnapshotEvent) -> (res: KrakenOrderBook)
        requires
            snapshot_readable(snapshot_levels(message.bid_ask.bs_vec@)),
            snapshot_readable(snapshot_levels(message.bid_ask.as_vec@)),
        ensures
            res.instrument@ == unicode_uppercase(message.pair@),
            res.date == 0,
            res.last_id == 0,
            pair_model(res.bids@) == snapshot_to_map(snapshot_levels(message.bid_ask.bs_vec@)),
            pair_model(res.asks@) == snapshot_to_map(snapshot_levels(message.bid_ask.as_vec@)),
    {
        return KrakenOrderBook {
            instrument: to_uppercase(message.pair.as_str()),
            date: 0,
            last_id: 0,
            bids: bid_ask_to_btree_map(&message.bid_ask.bs_vec),
            asks: bid_ask_to_btree_map(&message.bid_ask.as_vec),
        };
    }

    /// Every update is accepted.
    pub fn is_valid(&self, socket_book: &OrderBookEvent) -> (res: bool)
        ensures
            res,
    {
        return true;
    }

    /// Applies an update's asks, then its bids.
    pub fn process_bids_and_asks(&mut self, socket_message: &OrderBookEvent)
        requires
            updates_readable(update_levels(socket_message.bid_ask.as_vec@)),
            updates_readable(update_levels(socket_message.bid_ask.bs_vec@)),
        ensures
            final(self).instrument == old(self).instrument,
            final(self).date == old(self).date,
            final(self).last_id == old(self).last_id,
            pair_model(final(self).asks@) == apply_updates(
                pair_model(old(self).asks@),
                update_levels(socket_message.bid_ask.as_vec@),
            ),
            pair_model(final(self).bids@) == apply_updates(
                pair_model(old(self).bids@),
                update_levels(socket_message.bid_ask.bs_vec@),
            ),
    {
        let container = &socket_message.bid_ask;
        apply_side(&mut self.asks, &container.as_vec);
        apply_side(&mut self.bids, &container.bs_vec);
    }

    /// The prices a quote reads are readable (see [`quoted_prices_readable`]).
    pub fn has_readable_quote_prices(&self) -> (res: bool)
        requires
            self.bids@.dom().len() > 0,
            self.asks@.dom().len() > 0,
        ensures
            res == quoted_prices_readable(*self),
    {
        let ask = end_key(&self.asks, false);
        let bid = end_key(&self.bids, true);
        proof {
            assert forall|k: Seq<char>| is_least_text(self.asks@.dom(), k) implies k == ask@ by {
                lemma_text_le_antisymmetric_wrap(k, ask@);
            }
            assert forall|k: Seq<char>| is_greatest_text(self.bids@.dom(), k) implies k
                == bid@ by {
                lemma_text_le_antisymmetric_wrap(k, bid@);
            }
            if is_number_text(ask@) {
                assert(end_readable(self.asks@.dom(), false));
            } else {
                assert(!end_readable(self.asks@.dom(), false)) by {
                    assert(is_least_text(self.asks@.dom(), ask@));
                }
            }
            if is_number_text(bid@) {
                assert(end_readable(self.bids@.dom(), true));
            } else {
                assert(!end_readable(self.bids@.dom(), true)) by {
                    assert(is_greatest_text(self.bids@.dom(), bid@));
                }
            }
        }
        parse_number(ask.as_str()).is_some() && parse_number(bid.as_str()).is_some()
    }

    /// The lowest ask and highest bid, by the order of their texts, when
    /// both sides hold levels.
    pub fn get_best_price(&self) -> (res: Option<BidAsk>)
        requires
            self.bids@.dom().len() == 0 || self.asks@.dom().len() == 0 || quoted_prices_readable(
                *self,
            ),
        ensures
            match res {
                None => self.bids@.dom().len() == 0 || self.asks@.dom().len() == 0,
                Some(best) => {
                    &&& self.bids@.dom().len() > 0
                    &&& self.asks@.dom().len() > 0
                    &&& best.date == self.date
                    &&& best.id == self.instrument
                    &&& is_least_text(self.asks@.dom(), best.ask@)
                    &&& is_greatest_text(self.bids@.dom(), best.bid@)
                },
            },
    {
        if self.bids.len() == 0 || self.asks.len() == 0 {
            return None;
        }
        let ask_price = end_key(&self.asks, false);
        let bid_price = end_key(&self.bids, true);
        return Some(
            BidAsk { date: self.date, id: self.instrument.clone(), ask: ask_price, bid: bid_price },
        );
    }
}

proof fn lemma_text_le_antisymmetric_wrap(a: Seq<char>, b: Seq<char>)
    ensures
        text_le(a, b) && text_le(b, a) ==> a == b,
{
    if text_le(a, b) && text_le(b, a) {
        crate::text::lemma_text_le_antisymmetric(a, b);
    }
}

/// The quote of a book (see [`kraken_quote`]).
pub(crate) fn quote_book(book: &KrakenOrderBook) -> (res: Result<Option<BidAsk>, MessageError>)
    ensures
        kraken_quote(*book, res),
{
    if book.bids.len() == 0 || book.asks.len() == 0 {
        return Ok(None);
    }
    if !book.has_readable_quote_prices() {
        return Err(MessageError::UnreadablePrice);
    }
    Ok(book.get_best_price())
}

/// Position of the last level of `levels` at price `p`, or -1.
pub open spec fn last_update_of(levels: Seq<UpdateLevel>, p: Seq<char>) -> int
    decreases levels.len(),
{
    if levels.len() == 0 {
        -1
    } else if levels.last().price == p {
        levels.len() - 1
    } else {
        last_update_of(levels.drop_last(), p)
    }
}

/// A price after updates are applied depends only on the last update at
/// that price, or, where there is none, on the side before.
proof fn lemma_apply_updates_at(
    side: Map<Seq<char>, (NumberModel, NumberModel)>,
    levels: Seq<UpdateLevel>,
    p: Seq<char>,
)
    ensures
        -1 <= last_update_of(levels, p) < levels.len(),
        last_update_of(levels, p) >= 0 ==> levels[last_update_of(levels, p)].price == p,
        ({
            let after = apply_updates(side, levels);
            let j = last_update_of(levels, p);
            if j < 0 {
                &&& after.contains_key(p) == side.contains_key(p)
                &&& side.contains_key(p) ==> after[p] == side[p]
            } else {
                let q = number_of(levels[j].qty);
                &&& after.contains_key(p) == !negligible_volume(q)
                &&& after.contains_key(p) ==> after[p] == (q, number_of(levels[j].time))
            }
        }),
    decreases levels.len(),
{
    if levels.len() > 0 {
        lemma_apply_updates_at(side, levels.drop_last(), p);
        if levels.last().price != p {
            let j = last_update_of(levels.drop_last(), p);
            if j >= 0 {
                assert(levels.drop_last()[j] == levels[j]);
            }
        }
    }
}

/// Applying the same update levels a second time leaves a side as applying
/// them once: an update delivered twice does no harm.
pub proof fn lemma_apply_updates_idempotent(
    side: Map<Seq<char>, (NumberModel, NumberModel)>,
    levels: Seq<UpdateLevel>,
)
    ensures
        apply_updates(apply_updates(side, levels), levels) == apply_updates(side, levels),
{
    let once = apply_updates(side, levels);
    let twice = apply_updates(once, levels);
    assert forall|p: Seq<char>| #[trigger] twice.contains_key(p) == once.contains_key(p) && (
    once.contains_key(p) ==> twice[p] == once[p]) by {
        lemma_apply_updates_at(side, levels, p);
        lemma_apply_updates_at(once, levels, p);
    }
    assert(twice =~= once);
}

} // verus!
