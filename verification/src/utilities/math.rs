//! Random draws used by the game's rules: a bounded integer, a yes-or-no
//! with given odds, and a pick from a weighted list.
//!
//! The draws themselves are made by `rand`, with the generator of the
//! running thread. What is assumed of `rand` is written down at the four
//! private functions that call it; everything else here is proved from
//! that. A machine on which the generator cannot be seeded is outside what
//! these contracts cover.

use crate::entities::Entity;
use crate::utilities::wide::{wide, wide_ge, wide_mul};
use rand::distr::weighted::WeightedIndex;
use rand::distr::Distribution;
use vstd::prelude::*;

verus! {

/// The distribution over indices that `rand` builds from a list of weights.
///
/// It wraps `rand::distr::weighted::WeightedIndex<u32>`. The verifier cannot
/// be told of that type directly, since its weight type is bound by a trait
/// of `rand`, so it is kept behind this struct, whose inside the verifier
/// does not look at.
#[verifier::external_body]
pub struct IndexDistribution {
    inner: WeightedIndex<u32>,
}

/// The reason `rand` gives when it refuses a list of weights.
#[verifier::external_type_specification]
#[verifier::external_body]
pub struct ExWeightError(rand::distr::weighted::Error);

/// The weights that the distribution was built from, in their order.
pub uninterp spec fn index_weights(dist: IndexDistribution) -> Seq<u32>;

/// Sum of a list of weights.
pub open spec fn total_weight(weights: Seq<u32>) -> int
    decreases weights.len(),
{
    if weights.len() == 0 {
        0
    } else {
        total_weight(weights.drop_last()) + weights.last()
    }
}

/// A weight put at the end of a list adds to its sum.
pub proof fn lemma_total_push(weights: Seq<u32>, weight: u32)
    ensures
        total_weight(weights.push(weight)) == total_weight(weights) + weight,
{
    assert(weights.push(weight).drop_last() == weights);
}

/// The sum of two lists put together is the sum of their sums.
pub proof fn lemma_total_concat(first: Seq<u32>, second: Seq<u32>)
    ensures
        total_weight(first + second) == total_weight(first) + total_weight(second),
    decreases second.len(),
{
    if second.len() == 0 {
        assert(first + second == first);
    } else {
        lemma_total_concat(first, second.drop_last());
        assert((first + second).drop_last() == first + second.drop_last());
    }
}

/// A list of weights from which a pick can be made: it is not empty, its
/// weights are not all zero, and their sum fits the weight type.
pub open spec fn pickable(weights: Seq<u32>) -> bool {
    &&& weights.len() > 0
    &&& 0 < total_weight(weights) <= u32::MAX
}

/// The weights of a list of weighted entries, in their order.
pub open spec fn pool_weights<T>(pool: Seq<(T, u32)>) -> Seq<u32> {
    Seq::new(pool.len(), |i: int| pool[i].1)
}

/// Calls `rand::random_range` on the inclusive range `low..=high`.
///
/// The outside function panics on an empty range, so `low <= high` is
/// required. Claimed of it: the value returned lies inside the range.
#[verifier::external_body]
fn sample_inclusive(low: u16, high: u16) -> (r: u16)
    requires
        low <= high,
    ensures
        low <= r <= high,
{
    rand::random_range(low..=high)
}

/// Calls `rand::random_ratio`.
///
/// The outside function panics when the denominator is zero or smaller than
/// the numerator, so both are excluded. Claimed of it: odds of zero never
/// give `true`, and odds of one always do.
#[verifier::external_body]
fn sample_ratio(numerator: u32, denominator: u32) -> (r: bool)
    requires
        denominator > 0,
        numerator <= denominator,
    ensures
        numerator == 0 ==> !r,
        numerator == denominator ==> r,
{
    rand::random_ratio(numerator, denominator)
}

/// Calls `WeightedIndex::new` on the weights.
///
/// Claimed of it: it succeeds exactly on a non-empty list whose sum is
/// positive and does not overflow, and the distribution it returns
/// remembers the weights it was given.
#[verifier::external_body]
fn weighted_index_new(weights: &Vec<u32>) -> (r: Result<IndexDistribution, rand::distr::weighted::Error>)
    ensures
        r is Ok <==> pickable(weights@),
        r matches Ok(dist) ==> index_weights(dist) == weights@,
{
    WeightedIndex::new(weights).map(|inner| IndexDistribution { inner })
}

/// Calls `WeightedIndex::sample` with the thread's generator.
///
/// Claimed of it: the index returned is within the list the distribution
/// was built from, and an entry of weight zero is never chosen.
#[verifier::external_body]
fn weighted_index_sample(dist: &IndexDistribution) -> (r: usize)
    ensures
        r < index_weights(*dist).len(),
        index_weights(*dist)[r as int] > 0,
{
    dist.inner.sample(&mut rand::rng())
}

/// Draws an integer from the inclusive range `(min, max)`.
pub fn rng_from_range(range_tuple: (u16, u16)) -> (r: u16)
    requires
        range_tuple.0 <= range_tuple.1,
    ensures
        range_tuple.0 <= r <= range_tuple.1,
{
    sample_inclusive(range_tuple.0, range_tuple.1)
}

/// Says yes with odds of `numerator` in `denominator`.
pub fn bool_from_chance(numerator: u32, denominator: u32) -> (r: bool)
    requires
        denominator > 0,
        numerator <= denominator,
    ensures
        numerator == 0 ==> !r,
        numerator == denominator ==> r,
{
    sample_ratio(numerator, denominator)
}

/// Draws an index into `weights`, each index with odds proportional to its
/// weight. Gives `None` exactly when no pick can be made from the list.
pub fn weighted_index(weights: &Vec<u32>) -> (r: Option<usize>)
    ensures
        r is Some <==> pickable(weights@),
        r matches Some(i) ==> i < weights@.len() && weights@[i as int] > 0,
{
    match weighted_index_new(weights) {
        Ok(dist) => Some(weighted_index_sample(&dist)),
        Err(_) => None,
    }
}

/// Takes the entry at `index` out of the pool: gives its value and the
/// other entries in their order.
pub fn pick_at<T>(pool: Vec<(T, u32)>, index: usize) -> (r: (T, Vec<(T, u32)>))
    requires
        index < pool@.len(),
    ensures
        r.0 == pool@[index as int].0,
        r.1@ == pool@.remove(index as int),
{
    let mut rest = pool;
    let chosen = rest.remove(index);
    (chosen.0, rest)
}

/// Picks one entry from a weighted list, each with odds proportional to
/// its weight, and takes it out: gives its value and the other entries in
/// their order. Gives `None` exactly when no pick can be made: the list is
/// empty, all weights are zero, or their sum overflows.
///
/// An entry of weight zero is never picked, so a list of one entry of
/// positive weight always yields that entry.
pub fn weighted_pick<T>(pool: Vec<(T, u32)>) -> (r: Option<(T, Vec<(T, u32)>)>)
    ensures
        r is Some <==> pickable(pool_weights(pool@)),
        r matches Some((chosen, rest)) ==> exists|i: int|
            0 <= i < pool@.len() && (#[trigger] pool@[i]).1 > 0 && chosen == pool@[i].0 && rest@
                == pool@.remove(i),
        pool@.len() == 0 ==> r is None,
        pool@.len() == 1 && pool@[0].1 > 0 ==> (r matches Some((chosen, rest)) && chosen
            == pool@[0].0 && rest@.len() == 0),
{
    if pool.is_empty() {
        return None;
    }
    let mut weights: Vec<u32> = Vec::new();
    let mut i: usize = 0;
    while i < pool.len()
        invariant
            i <= pool@.len(),
            weights@ == pool_weights(pool@).take(i as int),
        decreases pool@.len() - i,
    {
        weights.push(pool[i].1);
        i += 1;
    }
    assert(weights@ == pool_weights(pool@));
    proof {
        if pool@.len() == 1 && pool@[0].1 > 0 {
            lemma_total_push(Seq::<u32>::empty(), pool@[0].1);
            assert(weights@ == Seq::<u32>::empty().push(pool@[0].1));
        }
    }
    match weighted_index(&weights) {
        Some(index) => Some(pick_at(pool, index)),
        None => None,
    }
}

/// Picks one value from a weighted list, each with odds proportional to its
/// weight, and gives `None` exactly when no pick can be made: the list is
/// empty, all weights are zero, or their sum overflows.
///
/// An entry of weight zero is never picked, so a list of one entry of
/// positive weight always yields that entry.
pub fn weigh_vec<T>(vec: Vec<(T, u32)>) -> (r: Option<T>)
    ensures
        r is Some <==> pickable(pool_weights(vec@)),
        r matches Some(x) ==> exists|i: int|
            0 <= i < vec@.len() && (#[trigger] vec@[i]).1 > 0 && x == vec@[i].0,
        vec@.len() == 0 ==> r is None,
        vec@.len() == 1 && vec@[0].1 > 0 ==> r == Some(vec@[0].0),
{
    match weighted_pick(vec) {
        Some((chosen, _)) => Some(chosen),
        None => None,
    }
}

/// The fourth power.
pub open spec fn pow4(x: int) -> int {
    x * x * x * x
}

/// The fifth power.
pub open spec fn pow5(x: int) -> int {
    x * x * x * x * x
}

/// Twenty times the score of an entity. The score is the entity's maximum
/// health times its average damage raised by three tenths of its damage
/// spread, that is `max_health * (7 * min + 13 * max) / 20`.
pub open spec fn strength(max_health: u16, damage: (u16, u16)) -> int {
    max_health * (7 * damage.0 + 13 * damage.1)
}

/// Whether `gain` is at least `0.075 * score ^ 0.8`, for the score that
/// `strength` is twenty times of. With both sides raised to the fifth
/// power and cleared of fractions, this is
/// `40^5 * 20^4 * gain^5 >= 3^5 * strength^4`.
pub open spec fn pays(gain: int, strength: int) -> bool {
    16_384_000_000_000 * pow5(gain) >= 243 * pow4(strength)
}

/// Whether `gain` is `0.075 * score ^ 0.8` rounded up to a whole number:
/// it is at least that much, and one less is not.
pub open spec fn is_xp_gain(gain: int, strength: int) -> bool {
    &&& gain >= 0
    &&& pays(gain, strength)
    &&& gain > 0 ==> !pays(gain - 1, strength)
}

/// The experience that defeating an entity is worth:
/// `0.075 * score ^ 0.8`, rounded up to a whole number.
pub open spec fn xp_gain(max_health: u16, damage: (u16, u16)) -> int {
    choose|gain: int| is_xp_gain(gain, strength(max_health, damage))
}

/// Fifth powers grow with their base.
pub proof fn lemma_pow5_grows(a: int, b: int)
    requires
        0 <= a <= b,
    ensures
        pow5(a) <= pow5(b),
{
    assert(a * a <= b * b) by (nonlinear_arith)
        requires
            0 <= a <= b,
    ;
    assert(a * a * a <= b * b * b) by (nonlinear_arith)
        requires
            0 <= a <= b,
            a * a <= b * b,
    ;
    assert(a * a * a * a <= b * b * b * b) by (nonlinear_arith)
        requires
            0 <= a <= b,
            a * a * a <= b * b * b,
            0 <= a * a * a,
    ;
    assert(a * a * a * a * a <= b * b * b * b * b) by (nonlinear_arith)
        requires
            0 <= a <= b,
            a * a * a * a <= b * b * b * b,
            0 <= a * a * a * a,
    ;
}

/// Fourth powers grow with their base.
pub proof fn lemma_pow4_grows(a: int, b: int)
    requires
        0 <= a <= b,
    ensures
        0 <= pow4(a) <= pow4(b),
{
    assert(0 <= a * a <= b * b) by (nonlinear_arith)
        requires
            0 <= a <= b,
    ;
    assert(0 <= (a * a) * (a * a) <= (b * b) * (b * b)) by (nonlinear_arith)
        requires
            0 <= a * a <= b * b,
    ;
    assert(pow4(a) == (a * a) * (a * a)) by (nonlinear_arith);
    assert(pow4(b) == (b * b) * (b * b)) by (nonlinear_arith);
}

/// A gain that pays keeps paying when it is raised.
pub proof fn lemma_pays_grows(gain: int, more: int, strength: int)
    requires
        0 <= gain <= more,
        pays(gain, strength),
    ensures
        pays(more, strength),
{
    lemma_pow5_grows(gain, more);
}

/// There is only one whole number that is the experience for a strength.
pub proof fn lemma_xp_gain_unique(first: int, second: int, strength: int)
    requires
        is_xp_gain(first, strength),
        is_xp_gain(second, strength),
    ensures
        first == second,
{
    if first < second {
        lemma_pays_grows(first, second - 1, strength);
    }
    if second < first {
        lemma_pays_grows(second, first - 1, strength);
    }
}

/// Whether `gain` pays for an entity of the given health whose damage
/// range weighs `reach`, that is `7 * min + 13 * max`.
fn pays_for(gain: u32, max_health: u16, reach: u32) -> (r: bool)
    requires
        gain <= 0x40_0000,
        reach <= 1_310_700,
    ensures
        r == pays(gain as int, max_health * reach),
{
    let g: u128 = gain as u128;
    assert(g * g <= 0x40_0000 * 0x40_0000) by (nonlinear_arith)
        requires
            g <= 0x40_0000,
    ;
    let g2: u128 = g * g;
    assert(g2 * g2 <= 0x1000_0000_0000 * 0x1000_0000_0000) by (nonlinear_arith)
        requires
            g2 <= 0x1000_0000_0000,
    ;
    let g4: u128 = g2 * g2;
    let kg: u128 = 16_384_000_000_000 * g;
    let left = wide_mul(kg, g4);

    let h: u128 = max_health as u128;
    assert(h * h <= 0xffff * 0xffff) by (nonlinear_arith)
        requires
            h <= 0xffff,
    ;
    let h2: u128 = h * h;
    assert(h2 * h2 <= 0xfffe_0001 * 0xfffe_0001) by (nonlinear_arith)
        requires
            h2 <= 0xfffe_0001,
    ;
    let h4: u128 = h2 * h2;
    let ch: u128 = 243 * h4;
    let d: u128 = reach as u128;
    assert(d * d <= 1_310_700 * 1_310_700) by (nonlinear_arith)
        requires
            d <= 1_310_700,
    ;
    let d2: u128 = d * d;
    assert(d2 * d2 <= 1_717_934_490_000 * 1_717_934_490_000) by (nonlinear_arith)
        requires
            d2 <= 1_717_934_490_000,
    ;
    let d4: u128 = d2 * d2;
    let right = wide_mul(ch, d4);
    proof {
        assert(kg * g4 == 16_384_000_000_000 * pow5(g as int)) by (nonlinear_arith)
            requires
                kg == 16_384_000_000_000 * g,
                g4 == (g * g) * (g * g),
        ;
        assert(ch * d4 == 243 * pow4(h * d)) by (nonlinear_arith)
            requires
                ch == 243 * ((h * h) * (h * h)),
                d4 == (d * d) * (d * d),
        ;
    }
    wide_ge(left, right)
}

/// The experience that defeating the entity is worth:
/// `0.075 * score ^ 0.8` rounded up to a whole number, where the score is
/// the entity's maximum health times the sum of its average damage and
/// three tenths of half its damage spread.
pub fn calc_xp_gain(entity: &Entity) -> (r: u32)
    ensures
        r == xp_gain(entity.max_health, entity.damage),
        is_xp_gain(r as int, strength(entity.max_health, entity.damage)),
        r <= 0x40_0000,
{
    let max_health = entity.max_health;
    let reach: u32 = 7 * (entity.damage.0 as u32) + 13 * (entity.damage.1 as u32);
    let ghost n = strength(entity.max_health, entity.damage);
    assert(n == max_health * reach);
    let mut low: u32 = 0;
    let mut high: u32 = 0x40_0000;
    proof {
        // the largest gain considered pays for the strongest entity there can be
        assert(0 <= n <= 85_896_744_500) by (nonlinear_arith)
            requires
                n == max_health * reach,
                0 <= max_health <= 65_535,
                0 <= reach <= 1_310_700,
        ;
        lemma_pow4_grows(n, 85_896_744_500);
        assert(pow4(85_896_744_500) == 54_438_583_623_702_184_733_153_352_807_540_062_500_000_000);
        assert(pow5(0x40_0000) == 1_298_074_214_633_706_907_132_624_082_305_024);
    }
    if pays_for(0, max_health, reach) {
        proof {
            assert(is_xp_gain(0, n));
            lemma_xp_gain_unique(0, xp_gain(entity.max_health, entity.damage), n);
        }
        return 0;
    }
    while high - low > 1
        invariant
            low < high <= 0x40_0000,
            reach <= 1_310_700,
            n == max_health * reach,
            !pays(low as int, n),
            pays(high as int, n),
        decreases high - low,
    {
        let mid: u32 = low + (high - low) / 2;
        if pays_for(mid, max_health, reach) {
            high = mid;
        } else {
            low = mid;
        }
    }
    proof {
        assert(is_xp_gain(high as int, n));
        lemma_xp_gain_unique(high as int, xp_gain(entity.max_health, entity.damage), n);
    }
    high
}

} // verus!
