//! The integer bookkeeping of the evolutionary search: how the children of a
//! generation are shared among the surviving parents, how a texture is drawn
//! for a new block, and how the remaining time is estimated.

use vstd::prelude::*;

use crate::sums::{sum_range, lemma_sum_split, lemma_sum_const};

verus! {

/// Number of blocks placed on the picture.
pub const NUM_BLOCKS: usize = 2000;

/// Size of the population of candidate blocks in each generation.
pub const BLOCKS_PER_GENETIC_ITERATION: usize = 1000;

/// Number of generations bred for each placed block.
pub const NUM_GENETIC_ITERATIONS: usize = 500;

/// Number of best candidates that survive a generation as parents.
pub const BLOCKS_TO_KEEP: usize = 75;

/// Number of fresh random candidates added to each generation.
pub const RANDOM_ADDED_BLOCKS: usize = 25;

/// Every how many columns and rows a candidate is sampled when scored.
pub const SCORE_SAMPLING_RATE: usize = 4;

/// The number of children that parent `i` (counting from the best) breeds
/// when `blocks_to_keep` parents refill a population of
/// `blocks_per_iteration`: an equal share, and one more for the first
/// parents while the remainder lasts.
pub open spec fn children_count(blocks_per_iteration: int, blocks_to_keep: int, i: int) -> int {
    let free = blocks_per_iteration - blocks_to_keep;
    free / blocks_to_keep + if i < free % blocks_to_keep {
        1int
    } else {
        0int
    }
}

/// For each of `num_parents` surviving parents, best first, how many
/// children it breeds.
pub fn children_per_parent(
    blocks_per_iteration: usize,
    blocks_to_keep: usize,
    num_parents: usize,
) -> (res: Vec<usize>)
    requires
        0 < blocks_to_keep <= blocks_per_iteration,
    ensures
        res@.len() == num_parents,
        forall|i: int|
            0 <= i < num_parents ==> #[trigger] res@[i] as int == children_count(
                blocks_per_iteration as int,
                blocks_to_keep as int,
                i,
            ),
{
    let free = blocks_per_iteration - blocks_to_keep;
    let base_children_per_parent = free / blocks_to_keep;
    let mut remaining_children_to_assign = free % blocks_to_keep;
    let mut counts: Vec<usize> = Vec::new();
    proof {
        vstd::arithmetic::div_mod::lemma_div_is_ordered_by_denominator(free as int, 1, blocks_to_keep as int);
    }
    for i in 0..num_parents
        invariant
            free == blocks_per_iteration - blocks_to_keep,
            base_children_per_parent == free / blocks_to_keep,
            base_children_per_parent <= free,
            0 < blocks_to_keep <= blocks_per_iteration,
            remaining_children_to_assign == (if i < free % blocks_to_keep {
                free % blocks_to_keep - i
            } else {
                0
            }),
            counts@.len() == i,
            forall|j: int|
                0 <= j < i ==> #[trigger] counts@[j] as int == children_count(
                    blocks_per_iteration as int,
                    blocks_to_keep as int,
                    j,
                ),
    {
        let extra: usize = if remaining_children_to_assign > 0 {
            remaining_children_to_assign = remaining_children_to_assign - 1;
            1
        } else {
            0
        };
        counts.push(base_children_per_parent + extra);
    }
    counts
}

/// Law: the parents kept and the children they breed refill the population
/// exactly, `blocks_to_keep + sum of children == blocks_per_iteration`.
pub proof fn lemma_children_refill_population(blocks_per_iteration: int, blocks_to_keep: int)
    requires
        0 < blocks_to_keep <= blocks_per_iteration,
    ensures
        blocks_to_keep + sum_range(
            |i: int| children_count(blocks_per_iteration, blocks_to_keep, i),
            0,
            blocks_to_keep,
        ) == blocks_per_iteration,
{
    let free = blocks_per_iteration - blocks_to_keep;
    let base = free / blocks_to_keep;
    let rem = free % blocks_to_keep;
    let f = |i: int| children_count(blocks_per_iteration, blocks_to_keep, i);
    vstd::arithmetic::div_mod::lemma_fundamental_div_mod(free, blocks_to_keep);
    vstd::arithmetic::div_mod::lemma_mod_bound(free, blocks_to_keep);
    lemma_sum_split(f, 0, rem, blocks_to_keep);
    lemma_sum_const(f, base + 1, rem);
    lemma_sum_const(|i: int| f(rem + i), base, blocks_to_keep - rem);
    crate::sums::lemma_sum_shift(f, rem, blocks_to_keep - rem);
    assert(rem * (base + 1) + (blocks_to_keep - rem) * base == blocks_to_keep * base + rem)
        by (nonlinear_arith);
}

/// The random number generator that draws new blocks.
#[verifier::external_type_specification]
#[verifier::external_body]
pub struct ExThreadRng(rand::rngs::ThreadRng);

/// Draws an index below `n` through `rand::Rng::random_range(..n)`.
///
/// Trusted: `rand` documents that `random_range` returns a value in the given
/// range and panics on an empty one; the draw itself depends on the
/// generator's state and is not stated.
#[verifier::external_body]
fn random_index_below(rng: &mut rand::rngs::ThreadRng, n: usize) -> (res: usize)
    requires
        n > 0,
    ensures
        res < n,
{
    rand::Rng::random_range(rng, ..n)
}

/// `i` is an outcome of drawing, with some generator, an index from the
/// whole range `..n` (and not from a narrower one).
pub closed spec fn is_draw_below(n: usize, i: usize) -> bool {
    exists|r: &mut rand::rngs::ThreadRng| #[trigger] call_ensures(random_index_below, (r, n), i)
}

/// Draws which of `count` textures a new block uses, uniformly at random, or
/// `None` when there is no texture to draw from.
pub fn choose_texture_index(rng: &mut rand::rngs::ThreadRng, count: usize) -> (res: Option<usize>)
    ensures
        res is None <==> count == 0,
        res matches Some(i) ==> i < count,
        res matches Some(i) ==> is_draw_below(count, i),
{
    if count == 0 {
        None
    } else {
        let draw = random_index_below;
        let i = draw(rng, count);
        Some(i)
    }
}

/// The sum of the recorded durations.
pub open spec fn total_millis(times: Seq<u128>) -> int {
    sum_range(|i: int| times[i] as int, 0, times.len() as int)
}

/// The estimate of the remaining time: the average recorded duration
/// (rounded down, then truncated to 64 bits as the clock's milliseconds
/// are) times the number of blocks still to place.
pub open spec fn remaining_estimate(times: Seq<u128>, remaining_blocks: u64) -> int {
    ((total_millis(times) / (times.len() as int)) as u64) * remaining_blocks
}

/// Estimates the remaining time in milliseconds from the durations of the
/// blocks placed so far, or `None` before the first one.
pub fn estimated_time_remaining(times_millis: &Vec<u128>, remaining_blocks: u64) -> (res: Option<u64>)
    requires
        total_millis(times_millis@) <= u128::MAX,
        times_millis@.len() > 0 ==> remaining_estimate(times_millis@, remaining_blocks) <= u64::MAX,
    ensures
        res is None <==> times_millis@.len() == 0,
        res matches Some(v) ==> v == remaining_estimate(times_millis@, remaining_blocks),
        res matches Some(v) ==> v == ((sum_range(
            |j: int| times_millis@[j] as int,
            0,
            times_millis@.len() as int,
        ) / (times_millis@.len() as int)) as u64) * remaining_blocks,
{
    let n = times_millis.len();
    if n == 0 {
        return None;
    }
    let ghost s = times_millis@;
    let mut total: u128 = 0;
    proof {
        crate::sums::lemma_sum_nonneg(|j: int| s[j] as int, 0, n as int);
    }
    for i in 0..n
        invariant
            n == s.len(),
            s == times_millis@,
            total_millis(s) <= u128::MAX,
            total == sum_range(|j: int| s[j] as int, 0, i as int),
            total <= total_millis(s),
    {
        proof {
            crate::sums::lemma_sum_nonneg(|j: int| s[j] as int, i + 1, n as int);
            lemma_sum_split(|j: int| s[j] as int, 0, i + 1, n as int);
        }
        total = total + times_millis[i];
    }
    let average_time: u128 = total / (n as u128);
    Some((#[verifier::truncate] (average_time as u64)) * remaining_blocks)
}

/// Law: the estimate depends on the recorded durations only through how
/// many there are and what they add up to: two records of the same length
/// and the same sum give the same estimate, however the durations are spread
/// (every duration counts, not only some of them).
pub proof fn lemma_estimate_uses_every_duration(a: Seq<u128>, b: Seq<u128>, remaining_blocks: u64)
    requires
        a.len() == b.len(),
        a.len() > 0,
        sum_range(|j: int| a[j] as int, 0, a.len() as int) == sum_range(
            |j: int| b[j] as int,
            0,
            b.len() as int,
        ),
    ensures
        remaining_estimate(a, remaining_blocks) == remaining_estimate(b, remaining_blocks),
        remaining_estimate(a, remaining_blocks) == ((sum_range(|j: int| a[j] as int, 0, a.len() as int)
            / (a.len() as int)) as u64) * remaining_blocks,
{
}

/// Law: when every recorded duration is `d` milliseconds, the estimate is
/// `d` per block still to place.
pub proof fn lemma_estimate_of_equal_durations(times: Seq<u128>, d: u64, remaining_blocks: u64)
    requires
        times.len() > 0,
        forall|j: int| 0 <= j < times.len() ==> times[j] == d,
    ensures
        remaining_estimate(times, remaining_blocks) == d * remaining_blocks,
{
    let n = times.len() as int;
    lemma_sum_const(|j: int| times[j] as int, d as int, n);
    vstd::arithmetic::div_mod::lemma_div_multiples_vanish(d as int, n);
    vstd::arithmetic::mul::lemma_mul_is_commutative(n, d as int);
}

} // verus!
