//! Pseudo-random number generator after Lehmer: a 128-bit accumulator is
//! multiplied by a fixed odd constant on every draw, and the upper half of the
//! product is the number drawn.

use vstd::prelude::*;

verus! {

/// The constant that every draw multiplies the accumulator by.
pub const MULTIPLIER: u128 = 0xa3b195354a39b70d;

/// The accumulator of a generator that has not drawn yet.
pub const INITIAL_ACCUMULATOR: u128 = 0xda942042e4dd58b5;

/// The seed of the generator that the sorts draw their pivots from when none is given.
pub const DEFAULT_SEED: usize = 34052;

/// What a generator is, as far as its draws are concerned.
pub struct RandGenState {
    /// The number drawn last, before it was reduced; the seed until the first draw.
    pub current: usize,
    /// The running product.
    pub accumulator: u128,
}

/// The accumulator after one more draw: the product with [`MULTIPLIER`], modulo 2^128.
pub open spec fn advance(accumulator: u128) -> u128 {
    ((accumulator as nat * MULTIPLIER as nat) % 0x1_0000_0000_0000_0000_0000_0000_0000_0000nat) as u128
}

/// The upper 64 bits of the accumulator, as far as they fit the machine word.
pub open spec fn high_word(accumulator: u128) -> usize {
    (accumulator / 0x1_0000_0000_0000_0000) as usize
}

/// The state that follows `state` after one draw.
pub open spec fn state_after_draw(state: RandGenState) -> RandGenState {
    RandGenState {
        current: high_word(advance(state.accumulator)),
        accumulator: advance(state.accumulator),
    }
}

/// The state that follows `state` after `draws` draws.
pub open spec fn state_after_draws(state: RandGenState, draws: nat) -> RandGenState
    decreases draws,
{
    if draws == 0 {
        state
    } else {
        state_after_draw(state_after_draws(state, (draws - 1) as nat))
    }
}

/// `after` follows `before` after some number of draws, at least `least` and
/// at most `most`.
pub open spec fn drawn_between(before: RandGenState, after: RandGenState, least: int, most: int) -> bool {
    exists|draws: nat| least <= draws <= most && after == #[trigger] state_after_draws(before, draws)
}

/// Draws add up: `second` draws after `first` draws are `first + second` draws.
pub proof fn lemma_draws_add_up(state: RandGenState, first: nat, second: nat)
    ensures
        state_after_draws(state_after_draws(state, first), second) == state_after_draws(
            state,
            first + second,
        ),
    decreases second,
{
    if second > 0 {
        lemma_draws_add_up(state, first, (second - 1) as nat);
    }
}

/// Draws made one after the other are counted together.
pub proof fn lemma_drawn_between_joins(
    first: RandGenState,
    second: RandGenState,
    third: RandGenState,
    least: (int, int),
    most: (int, int),
)
    requires
        drawn_between(first, second, least.0, most.0),
        drawn_between(second, third, least.1, most.1),
    ensures
        drawn_between(first, third, least.0 + least.1, most.0 + most.1),
{
    let earlier = choose|draws: nat|
        least.0 <= draws <= most.0 && second == #[trigger] state_after_draws(first, draws);
    let later = choose|draws: nat|
        least.1 <= draws <= most.1 && third == #[trigger] state_after_draws(second, draws);
    lemma_draws_add_up(first, earlier, later);
    assert(third == state_after_draws(first, earlier + later));
}

/// The number that a generator in `state` draws below `max_value`.
pub open spec fn draw(state: RandGenState, max_value: usize) -> int {
    state_after_draw(state).current as int % max_value as int
}

/// What a generator draws is fixed by the number of draws it has made: after
/// the same number of draws two generators draw the same number, whatever
/// their seeds were, and that number is below the bound given.
pub proof fn lemma_draws_are_reproducible(
    seed: usize,
    other_seed: usize,
    draws: nat,
    max_value: usize,
)
    requires
        max_value > 0,
    ensures
        draw(state_after_draws(RandGen::fresh(seed), draws), max_value) == draw(
            state_after_draws(RandGen::fresh(other_seed), draws),
            max_value,
        ),
        0 <= draw(state_after_draws(RandGen::fresh(seed), draws), max_value) < max_value,
{
    lemma_seed_is_forgotten(seed, other_seed, draws);
}

/// The accumulator does not depend on the seed, and after the first draw
/// nothing of the generator does.
proof fn lemma_seed_is_forgotten(seed: usize, other_seed: usize, draws: nat)
    ensures
        state_after_draws(RandGen::fresh(seed), draws).accumulator == state_after_draws(
            RandGen::fresh(other_seed),
            draws,
        ).accumulator,
        draws > 0 ==> state_after_draws(RandGen::fresh(seed), draws) == state_after_draws(
            RandGen::fresh(other_seed),
            draws,
        ),
    decreases draws,
{
    if draws > 0 {
        lemma_seed_is_forgotten(seed, other_seed, (draws - 1) as nat);
    }
}

/// A Lehmer generator. Its draws depend on how many it has made and on nothing
/// else: the seed is kept until the first draw and never read.
#[derive(Clone, Copy)]
pub struct RandGen {
    current: usize,
    multiplier: u128,
    big_int: u128,
}

impl View for RandGen {
    type V = RandGenState;

    closed spec fn view(&self) -> RandGenState {
        RandGenState { current: self.current, accumulator: self.big_int }
    }
}

impl RandGen {
    #[verifier::type_invariant]
    spec fn multiplier_is_fixed(self) -> bool {
        self.multiplier == MULTIPLIER
    }

    /// The state of a generator fresh from `new(seed)`.
    pub open spec fn fresh(seed: usize) -> RandGenState {
        RandGenState { current: seed, accumulator: INITIAL_ACCUMULATOR }
    }

    /// A generator that has not drawn yet.
    pub fn new(current: usize) -> (generator: Self)
        ensures
            generator@ == Self::fresh(current),
    {
        RandGen { current, multiplier: MULTIPLIER, big_int: INITIAL_ACCUMULATOR }
    }

    /// Draws the next number and reduces it to `0..max_value`: multiplies the
    /// accumulator by [`MULTIPLIER`], keeps the upper half of the product as
    /// the current number, and returns its remainder by `max_value`.
    pub fn lehmer(&mut self, max_value: usize) -> (value: usize)
        requires
            max_value > 0,
        ensures
            final(self)@ == state_after_draw(old(self)@),
            value == draw(old(self)@, max_value),
            value < max_value,
    {
        proof {
            use_type_invariant(&*self);
        }
        let product: u128 = self.big_int.wrapping_mul(self.multiplier);
        let upper: u128 = product >> 64;
        assert(upper == product / 0x1_0000_0000_0000_0000) by (bit_vector)
            requires
                upper == product >> 64,
        ;
        self.big_int = product;
        self.current = #[verifier::truncate] (upper as usize);
        self.current % max_value
    }
}

} // verus!
