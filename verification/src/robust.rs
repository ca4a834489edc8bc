//! Deterministic pseudo-random support for reproducible robust estimators.

use vstd::prelude::*;
use vstd::arithmetic::div_mod::{lemma_add_mod_noop, lemma_mod_twice, lemma_small_mod};

verus! {

/// Multiplier of the linear congruential step.
pub const LCG_MULTIPLIER: u64 = 6364136223846793005;

/// Increment of the linear congruential step.
pub const LCG_INCREMENT: u64 = 1442695040888963407;

/// The generator state that follows `state`: one 64-bit linear congruential step.
pub open spec fn lcg_step(state: u64) -> u64 {
    ((state * LCG_MULTIPLIER + LCG_INCREMENT) % 0x1_0000_0000_0000_0000) as u64
}

/// One call of `index` with bound `upper` from `state`: the state it leaves and the index
/// it returns.
pub open spec fn draw(state: u64, upper: usize) -> (u64, usize) {
    if upper == 0 {
        (state, 0)
    } else {
        let next = lcg_step(state);
        (next, ((next / 0x1_0000_0000) as int % (upper as int)) as usize)
    }
}

/// The state left by successive calls of `index` with the bounds `uppers`, from `state`.
pub open spec fn state_after(state: u64, uppers: Seq<usize>) -> u64
    decreases uppers.len(),
{
    if uppers.len() == 0 {
        state
    } else {
        draw(state_after(state, uppers.drop_last()), uppers.last()).0
    }
}

/// The indices returned by successive calls of `index` with the bounds `uppers`, from `state`.
pub open spec fn draws(state: u64, uppers: Seq<usize>) -> Seq<usize>
    decreases uppers.len(),
{
    if uppers.len() == 0 {
        Seq::empty()
    } else {
        draws(state, uppers.drop_last()).push(
            draw(state_after(state, uppers.drop_last()), uppers.last()).1,
        )
    }
}

/// Tiny deterministic generator used only for reproducible sampling.
#[derive(Clone, Debug)]
pub struct DeterministicRng {
    state: u64,
}

impl DeterministicRng {
    /// The generator's current state.
    pub closed spec fn state(&self) -> u64 {
        self.state
    }

    /// Creates a generator from a caller-controlled seed.
    pub fn new(seed: u64) -> (rng: Self)
        ensures
            rng.state() == seed,
    {
        Self { state: seed }
    }

    /// Returns an index below `upper` taken from the high half of the next state, or zero
    /// (leaving the state untouched) for an empty range.
    pub fn index(&mut self, upper: usize) -> (index: usize)
        ensures
            upper == 0 ==> index == 0 && final(self).state() == old(self).state(),
            upper > 0 ==> final(self).state() == lcg_step(old(self).state()) && index as int == (
            final(self).state() / 0x1_0000_0000) as int % (upper as int),
            upper > 0 ==> index < upper,
            (final(self).state(), index) == draw(old(self).state(), upper),
    {
        if upper == 0 {
            return 0;
        }
        let ghost before = self.state;
        let product = self.state.wrapping_mul(LCG_MULTIPLIER);
        self.state = product.wrapping_add(LCG_INCREMENT);
        proof {
            let m: int = 0x1_0000_0000_0000_0000;
            let p = before as int * LCG_MULTIPLIER as int;
            assert(product as int == p % m);
            lemma_add_mod_noop(p, LCG_INCREMENT as int, m);
            lemma_small_mod(LCG_INCREMENT as nat, m as nat);
            lemma_mod_twice(p, m);
            if product as int + LCG_INCREMENT as int >= m {
                lemma_small_mod((product as int + LCG_INCREMENT as int - m) as nat, m as nat);
                assert((product as int + LCG_INCREMENT as int) % m == product as int
                    + LCG_INCREMENT as int - m) by {
                    vstd::arithmetic::div_mod::lemma_mod_sub_multiples_vanish(
                        product as int + LCG_INCREMENT as int,
                        m,
                    );
                }
            } else {
                lemma_small_mod((product as int + LCG_INCREMENT as int) as nat, m as nat);
            }
            assert(self.state == lcg_step(before));
        }
        let state = self.state;
        let high = state >> 32;
        assert(high == state / 0x1_0000_0000) by (bit_vector)
            requires
                high == state >> 32,
        ;
        (high as usize) % upper
    }
}

/// Reproducibility: generators that start from equal states return equal index sequences
/// for equal sequences of bounds, and are left in equal states. In particular two
/// generators made by `DeterministicRng::new` from one seed draw identically.
pub proof fn lemma_equal_states_draw_equally(first: DeterministicRng, second: DeterministicRng, uppers: Seq<usize>)
    requires
        first.state() == second.state(),
    ensures
        draws(first.state(), uppers) == draws(second.state(), uppers),
        state_after(first.state(), uppers) == state_after(second.state(), uppers),
{
}

/// One more call continues the sequence: after the calls for `uppers`, a call with bound
/// `upper` returns the next index of `draws` and leaves the next state.
pub proof fn lemma_draws_extend(state: u64, uppers: Seq<usize>, upper: usize)
    ensures
        draws(state, uppers.push(upper)) == draws(state, uppers).push(draw(state_after(state, uppers), upper).1),
        state_after(state, uppers.push(upper)) == draw(state_after(state, uppers), upper).0,
        draws(state, uppers).len() == uppers.len(),
    decreases uppers.len(),
{
    assert(uppers.push(upper).drop_last() =~= uppers);
    if uppers.len() > 0 {
        lemma_draws_extend(state, uppers.drop_last(), uppers.last());
    }
}

} // verus!
