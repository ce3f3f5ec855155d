use vstd::prelude::*;

verus! {

/// One xorshift64 step (shifts 13, 7, 17), as applied to the generator state.
pub open spec fn xorshift_step(x: u64) -> u64 {
    let a = x ^ (x << 13u64);
    let b = a ^ (a >> 7u64);
    b ^ (b << 17u64)
}

/// The generator state after `n` draws from a generator created with `seed`.
pub open spec fn state_after(seed: u64, n: nat) -> u64
    decreases n,
{
    if n == 0 {
        if seed == 0 {
            1u64
        } else {
            seed
        }
    } else {
        xorshift_step(state_after(seed, (n - 1) as nat))
    }
}

/// Deterministic xorshift64 generator used to scatter blades from a patch seed.
pub struct DeterministicRng {
    state: u64,
}

impl DeterministicRng {
    /// The current internal state.
    pub closed spec fn state(self) -> u64 {
        self.state
    }

    /// The all-zero state is absorbing for xorshift; the generator never holds it.
    pub closed spec fn wf(self) -> bool {
        self.state != 0
    }

    /// Creates a generator; a zero seed is replaced by one.
    pub fn new(seed: u64) -> (rng: Self)
        ensures
            rng.wf(),
            rng.state() == (if seed == 0 { 1u64 } else { seed }),
            rng.state() == state_after(seed, 0),
    {
        let state = if seed < 1 { 1 } else { seed };
        DeterministicRng { state }
    }

    /// Advances the state by one xorshift step and returns the new state.
    pub fn next_u64(&mut self) -> (out: u64)
        requires
            old(self).wf(),
        ensures
            final(self).wf(),
            out == xorshift_step(old(self).state()),
            final(self).state() == out,
    {
        let x = self.state;
        let a = x ^ (x << 13u64);
        let b = a ^ (a >> 7u64);
        let c = b ^ (b << 17u64);
        proof {
            lemma_xorshift_nonzero(x);
        }
        self.state = c;
        c
    }
}

/// A non-zero state never steps to zero: each xorshift stage is injective and fixes zero.
pub proof fn lemma_xorshift_nonzero(x: u64)
    requires
        x != 0,
    ensures
        xorshift_step(x) != 0,
{
    let a = x ^ (x << 13u64);
    assert(x != 0 ==> x ^ (x << 13u64) != 0) by (bit_vector);
    let b = a ^ (a >> 7u64);
    assert(a != 0 ==> a ^ (a >> 7u64) != 0) by (bit_vector);
    assert(b != 0 ==> b ^ (b << 17u64) != 0) by (bit_vector);
}

/// The state reached after any number of draws from any seed is never zero, so
/// the generator never falls into the all-zero fixed point of xorshift.
pub proof fn lemma_stream_never_zero(seed: u64, n: nat)
    ensures
        state_after(seed, n) != 0,
    decreases n,
{
    if n > 0 {
        lemma_stream_never_zero(seed, (n - 1) as nat);
        lemma_xorshift_nonzero(state_after(seed, (n - 1) as nat));
    }
}

} // verus!
