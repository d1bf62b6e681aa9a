//! Strategies: vectors of ternary values, with their exact fitness against a
//! target and random mutation.

use vstd::prelude::*;
use crate::ternary::{Ternary, lcg_next, lcg_iter, lcg_advance, ternary_from_draw, ternary_for_state};

verus! {

/// A strategy is a vector of ternary values.
#[derive(Clone, PartialEq, Eq, Debug)]
pub struct Strategy {
    pub values: Vec<Ternary>,
}

impl View for Strategy {
    type V = Seq<Ternary>;

    open spec fn view(&self) -> Seq<Ternary> {
        self.values@
    }
}

/// Fitness as the exact fraction `hits / total`: the number of positions at
/// which a strategy matches its target, over the length of both. A strategy
/// whose length differs from the target's, and an empty strategy against an
/// empty target, have fitness `0 / 1`. Fitness computed by the library thus
/// always lies in [0, 1] with a positive total; a value built by hand with
/// total 0 compares neither above nor below any other fitness.
#[derive(Clone, Copy, PartialEq, Eq, Structural, Debug)]
pub struct Fitness {
    pub hits: usize,
    pub total: usize,
}

/// The fitness every agent and node starts from: zero.
pub open spec fn zero_fitness() -> Fitness {
    Fitness { hits: 0, total: 1 }
}

/// `a` is strictly greater than `b` as fractions; a fitness with total 0 is
/// greater than nothing and nothing is greater than it.
pub open spec fn fitness_gt(a: Fitness, b: Fitness) -> bool {
    &&& a.total > 0
    &&& b.total > 0
    &&& a.hits as int * b.total as int > b.hits as int * a.total as int
}

/// The number of positions below `n` at which `s` and `t` agree.
pub open spec fn matches_upto(s: Seq<Ternary>, t: Seq<Ternary>, n: nat) -> nat
    decreases n,
{
    if n == 0 {
        0
    } else {
        matches_upto(s, t, (n - 1) as nat) + if s[n - 1] == t[n - 1] {
            1nat
        } else {
            0nat
        }
    }
}

/// The fitness of `s` against target `t`.
pub open spec fn fitness_of(s: Seq<Ternary>, t: Seq<Ternary>) -> Fitness {
    if s.len() != t.len() || s.len() == 0 {
        zero_fitness()
    } else {
        Fitness { hits: matches_upto(s, t, s.len()) as usize, total: s.len() as usize }
    }
}

/// `len` values, the `i`-th picked by the generator after `i + 1` steps from
/// `state`.
pub open spec fn random_values(state: u64, len: nat) -> Seq<Ternary> {
    Seq::new(len, |i: int| ternary_from_draw(lcg_iter(state, (i + 1) as nat)))
}

/// The values and generator state after one mutation: for a non-empty
/// strategy, one generator step picks the position (the state modulo the
/// length) and a second step picks the new value; an empty strategy and the
/// state are left as they are.
pub open spec fn mutation(values: Seq<Ternary>, state: u64) -> (Seq<Ternary>, u64) {
    if values.len() == 0 {
        (values, state)
    } else {
        let s1 = lcg_next(state);
        let idx = (s1 as usize) as int % values.len() as int;
        let s2 = lcg_next(s1);
        (values.update(idx, ternary_from_draw(s2)), s2)
    }
}

pub proof fn lemma_matches_upto_bound(s: Seq<Ternary>, t: Seq<Ternary>, n: nat)
    ensures
        matches_upto(s, t, n) <= n,
    decreases n,
{
    if n > 0 {
        lemma_matches_upto_bound(s, t, (n - 1) as nat);
    }
}

impl Strategy {
    /// Creates a random strategy of the given length.
    pub fn random(len: usize, state: &mut u64) -> (r: Strategy)
        ensures
            r@ == random_values(*old(state), len as nat),
            *final(state) == lcg_iter(*old(state), len as nat),
    {
        let ghost s0 = *state;
        let mut values: Vec<Ternary> = Vec::new();
        let mut i: usize = 0;
        while i < len
            invariant
                i <= len,
                *state == lcg_iter(s0, i as nat),
                values@ == random_values(s0, len as nat).subrange(0, i as int),
            decreases len - i,
        {
            let v = Ternary::random(state);
            values.push(v);
            i = i + 1;
            assert(values@ =~= random_values(s0, len as nat).subrange(0, i as int));
        }
        assert(values@ =~= random_values(s0, len as nat));
        Strategy { values }
    }

    /// Creates a strategy of all zeros.
    pub fn zeros(len: usize) -> (r: Strategy)
        ensures
            r@ == Seq::new(len as nat, |i: int| Ternary::Zero),
    {
        let mut values: Vec<Ternary> = Vec::new();
        let mut i: usize = 0;
        while i < len
            invariant
                i <= len,
                values@ == Seq::new(i as nat, |k: int| Ternary::Zero),
            decreases len - i,
        {
            values.push(Ternary::Zero);
            i = i + 1;
            assert(values@ =~= Seq::new(i as nat, |k: int| Ternary::Zero));
        }
        Strategy { values }
    }

    /// Length of the strategy.
    pub fn len(&self) -> (n: usize)
        ensures
            n == self@.len(),
    {
        self.values.len()
    }

    /// Whether the strategy is empty.
    pub fn is_empty(&self) -> (b: bool)
        ensures
            b == (self@.len() == 0),
    {
        self.values.len() == 0
    }

    /// A strategy with the same values.
    pub fn duplicate(&self) -> (r: Strategy)
        ensures
            r@ == self@,
    {
        let mut values: Vec<Ternary> = Vec::new();
        let mut i: usize = 0;
        while i < self.values.len()
            invariant
                i <= self.values.len(),
                values@ == self@.subrange(0, i as int),
            decreases self.values.len() - i,
        {
            values.push(self.values[i]);
            i = i + 1;
            assert(values@ =~= self@.subrange(0, i as int));
        }
        assert(values@ =~= self@);
        Strategy { values }
    }

    /// Fitness against a target: the fraction of positions that match; zero
    /// when the lengths differ or both are empty.
    pub fn fitness_against(&self, target: &Strategy) -> (f: Fitness)
        ensures
            f == fitness_of(self@, target@),
    {
        let n = self.values.len();
        if n != target.values.len() || n == 0 {
            return Fitness { hits: 0, total: 1 };
        }
        let mut hits: usize = 0;
        let mut i: usize = 0;
        while i < n
            invariant
                i <= n,
                n == self@.len(),
                n == target@.len(),
                hits == matches_upto(self@, target@, i as nat),
            decreases n - i,
        {
            proof {
                lemma_matches_upto_bound(self@, target@, i as nat);
            }
            if self.values[i] == target.values[i] {
                hits = hits + 1;
            }
            i = i + 1;
        }
        Fitness { hits, total: n }
    }

    /// Mutates one random position of the strategy.
    pub fn mutate(&mut self, state: &mut u64)
        ensures
            (final(self)@, *final(state)) == mutation(old(self)@, *old(state)),
    {
        if self.values.len() == 0 {
            return;
        }
        lcg_advance(state);
        let idx = (*state as usize) % self.values.len();
        lcg_advance(state);
        let v = ternary_for_state(*state);
        self.values.set(idx, v);
    }
}

} // verus!
