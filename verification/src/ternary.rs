//! Ternary values and the linear congruential generator that drives every
//! random choice of the library.

use vstd::prelude::*;
use vstd::arithmetic::div_mod::lemma_add_mod_noop;

verus! {

/// Multiplier of the 64-bit linear congruential generator.
pub const LCG_MULTIPLIER: u64 = 6364136223846793005;

/// Increment of the 64-bit linear congruential generator.
pub const LCG_INCREMENT: u64 = 1442695040888963407;

/// One step of the generator: `state * MULTIPLIER + INCREMENT` modulo 2^64.
#[verifier::opaque]
pub open spec fn lcg_next(state: u64) -> u64 {
    ((state as int * LCG_MULTIPLIER as int + LCG_INCREMENT as int) % 0x1_0000_0000_0000_0000int) as u64
}

/// The generator state after `n` steps from `state`.
pub open spec fn lcg_iter(state: u64, n: nat) -> u64
    decreases n,
{
    if n == 0 {
        state
    } else {
        lcg_next(lcg_iter(state, (n - 1) as nat))
    }
}

/// Steps compose: `a` steps followed by `b` steps are `a + b` steps.
pub proof fn lemma_lcg_iter_add(state: u64, a: nat, b: nat)
    ensures
        lcg_iter(lcg_iter(state, a), b) == lcg_iter(state, a + b),
    decreases b,
{
    if b > 0 {
        lemma_lcg_iter_add(state, a, (b - 1) as nat);
    }
}

/// Advances the generator state by one step, with the wrapping arithmetic
/// of the generator.
pub(crate) fn lcg_advance(state: &mut u64)
    ensures
        *final(state) == lcg_next(*old(state)),
{
    let s = *state;
    let product = s.wrapping_mul(LCG_MULTIPLIER);
    let next = product.wrapping_add(LCG_INCREMENT);
    proof {
        reveal(lcg_next);
        let m: int = 0x1_0000_0000_0000_0000int;
        let q: int = s as int * LCG_MULTIPLIER as int;
        assert(product as int == q % m);
        lemma_add_mod_noop(q, LCG_INCREMENT as int, m);
        assert((LCG_INCREMENT as int) % m == LCG_INCREMENT as int);
        assert((product as int + LCG_INCREMENT as int) % m == (q + LCG_INCREMENT as int) % m);
        if product as int + LCG_INCREMENT as int >= m {
            assert((product as int + LCG_INCREMENT as int) % m
                == product as int + LCG_INCREMENT as int - m) by {
                vstd::arithmetic::div_mod::lemma_mod_sub_multiples_vanish(
                    product as int + LCG_INCREMENT as int, m);
                vstd::arithmetic::div_mod::lemma_small_mod(
                    (product as int + LCG_INCREMENT as int - m) as nat, m as nat);
            }
        } else {
            vstd::arithmetic::div_mod::lemma_small_mod(
                (product as int + LCG_INCREMENT as int) as nat, m as nat);
        }
    }
    *state = next;
}

/// A ternary value: -1, 0 or +1.
///
/// The variants carry no explicit discriminants, so an `as` cast gives 0, 1
/// and 2 rather than -1, 0 and 1: use `as_i8` for the integer a value stands
/// for.
#[derive(Clone, Copy, PartialEq, Eq, Structural, Debug)]
pub enum Ternary {
    Neg,
    Zero,
    Pos,
}

/// The integer that a ternary value stands for.
pub open spec fn ternary_int(t: Ternary) -> int {
    match t {
        Ternary::Neg => -1,
        Ternary::Zero => 0,
        Ternary::Pos => 1,
    }
}

/// The ternary value nearest to `v`: its sign.
pub open spec fn ternary_of_int(v: int) -> Ternary {
    if v < 0 {
        Ternary::Neg
    } else if v == 0 {
        Ternary::Zero
    } else {
        Ternary::Pos
    }
}

/// The ternary value picked by a generator state: the state's bits above the
/// lowest 33, taken modulo 3 (0 is -1, 1 is 0, 2 is +1).
pub open spec fn ternary_from_draw(state: u64) -> Ternary {
    let v = (state >> 33u64) % 3;
    if v == 0 {
        Ternary::Neg
    } else if v == 1 {
        Ternary::Zero
    } else {
        Ternary::Pos
    }
}

/// The text of a ternary value: its integer in decimal.
pub open spec fn ternary_text(t: Ternary) -> Seq<char> {
    match t {
        Ternary::Neg => seq!['-', '1'],
        Ternary::Zero => seq!['0'],
        Ternary::Pos => seq!['1'],
    }
}

/// Picks a ternary value from a generator state without advancing it.
pub(crate) fn ternary_for_state(state: u64) -> (t: Ternary)
    ensures
        t == ternary_from_draw(state),
{
    let v = (state >> 33u64) % 3;
    if v == 0 {
        Ternary::Neg
    } else if v == 1 {
        Ternary::Zero
    } else {
        Ternary::Pos
    }
}

impl Ternary {
    /// Converts an `i8` to a ternary value, clamping to the nearest valid one.
    pub fn from_i8(v: i8) -> (t: Ternary)
        ensures
            t == ternary_of_int(v as int),
    {
        if v <= -1 {
            Ternary::Neg
        } else if v == 0 {
            Ternary::Zero
        } else {
            Ternary::Pos
        }
    }

    /// Converts to `i8`.
    pub fn as_i8(self) -> (v: i8)
        ensures
            v as int == ternary_int(self),
    {
        match self {
            Ternary::Neg => -1,
            Ternary::Zero => 0,
            Ternary::Pos => 1,
        }
    }

    /// Picks a random ternary value: advances the generator one step and
    /// reads the new state.
    pub fn random(state: &mut u64) -> (t: Ternary)
        ensures
            *final(state) == lcg_next(*old(state)),
            t == ternary_from_draw(*final(state)),
    {
        lcg_advance(state);
        ternary_for_state(*state)
    }

    /// The decimal text of the value: "-1", "0" or "1".
    pub fn to_string(self) -> (s: String)
        ensures
            s@ == ternary_text(self),
    {
        match self {
            Ternary::Neg => {
                let s = String::from_str("-1");
                proof {
                    reveal_strlit("-1");
                }
                s
            },
            Ternary::Zero => {
                let s = String::from_str("0");
                proof {
                    reveal_strlit("0");
                }
                s
            },
            Ternary::Pos => {
                let s = String::from_str("1");
                proof {
                    reveal_strlit("1");
                }
                s
            },
        }
    }
}

/// Converting a ternary value to an integer and back gives the value again.
pub proof fn lemma_ternary_int_round_trip(t: Ternary)
    ensures
        ternary_of_int(ternary_int(t)) == t,
{
}

} // verus!
