//! The MT19937 reference generator, in the variant used by PHP's `mt_rand`
//! from version 7.1.0 onward.
//!
//! The mathematical model gives the seeded state, the twist that refreshes it
//! every 624 outputs, the tempering that turns a state word into a 32-bit
//! output, and the range reduction of `mt_rand(range_min, range_max)`: the
//! full 31-bit range stands for the argument-less `mt_rand()`, whose value
//! is the tempered word shifted right once; a span one below a power of two
//! masks a single draw; any other span rejects draws above a limit chosen to
//! erase modulo bias and reduces the first accepted draw modulo the span.
//! The executable generator is proved to follow that model word for word,
//! so every value it hands back is pinned to the seed and the output
//! position alone.

use vstd::prelude::*;
use vstd::arithmetic::div_mod::{
    lemma_fundamental_div_mod,
    lemma_fundamental_div_mod_converse_div,
    lemma_fundamental_div_mod_converse_mod,
};
use vstd::arithmetic::mul::lemma_mul_nonnegative;
use vstd::wrapping::u32_specs;

verus! {

/// How many tempered outputs the range reduction may draw before a call
/// gives up; a benign query resolves within a few draws, and more than a
/// handful of consecutive rejections already has probability below
/// one in a billion.
pub const DRAW_BUDGET: u32 = 65536;

/// The value `x` reduced modulo 2^32.
pub open spec fn w32(x: int) -> u32 {
    (x % 0x1_0000_0000) as u32
}

/// Word `i` of the freshly seeded state: word 0 is the seed itself, and each
/// later word is `1812433253 * (prev XOR (prev >> 30)) + i` modulo 2^32.
pub open spec fn mt_word(seed: u32, i: nat) -> u32
    decreases i,
{
    if i == 0 {
        seed
    } else {
        let prev = mt_word(seed, (i - 1) as nat);
        w32(1812433253 * (prev ^ (prev >> 30)) + i)
    }
}

/// The full 624-word state immediately after seeding.
pub open spec fn init_state(seed: u32) -> Seq<u32> {
    Seq::new(624, |i: int| mt_word(seed, i as nat))
}

/// The replacement for word `k` during a twist of the state `st`. The words
/// at `(k + 1) % 624` and `(k + 397) % 624` are read from `st` as it stands
/// when word `k` is reached, so earlier replacements are already visible.
pub open spec fn twist_word(st: Seq<u32>, k: int) -> u32 {
    let y = (st[k] & 0x80000000) | (st[(k + 1) % 624] & 0x7FFFFFFF);
    st[(k + 397) % 624] ^ (y >> 1) ^ (if y & 1 == 1 {
        0x9908B0DFu32
    } else {
        0u32
    })
}

/// The state after the first `n` words have been twisted in place.
pub open spec fn twist_upto(st: Seq<u32>, n: int) -> Seq<u32>
    decreases n,
{
    if n <= 0 {
        st
    } else {
        let prev = twist_upto(st, n - 1);
        prev.update(n - 1, twist_word(prev, n - 1))
    }
}

/// One full twist of the 624-word state.
pub open spec fn twist(st: Seq<u32>) -> Seq<u32> {
    twist_upto(st, 624)
}

/// The state of seed `seed` after `t` full twists.
pub open spec fn twisted(seed: u32, t: nat) -> Seq<u32>
    decreases t,
{
    if t == 0 {
        init_state(seed)
    } else {
        twist(twisted(seed, (t - 1) as nat))
    }
}

/// The tempering transform: the 32-bit output drawn from one state word.
pub open spec fn temper(y: u32) -> u32 {
    let y1 = y ^ (y >> 11);
    let y2 = y1 ^ ((y1 << 7) & 0x9D2C5680);
    let y3 = y2 ^ ((y2 << 15) & 0xEFC60000);
    y3 ^ (y3 >> 18)
}

/// Output number `n` of seed `seed`: the first output forces the first
/// twist, so output `n` comes from the state twisted `n / 624 + 1` times.
pub open spec fn raw_output(seed: u32, n: nat) -> u32 {
    temper(twisted(seed, n / 624 + 1)[(n % 624) as int])
}

/// The largest draw the range reduction accepts for a span of `n` values:
/// the greatest multiple of `n` in the 32-bit space, less one, so that the
/// accepted draws split evenly into the `n` values and no modulo bias
/// remains.
pub open spec fn reject_limit(n: u32) -> u32 {
    (0xFFFFFFFF - (0xFFFFFFFFu32 % n) - 1) as u32
}

/// How one `mt_rand(range_min, range_max)` call relates the output cursor
/// `p0` before the call to the cursor `p1` after it and to the value `v` it
/// returns. The full 31-bit range is the argument-less `mt_rand()`: one
/// draw, shifted right once. A span one below a power of two takes one draw
/// and masks it. Any other span consumes draws up to and including the
/// first one at or below the rejection limit, and reduces it modulo the
/// span; that first accepted draw must come within `DRAW_BUDGET` draws, or
/// the call does not resolve at all.
pub open spec fn step_rel(
    seed: u32,
    p0: nat,
    p1: nat,
    range_min: u32,
    range_max: u32,
    v: u32,
) -> bool {
    let umax = (range_max - range_min) as u32;
    if umax == 0x7FFFFFFF {
        p1 == p0 + 1 && v == raw_output(seed, p0) >> 1
    } else if umax & ((umax + 1) as u32) == 0 {
        p1 == p0 + 1 && v == range_min + (raw_output(seed, p0) & umax)
    } else {
        let limit = reject_limit((umax + 1) as u32);
        &&& p0 < p1 <= p0 + DRAW_BUDGET
        &&& raw_output(seed, (p1 - 1) as nat) <= limit
        &&& forall|j: nat| p0 <= j < p1 - 1 ==> raw_output(seed, j) > limit
        &&& v == range_min + (raw_output(seed, (p1 - 1) as nat) % ((umax + 1) as u32))
    }
}

/// A `step_rel` call site determines the new cursor and the value uniquely:
/// there is only one first accepted draw.
pub proof fn lemma_step_rel_deterministic(
    seed: u32,
    p0: nat,
    p1: nat,
    p2: nat,
    range_min: u32,
    range_max: u32,
    v1: u32,
    v2: u32,
)
    requires
        step_rel(seed, p0, p1, range_min, range_max, v1),
        step_rel(seed, p0, p2, range_min, range_max, v2),
    ensures
        p1 == p2,
        v1 == v2,
{
    let umax = (range_max - range_min) as u32;
    if umax != 0x7FFFFFFF && umax & ((umax + 1) as u32) != 0 {
        let limit = reject_limit((umax + 1) as u32);
        if p1 < p2 {
            assert(p0 <= p1 - 1 < p2 - 1);
            assert(raw_output(seed, (p1 - 1) as nat) <= limit);
            assert(raw_output(seed, (p1 - 1) as nat) > limit);
        }
        if p2 < p1 {
            assert(p0 <= p2 - 1 < p1 - 1);
            assert(raw_output(seed, (p2 - 1) as nat) <= limit);
            assert(raw_output(seed, (p2 - 1) as nat) > limit);
        }
    }
}

/// Twisting the first `n` words leaves the state's length unchanged.
proof fn lemma_twist_upto_len(st: Seq<u32>, n: int)
    requires
        n <= st.len(),
    ensures
        twist_upto(st, n).len() == st.len(),
    decreases n,
{
    if n > 0 {
        lemma_twist_upto_len(st, n - 1);
        let prev = twist_upto(st, n - 1);
        assert(twist_upto(st, n) == prev.update(n - 1, twist_word(prev, n - 1)));
    }
}

/// The state of any seed holds 624 words after any number of twists.
proof fn lemma_twisted_len(seed: u32, t: nat)
    ensures
        twisted(seed, t).len() == 624,
    decreases t,
{
    if t == 0 {
    } else {
        lemma_twisted_len(seed, (t - 1) as nat);
        lemma_twist_upto_len(twisted(seed, (t - 1) as nat), 624);
    }
}

/// Chaining a wrapping multiply into a wrapping add computes the seeding
/// recurrence reduced modulo 2^32.
proof fn lemma_wrap_mul_add(a: u32, b: u32, c: u32)
    ensures
        u32_specs::wrapping_add(u32_specs::wrapping_mul(a, b), c) == w32(a * b + c),
{
    let m: int = 0x1_0000_0000;
    let p: int = a * b;
    lemma_mul_nonnegative(a as int, b as int);
    lemma_fundamental_div_mod(p, m);
    let r: int = p % m;
    assert(u32_specs::wrapping_mul(a, b) == r as u32);
    if r + c < m {
        lemma_fundamental_div_mod_converse_mod(p + c, m, p / m, r + c);
    } else {
        lemma_fundamental_div_mod_converse_mod(p + c, m, p / m + 1, r + c - m);
    }
}

/// Computes the tempering transform of one state word.
fn temper_word(y: u32) -> (r: u32)
    ensures
        r == temper(y),
{
    let y1 = y ^ (y >> 11);
    let y2 = y1 ^ ((y1 << 7) & 0x9D2C5680);
    let y3 = y2 ^ ((y2 << 15) & 0xEFC60000);
    y3 ^ (y3 >> 18)
}

/// The MT19937 generator of one seed. The ghost cursor `pos` counts the
/// outputs drawn so far; every output is pinned to `raw_output` of the seed
/// at that cursor.
pub struct Mt19937 {
    state: Vec<u32>,
    idx: usize,
    seed: Ghost<u32>,
    pos: Ghost<nat>,
}

impl Mt19937 {
    /// The seed this generator was built from.
    pub closed spec fn seed(self) -> u32 {
        self.seed@
    }

    /// How many outputs have been drawn so far.
    pub closed spec fn pos(self) -> nat {
        self.pos@
    }

    /// The generator is in step with the model: the stored state is the
    /// seeded state after the twists that the cursor position dictates, and
    /// the running index marks the next word to temper.
    pub closed spec fn wf(self) -> bool {
        &&& self.state@.len() == 624
        &&& if self.pos@ % 624 == 0 {
            self.idx == 624 && self.state@ == twisted(self.seed@, self.pos@ / 624)
        } else {
            self.idx == self.pos@ % 624 && self.state@ == twisted(self.seed@, self.pos@ / 624 + 1)
        }
    }

    /// Seeds a fresh generator; the first output will force the first twist.
    pub fn new(seed: u32) -> (r: Mt19937)
        ensures
            r.wf(),
            r.seed() == seed,
            r.pos() == 0,
    {
        let mut state: Vec<u32> = Vec::new();
        state.push(seed);
        let mut i: usize = 1;
        while i < 624
            invariant
                1 <= i <= 624,
                state@.len() == i,
                forall|j: int| 0 <= j < i ==> state@[j] == mt_word(seed, j as nat),
            decreases 624 - i,
        {
            let prev = state[i - 1];
            let x = prev ^ (prev >> 30);
            let w = 1812433253u32.wrapping_mul(x).wrapping_add(i as u32);
            proof {
                lemma_wrap_mul_add(1812433253u32, x, i as u32);
                assert(state@[i - 1] == mt_word(seed, (i - 1) as nat));
                assert(mt_word(seed, i as nat) == w32(1812433253 * (x as int) + i));
            }
            state.push(w);
            i = i + 1;
        }
        let r = Mt19937 { state, idx: 624, seed: Ghost(seed), pos: Ghost(0) };
        proof {
            assert(r.state@ =~= init_state(seed));
        }
        r
    }

    /// Runs one full twist of the stored state.
    fn twist_state(&mut self)
        requires
            old(self).state@.len() == 624,
        ensures
            final(self).state@ == twist(old(self).state@),
            final(self).idx == old(self).idx,
            final(self).seed == old(self).seed,
            final(self).pos == old(self).pos,
    {
        let ghost orig = self.state@;
        let mut k: usize = 0;
        while k < 624
            invariant
                k <= 624,
                self.state@.len() == 624,
                orig.len() == 624,
                self.state@ == twist_upto(orig, k as int),
                self.idx == old(self).idx,
                self.seed == old(self).seed,
                self.pos == old(self).pos,
            decreases 624 - k,
        {
            proof {
                lemma_twist_upto_len(orig, k as int);
            }
            let y = (self.state[k] & 0x80000000) | (self.state[(k + 1) % 624] & 0x7FFFFFFF);
            let mag = if y & 1 == 1 {
                0x9908B0DFu32
            } else {
                0u32
            };
            let v = self.state[(k + 397) % 624] ^ (y >> 1) ^ mag;
            let ghost before = self.state@;
            self.state[k] = v;
            proof {
                assert(v == twist_word(before, k as int));
                assert(self.state@ == before.update(k as int, twist_word(before, k as int)));
                assert(self.state@ == twist_upto(orig, k as int + 1));
            }
            k = k + 1;
        }
    }

    /// Draws the next tempered 32-bit output.
    pub fn next_output(&mut self) -> (y: u32)
        requires
            old(self).wf(),
        ensures
            final(self).wf(),
            final(self).seed() == old(self).seed(),
            final(self).pos() == old(self).pos() + 1,
            y == raw_output(old(self).seed(), old(self).pos()),
    {
        let ghost p = self.pos@;
        let ghost sd = self.seed@;
        proof {
            lemma_twisted_len(sd, p / 624 + 1);
            lemma_fundamental_div_mod(p as int, 624);
        }
        if self.idx == 624 {
            self.twist_state();
            self.idx = 0;
            proof {
                assert(p % 624 == 0);
                assert(self.state@ == twist(twisted(sd, p / 624)));
                assert(self.state@ == twisted(sd, p / 624 + 1));
            }
        }
        proof {
            assert(self.idx == p % 624);
            assert(self.state@ == twisted(sd, p / 624 + 1));
        }
        let w = self.state[self.idx];
        self.idx = self.idx + 1;
        self.pos = Ghost((self.pos@ + 1) as nat);
        proof {
            let q = p / 624;
            let rm = p % 624;
            if rm + 1 < 624 {
                lemma_fundamental_div_mod_converse_mod((p + 1) as int, 624, q as int, rm as int + 1);
                lemma_fundamental_div_mod_converse_div((p + 1) as int, 624, q as int, rm as int + 1);
            } else {
                lemma_fundamental_div_mod_converse_mod((p + 1) as int, 624, q as int + 1, 0);
                lemma_fundamental_div_mod_converse_div((p + 1) as int, 624, q as int + 1, 0);
            }
        }
        temper_word(w)
    }

    /// One `mt_rand(range_min, range_max)` call. The full 31-bit range is
    /// the argument-less `mt_rand()` and takes one draw, shifted right once.
    /// A span one below a power of two takes one draw and masks it. Any
    /// other span rejects draws above the rejection limit and reduces the
    /// first accepted draw modulo the span; `None` comes back only when
    /// `DRAW_BUDGET` consecutive draws were all rejected.
    pub fn rand_range(&mut self, range_min: u32, range_max: u32) -> (r: Option<u32>)
        requires
            old(self).wf(),
            range_min <= range_max,
            range_max <= 0x7FFFFFFF,
        ensures
            final(self).wf(),
            final(self).seed() == old(self).seed(),
            old(self).pos() <= final(self).pos(),
            r matches Some(v) ==> step_rel(
                old(self).seed(),
                old(self).pos(),
                final(self).pos(),
                range_min,
                range_max,
                v,
            ),
            r matches Some(v) ==> range_min <= v <= range_max,
            r is None ==> ({
                let umax = (range_max - range_min) as u32;
                &&& umax != 0x7FFFFFFF
                &&& umax & ((umax + 1) as u32) != 0
                &&& final(self).pos() == old(self).pos() + DRAW_BUDGET
                &&& forall|j: nat|
                    old(self).pos() <= j < final(self).pos() ==> raw_output(
                        old(self).seed(),
                        j,
                    ) > reject_limit((umax + 1) as u32)
            }),
    {
        let umax = range_max - range_min;
        let first = self.next_output();
        if umax == 0x7FFFFFFF {
            proof {
                assert(first >> 1 <= 0x7FFFFFFFu32) by (bit_vector);
            }
            return Some(first >> 1);
        }
        if umax & ((umax + 1) as u32) == 0 {
            proof {
                assert(first & umax <= umax) by (bit_vector);
            }
            return Some(range_min + (first & umax));
        }
        let n = umax + 1;
        let limit = 0xFFFFFFFFu32 - 0xFFFFFFFFu32 % n - 1;
        let mut r = first;
        let mut k: u32 = 1;
        while r > limit
            invariant
                self.wf(),
                self.seed@ == old(self).seed@,
                self.pos@ == old(self).pos@ + k,
                1 <= k <= DRAW_BUDGET,
                umax == range_max - range_min,
                umax != 0x7FFFFFFF,
                umax & ((umax + 1) as u32) != 0,
                range_min <= range_max <= 0x7FFFFFFF,
                n == umax + 1,
                limit == reject_limit(n),
                r == raw_output(self.seed@, (self.pos@ - 1) as nat),
                forall|j: nat|
                    old(self).pos@ <= j < self.pos@ - 1 ==> raw_output(self.seed@, j) > limit,
            decreases DRAW_BUDGET - k,
        {
            if k == DRAW_BUDGET {
                return None;
            }
            r = self.next_output();
            k = k + 1;
        }
        Some(range_min + r % n)
    }
}

} // verus!
