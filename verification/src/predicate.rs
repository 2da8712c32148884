//! The accept/reject predicate for one candidate seed.
//!
//! A candidate seed is accepted by a query when the generator seeded with it
//! resolves one `mt_rand` call per slot, in order, and every resolved value
//! lies in its slot's match interval. The resolution of a query is modelled
//! by a chain relation that threads the output cursor through the slots; the
//! chain is deterministic, so the executable predicate's verdict is exactly
//! the acceptance of the model.

use vstd::prelude::*;
use crate::args::{lint_ok, slot_at, slots_of, Slot};
use crate::mt19937::{
    lemma_step_rel_deterministic, raw_output, reject_limit, step_rel, Mt19937, DRAW_BUDGET,
};

verus! {

/// The resolution of a whole query: starting with cursor `p0`, each slot in
/// turn resolves one `mt_rand(range_min, range_max)` call, producing the
/// values `vals` and leaving the cursor at `p1`.
pub open spec fn chain_rel(seed: u32, slots: Seq<Slot>, p0: nat, p1: nat, vals: Seq<u32>) -> bool
    decreases slots.len(),
{
    if slots.len() == 0 {
        p1 == p0 && vals.len() == 0
    } else {
        &&& vals.len() == slots.len()
        &&& exists|pm: nat|
            #[trigger] step_rel(seed, p0, pm, slots[0].range_min, slots[0].range_max, vals[0])
                && chain_rel(seed, slots.drop_first(), pm, p1, vals.drop_first())
    }
}

/// Every resolved value lies in its slot's match interval.
pub open spec fn all_match(slots: Seq<Slot>, vals: Seq<u32>) -> bool {
    &&& vals.len() == slots.len()
    &&& forall|i: int|
        0 <= i < slots.len() ==> slots[i].match_min <= #[trigger] vals[i] <= slots[i].match_max
}

/// The predicate of the search: seed `seed` is accepted by the query when
/// its resolution exists and every resolved value matches its slot.
pub open spec fn accepts(seed: u32, slots: Seq<Slot>) -> bool {
    exists|p1: nat, vals: Seq<u32>|
        #[trigger] chain_rel(seed, slots, 0, p1, vals) && all_match(slots, vals)
}

/// A query has at most one resolution: the cursor trace and the values are
/// pinned by the seed and the slots.
pub proof fn lemma_chain_rel_deterministic(
    seed: u32,
    slots: Seq<Slot>,
    p0: nat,
    p1: nat,
    p2: nat,
    vals1: Seq<u32>,
    vals2: Seq<u32>,
)
    requires
        chain_rel(seed, slots, p0, p1, vals1),
        chain_rel(seed, slots, p0, p2, vals2),
    ensures
        p1 == p2,
        vals1 == vals2,
    decreases slots.len(),
{
    if slots.len() == 0 {
        assert(vals1 =~= vals2);
    } else {
        let pm1 = choose|pm: nat|
            #[trigger] step_rel(seed, p0, pm, slots[0].range_min, slots[0].range_max, vals1[0])
                && chain_rel(seed, slots.drop_first(), pm, p1, vals1.drop_first());
        let pm2 = choose|pm: nat|
            #[trigger] step_rel(seed, p0, pm, slots[0].range_min, slots[0].range_max, vals2[0])
                && chain_rel(seed, slots.drop_first(), pm, p2, vals2.drop_first());
        lemma_step_rel_deterministic(
            seed,
            p0,
            pm1,
            pm2,
            slots[0].range_min,
            slots[0].range_max,
            vals1[0],
            vals2[0],
        );
        lemma_chain_rel_deterministic(
            seed,
            slots.drop_first(),
            pm1,
            p1,
            p2,
            vals1.drop_first(),
            vals2.drop_first(),
        );
        assert forall|i: int| 0 <= i < vals1.len() implies vals1[i] == vals2[i] by {
            if i >= 1 {
                assert(vals1[i] == vals1.drop_first()[i - 1]);
                assert(vals2[i] == vals2.drop_first()[i - 1]);
            }
        }
        assert(vals1 =~= vals2);
    }
}

/// A resolved query resolves every prefix as well, with the suffix resolving
/// from the prefix's final cursor.
pub proof fn lemma_chain_rel_prefix(
    seed: u32,
    slots: Seq<Slot>,
    i: int,
    p0: nat,
    p1: nat,
    vals: Seq<u32>,
)
    requires
        chain_rel(seed, slots, p0, p1, vals),
        0 <= i <= slots.len(),
    ensures
        exists|pm: nat|
            #[trigger] chain_rel(seed, slots.take(i), p0, pm, vals.take(i)) && chain_rel(
                seed,
                slots.skip(i),
                pm,
                p1,
                vals.skip(i),
            ),
    decreases i,
{
    if i == 0 {
        assert(slots.take(0) =~= Seq::<Slot>::empty());
        assert(vals.take(0) =~= Seq::<u32>::empty());
        assert(slots.skip(0) =~= slots);
        assert(vals.skip(0) =~= vals);
        assert(chain_rel(seed, slots.take(0), p0, p0, vals.take(0)) && chain_rel(
            seed,
            slots.skip(0),
            p0,
            p1,
            vals.skip(0),
        ));
    } else {
        let q = choose|pm: nat|
            #[trigger] step_rel(seed, p0, pm, slots[0].range_min, slots[0].range_max, vals[0])
                && chain_rel(seed, slots.drop_first(), pm, p1, vals.drop_first());
        lemma_chain_rel_prefix(seed, slots.drop_first(), i - 1, q, p1, vals.drop_first());
        let pm = choose|pm: nat|
            #[trigger] chain_rel(seed, slots.drop_first().take(i - 1), q, pm, vals.drop_first().take(i - 1))
                && chain_rel(
                seed,
                slots.drop_first().skip(i - 1),
                pm,
                p1,
                vals.drop_first().skip(i - 1),
            );
        assert(slots.take(i).drop_first() =~= slots.drop_first().take(i - 1));
        assert(vals.take(i).drop_first() =~= vals.drop_first().take(i - 1));
        assert(slots.skip(i) =~= slots.drop_first().skip(i - 1));
        assert(vals.skip(i) =~= vals.drop_first().skip(i - 1));
        assert(slots.take(i)[0] == slots[0]);
        assert(vals.take(i)[0] == vals[0]);
        assert(chain_rel(seed, slots.take(i), p0, pm, vals.take(i)));
    }
}

/// A resolved prefix extends by one slot whose call resolves from the
/// prefix's final cursor.
pub proof fn lemma_chain_rel_snoc(
    seed: u32,
    slots: Seq<Slot>,
    i: int,
    p0: nat,
    pm: nat,
    p1: nat,
    vals: Seq<u32>,
    v: u32,
)
    requires
        0 <= i < slots.len(),
        vals.len() == i,
        chain_rel(seed, slots.take(i), p0, pm, vals),
        step_rel(seed, pm, p1, slots[i].range_min, slots[i].range_max, v),
    ensures
        chain_rel(seed, slots.take(i + 1), p0, p1, vals.push(v)),
    decreases i,
{
    if i == 0 {
        assert(slots.take(1).drop_first() =~= Seq::<Slot>::empty());
        assert(vals.push(v).drop_first() =~= Seq::<u32>::empty());
        assert(slots.take(1)[0] == slots[0]);
        assert(vals.push(v)[0] == v);
        assert(pm == p0);
        assert(chain_rel(seed, slots.take(1).drop_first(), p1, p1, vals.push(v).drop_first()));
    } else {
        let q = choose|qm: nat|
            #[trigger] step_rel(
                seed,
                p0,
                qm,
                slots.take(i)[0].range_min,
                slots.take(i)[0].range_max,
                vals[0],
            ) && chain_rel(seed, slots.take(i).drop_first(), qm, pm, vals.drop_first());
        assert(slots.take(i).drop_first() =~= slots.drop_first().take(i - 1));
        assert(slots.drop_first()[i - 1] == slots[i]);
        lemma_chain_rel_snoc(
            seed,
            slots.drop_first(),
            i - 1,
            q,
            pm,
            p1,
            vals.drop_first(),
            v,
        );
        assert(slots.take(i + 1).drop_first() =~= slots.drop_first().take(i));
        assert(vals.push(v).drop_first() =~= vals.drop_first().push(v));
        assert(slots.take(i + 1)[0] == slots[0]);
        assert(slots.take(i)[0] == slots[0]);
        assert(vals.push(v)[0] == vals[0]);
        assert(chain_rel(seed, slots.take(i + 1), p0, p1, vals.push(v)));
    }
}

/// When a matching resolved prefix reaches a slot whose call finds no
/// accepted draw within the budget, no resolution of the whole query exists,
/// so the seed is rejected.
proof fn lemma_stall_rejects(seed: u32, slots: Seq<Slot>, i: int, p: nat, vals: Seq<u32>)
    requires
        0 <= i < slots.len(),
        vals.len() == i,
        chain_rel(seed, slots.take(i), 0, p, vals),
        ({
            let umax = (slots[i].range_max - slots[i].range_min) as u32;
            &&& umax != 0x7FFFFFFF
            &&& umax & ((umax + 1) as u32) != 0
            &&& forall|j: nat|
                p <= j < p + DRAW_BUDGET ==> raw_output(seed, j) > reject_limit((umax + 1) as u32)
        }),
    ensures
        !accepts(seed, slots),
{
    if accepts(seed, slots) {
        let (p1x, valsx): (nat, Seq<u32>) = choose|p1x: nat, valsx: Seq<u32>|
            #[trigger] chain_rel(seed, slots, 0, p1x, valsx) && all_match(slots, valsx);
        lemma_chain_rel_prefix(seed, slots, i, 0, p1x, valsx);
        let pm = choose|pm: nat|
            #[trigger] chain_rel(seed, slots.take(i), 0, pm, valsx.take(i)) && chain_rel(
                seed,
                slots.skip(i),
                pm,
                p1x,
                valsx.skip(i),
            );
        lemma_chain_rel_deterministic(seed, slots.take(i), 0, pm, p, valsx.take(i), vals);
        assert(slots.skip(i).len() > 0);
        assert(slots.skip(i)[0] == slots[i]);
        let q = choose|q: nat|
            #[trigger] step_rel(
                seed,
                p,
                q,
                slots.skip(i)[0].range_min,
                slots.skip(i)[0].range_max,
                valsx.skip(i)[0],
            ) && chain_rel(
                seed,
                slots.skip(i).drop_first(),
                q,
                p1x,
                valsx.skip(i).drop_first(),
            );
        let umax = (slots[i].range_max - slots[i].range_min) as u32;
        assert(raw_output(seed, (q - 1) as nat) <= reject_limit((umax + 1) as u32));
        assert(p <= q - 1 < p + DRAW_BUDGET);
        assert(false);
    }
}

/// When a matching resolved prefix reaches a slot whose resolved value falls
/// outside the slot's match interval, determinism forces the same value in
/// every resolution, so the seed is rejected.
proof fn lemma_mismatch_rejects(
    seed: u32,
    slots: Seq<Slot>,
    i: int,
    p1: nat,
    vals: Seq<u32>,
    v: u32,
)
    requires
        0 <= i < slots.len(),
        vals.len() == i,
        chain_rel(seed, slots.take(i + 1), 0, p1, vals.push(v)),
        !(slots[i].match_min <= v <= slots[i].match_max),
    ensures
        !accepts(seed, slots),
{
    if accepts(seed, slots) {
        let (p1x, valsx): (nat, Seq<u32>) = choose|p1x: nat, valsx: Seq<u32>|
            #[trigger] chain_rel(seed, slots, 0, p1x, valsx) && all_match(slots, valsx);
        lemma_chain_rel_prefix(seed, slots, i + 1, 0, p1x, valsx);
        let pm = choose|pm: nat|
            #[trigger] chain_rel(seed, slots.take(i + 1), 0, pm, valsx.take(i + 1)) && chain_rel(
                seed,
                slots.skip(i + 1),
                pm,
                p1x,
                valsx.skip(i + 1),
            );
        lemma_chain_rel_deterministic(
            seed,
            slots.take(i + 1),
            0,
            pm,
            p1,
            valsx.take(i + 1),
            vals.push(v),
        );
        assert(valsx[i] == valsx.take(i + 1)[i]);
        assert(vals.push(v)[i] == v);
        assert(slots[i].match_min <= valsx[i] <= slots[i].match_max);
        assert(false);
    }
}

/// A query whose slots pin each match interval to the value the seed itself
/// resolves accepts that seed: feeding a generator's own outputs back as
/// exact observations always recovers the seed.
pub proof fn lemma_own_outputs_accepted(seed: u32, slots: Seq<Slot>, p1: nat, vals: Seq<u32>)
    requires
        chain_rel(seed, slots, 0, p1, vals),
        vals.len() == slots.len(),
        forall|i: int|
            0 <= i < slots.len() ==> (#[trigger] slots[i]).match_min == vals[i]
                && slots[i].match_max == vals[i],
    ensures
        accepts(seed, slots),
{
    assert(all_match(slots, vals));
}

/// Decides whether a candidate seed is accepted by the query held in the
/// normalized, linted argument tokens: the generator seeded with it must
/// resolve one `mt_rand(range_min, range_max)` call per slot, with every
/// resolved value inside its slot's match interval.
pub fn seed_matches(seed: u32, arguments: &Vec<u32>) -> (r: bool)
    requires
        lint_ok(arguments@),
    ensures
        r == accepts(seed, slots_of(arguments@)),
{
    let ghost slots = slots_of(arguments@);
    let n: usize = arguments.len() / 4;
    proof {
        assert(arguments@.len() == 4 * n);
        assert(slots.len() == n);
    }
    let mut rng = Mt19937::new(seed);
    let ghost mut vals: Seq<u32> = Seq::empty();
    let mut i: usize = 0;
    while i < n
        invariant
            lint_ok(arguments@),
            slots == slots_of(arguments@),
            arguments@.len() == 4 * n,
            n == slots.len(),
            i <= n,
            rng.wf(),
            rng.seed() == seed,
            vals.len() == i,
            chain_rel(seed, slots.take(i as int), 0, rng.pos(), vals),
            all_match(slots.take(i as int), vals),
        decreases n - i,
    {
        proof {
            assert(slot_at(arguments@, i as int).valid());
            assert(slots[i as int] == slot_at(arguments@, i as int));
        }
        let match_min = arguments[4 * i];
        let match_max = arguments[4 * i + 1];
        let range_min = arguments[4 * i + 2];
        let range_max = arguments[4 * i + 3];
        let ghost p_before = rng.pos();
        let res = rng.rand_range(range_min, range_max);
        match res {
            None => {
                proof {
                    lemma_stall_rejects(seed, slots, i as int, p_before, vals);
                }
                return false;
            },
            Some(v) => {
                proof {
                    lemma_chain_rel_snoc(
                        seed,
                        slots,
                        i as int,
                        0,
                        p_before,
                        rng.pos(),
                        vals,
                        v,
                    );
                }
                if v < match_min || v > match_max {
                    proof {
                        lemma_mismatch_rejects(
                            seed,
                            slots,
                            i as int,
                            rng.pos(),
                            vals,
                            v,
                        );
                    }
                    return false;
                }
                proof {
                    vals = vals.push(v);
                    assert(forall|j: int|
                        0 <= j < i ==> slots.take(i as int + 1)[j] == slots.take(i as int)[j]);
                    assert(all_match(slots.take(i as int + 1), vals));
                }
                i = i + 1;
            },
        }
    }
    proof {
        assert(slots.take(n as int) =~= slots);
    }
    true
}

} // verus!
