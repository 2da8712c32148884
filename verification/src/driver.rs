//! Host-side bookkeeping of the search: the input words handed to one
//! dispatch, the decoding of the length-prefixed result words it returns,
//! and the decomposition of the 32-bit seed space into 256 dispatch steps.
//!
//! One dispatch searches one step: the congruence class of the seeds equal
//! to `step` modulo 256. Within a dispatch, an invocation is addressed by a
//! workgroup number below 65536 and a local invocation number below 256, and
//! searches the single seed `step + 256 * (workgroup * 256 + local)`.

use vstd::prelude::*;

verus! {

/// How many 32-bit words one dispatch may hand back: one length prefix and
/// up to 999 matching seeds.
pub const RESULT_WORDS: usize = 1000;

/// Builds the input words of one dispatch: the step number followed by the
/// normalized argument tokens.
pub fn build_input_data(arguments: &Vec<u32>, step: u32) -> (r: Vec<u32>)
    ensures
        r@ == seq![step] + arguments@,
{
    let mut r: Vec<u32> = Vec::new();
    r.push(step);
    let mut i: usize = 0;
    while i < arguments.len()
        invariant
            i <= arguments@.len(),
            r@ == seq![step] + arguments@.take(i as int),
        decreases arguments@.len() - i,
    {
        r.push(arguments[i]);
        proof {
            assert(seq![step] + arguments@.take(i as int + 1) =~= (seq![step] + arguments@.take(
                i as int,
            )).push(arguments@[i as int]));
        }
        i = i + 1;
    }
    proof {
        assert(arguments@.take(arguments@.len() as int) =~= arguments@);
    }
    r
}

/// Decodes the words a dispatch wrote: word 0 counts the matching seeds,
/// and the words after it hold those seeds in arrival order. When the count
/// claims more seeds than the words can hold, the dispatch overflowed and
/// the result is worthless: `None`.
pub fn extract_results(words: &Vec<u32>) -> (r: Option<Vec<u32>>)
    requires
        words@.len() >= 1,
    ensures
        r is None <==> 1 + words@[0] > words@.len(),
        r matches Some(seeds) ==> seeds@ == words@.subrange(1, 1 + words@[0] as int),
{
    let count = words[0] as usize;
    if count >= words.len() {
        return None;
    }
    let mut seeds: Vec<u32> = Vec::new();
    let mut i: usize = 0;
    while i < count
        invariant
            count < words@.len(),
            i <= count,
            seeds@ == words@.subrange(1, 1 + i as int),
        decreases count - i,
    {
        seeds.push(words[1 + i]);
        proof {
            assert(words@.subrange(1, 1 + i as int + 1) =~= words@.subrange(1, 1 + i as int).push(
                words@[1 + i as int],
            ));
        }
        i = i + 1;
    }
    Some(seeds)
}

/// The candidate seed searched by one invocation of one dispatch.
pub fn candidate_seed(step: u32, workgroup: u32, local: u32) -> (s: u32)
    requires
        step < 256,
        workgroup < 65536,
        local < 256,
    ensures
        s == step + 256 * (workgroup * 256 + local),
{
    step + 256 * (workgroup * 256 + local)
}

/// Every 32-bit seed is searched: it falls in exactly one step, the one of
/// its residue modulo 256, and within that step's dispatch exactly one
/// invocation computes it as its candidate.
pub proof fn lemma_steps_cover_seed_space(s: u32)
    ensures
        s % 256 < 256,
        s / 65536 < 65536,
        (s / 256) % 256 < 256,
        s == s % 256 + 256 * ((s / 65536) * 256 + (s / 256) % 256),
{
    assert(s == s % 256 + 256 * ((s / 65536) * 256 + (s / 256) % 256)) by (bit_vector);
    assert(s / 65536 < 65536) by (bit_vector);
}

/// No seed is searched twice: distinct invocation addresses, within one
/// step or across steps, always compute distinct candidate seeds.
pub proof fn lemma_candidate_seeds_distinct(
    step1: u32,
    workgroup1: u32,
    local1: u32,
    step2: u32,
    workgroup2: u32,
    local2: u32,
)
    requires
        step1 < 256,
        workgroup1 < 65536,
        local1 < 256,
        step2 < 256,
        workgroup2 < 65536,
        local2 < 256,
        step1 + 256 * (workgroup1 * 256 + local1) == step2 + 256 * (workgroup2 * 256 + local2),
    ensures
        step1 == step2,
        workgroup1 == workgroup2,
        local1 == local2,
{
    assert(step1 == step2 && workgroup1 == workgroup2 && local1 == local2) by (bit_vector)
        requires
            step1 < 256,
            workgroup1 < 65536,
            local1 < 256,
            step2 < 256,
            workgroup2 < 65536,
            local2 < 256,
            step1 + 256 * (workgroup1 * 256 + local1) == step2 + 256 * (workgroup2 * 256
                + local2),
    ;
}

} // verus!
