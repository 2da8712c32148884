//! Normalization and linting of the flat argument form.
//!
//! A query arrives as a flat sequence of unsigned 32-bit tokens. Groups of
//! four tokens form one observation slot `(match_min, match_max, range_min,
//! range_max)`. A partial tail is completed canonically: a single trailing
//! token stands for both `match_min` and `match_max`, and a missing range
//! defaults to the full `[0, 0x7FFFFFFF]`. The linter then accepts exactly
//! the well-formed queries of at most eight slots.

use vstd::prelude::*;

verus! {

/// One observation slot: the constrained output of a single `mt_rand` call.
pub struct Slot {
    pub match_min: u32,
    pub match_max: u32,
    pub range_min: u32,
    pub range_max: u32,
}

impl Slot {
    /// A slot is valid when `[match_min, match_max]` is contained in
    /// `[range_min, range_max]`, which in turn lies within `[0, 0x7FFFFFFF]`.
    pub open spec fn valid(self) -> bool {
        &&& self.match_min <= self.match_max
        &&& self.range_min <= self.range_max
        &&& self.range_min <= self.match_min
        &&& self.match_max <= self.range_max
        &&& self.range_max <= 0x7FFFFFFF
        &&& self.match_max <= 0x7FFFFFFF
    }
}

/// The `i`-th slot held in a flat token sequence.
pub open spec fn slot_at(tokens: Seq<u32>, i: int) -> Slot {
    Slot {
        match_min: tokens[4 * i],
        match_max: tokens[4 * i + 1],
        range_min: tokens[4 * i + 2],
        range_max: tokens[4 * i + 3],
    }
}

/// All slots held in a flat token sequence.
pub open spec fn slots_of(tokens: Seq<u32>) -> Seq<Slot> {
    Seq::new(tokens.len() / 4, |i: int| slot_at(tokens, i))
}

/// The canonical completion of a flat token sequence: a lone trailing token
/// is duplicated into `match_min, match_max`, and a missing range is filled
/// with the full `[0, 0x7FFFFFFF]`.
pub open spec fn normalized_form(tokens: Seq<u32>) -> Seq<u32> {
    if tokens.len() % 4 == 1 {
        tokens + seq![tokens.last(), 0u32, 0x7FFFFFFFu32]
    } else if tokens.len() % 4 == 2 {
        tokens + seq![0u32, 0x7FFFFFFFu32]
    } else {
        tokens
    }
}

/// A flat token sequence passes lint when it is nonempty, a multiple of four
/// tokens long, holds at most eight slots, and every slot is valid.
pub open spec fn lint_ok(tokens: Seq<u32>) -> bool {
    &&& tokens.len() > 0
    &&& tokens.len() % 4 == 0
    &&& tokens.len() / 4 <= 8
    &&& forall|i: int| 0 <= i < tokens.len() / 4 ==> (#[trigger] slot_at(tokens, i)).valid()
}

/// Completes a partial tail slot to its canonical four-token form.
pub fn normalize_arguments(arguments: &mut Vec<u32>)
    ensures
        final(arguments)@ == normalized_form(old(arguments)@),
{
    let len: usize = arguments.len();
    if len % 4 == 1 {
        let last = arguments[len - 1];
        arguments.push(last);
        arguments.push(0);
        arguments.push(0x7FFFFFFF);
        assert(arguments@ =~= normalized_form(old(arguments)@));
    } else if len % 4 == 2 {
        arguments.push(0);
        arguments.push(0x7FFFFFFF);
        assert(arguments@ =~= normalized_form(old(arguments)@));
    }
}

/// Whether the slot cap is what makes the arguments fail lint; the caller
/// reports the cap separately from the other lint failures.
pub fn slot_cap_exceeded(arguments: &Vec<u32>) -> (r: bool)
    ensures
        r == (arguments@.len() / 4 > 8),
{
    arguments.len() / 4 > 8
}

/// Accepts exactly the normalized queries of one to eight valid slots.
pub fn lint_arguments(arguments: &Vec<u32>) -> (r: bool)
    ensures
        r == lint_ok(arguments@),
{
    let len: usize = arguments.len();
    if len == 0 {
        return false;
    }
    if len / 4 > 8 {
        return false;
    }
    if len % 4 != 0 {
        return false;
    }
    let slots: usize = len / 4;
    let mut i: usize = 0;
    while i < slots
        invariant
            slots == arguments@.len() / 4,
            arguments@.len() % 4 == 0,
            arguments@.len() <= 32,
            i <= slots,
            forall|j: int| 0 <= j < i ==> (#[trigger] slot_at(arguments@, j)).valid(),
        decreases slots - i,
    {
        let match_min = arguments[4 * i];
        let match_max = arguments[4 * i + 1];
        let range_min = arguments[4 * i + 2];
        let range_max = arguments[4 * i + 3];
        if match_min > match_max || range_min > range_max || match_min < range_min || match_max
            > range_max || range_max > 0x7FFFFFFF || match_max > 0x7FFFFFFF {
            assert(!slot_at(arguments@, i as int).valid());
            return false;
        }
        assert(slot_at(arguments@, i as int).valid());
        i = i + 1;
    }
    true
}

/// Normalizing an already-canonical token sequence, one whose length is a
/// multiple of four, leaves it unchanged.
pub proof fn lemma_normalize_canonical_identity(tokens: Seq<u32>)
    requires
        tokens.len() % 4 == 0,
    ensures
        normalized_form(tokens) == tokens,
{
}

/// A single token `x` normalizes to the slot `(x, x, 0, 0x7FFFFFFF)`.
pub proof fn lemma_normalize_single_token(x: u32)
    ensures
        normalized_form(seq![x]) == seq![x, x, 0u32, 0x7FFFFFFFu32],
{
    assert(normalized_form(seq![x]) =~= seq![x, x, 0u32, 0x7FFFFFFFu32]);
}

/// A pair of tokens `x y` normalizes to the slot `(x, y, 0, 0x7FFFFFFF)`.
pub proof fn lemma_normalize_token_pair(x: u32, y: u32)
    ensures
        normalized_form(seq![x, y]) == seq![x, y, 0u32, 0x7FFFFFFFu32],
{
    assert(normalized_form(seq![x, y]) =~= seq![x, y, 0u32, 0x7FFFFFFFu32]);
}

/// In a linted query every slot's match interval is contained in its range
/// interval, which in turn is contained in `[0, 0x7FFFFFFF]`.
pub proof fn lemma_lint_slot_containment(tokens: Seq<u32>, i: int)
    requires
        lint_ok(tokens),
        0 <= i < tokens.len() / 4,
    ensures
        slot_at(tokens, i).range_min <= slot_at(tokens, i).match_min,
        slot_at(tokens, i).match_min <= slot_at(tokens, i).match_max,
        slot_at(tokens, i).match_max <= slot_at(tokens, i).range_max,
        slot_at(tokens, i).range_max <= 0x7FFFFFFF,
{
}

} // verus!
