//! Recovery of the 32-bit seed of PHP's Mersenne Twister (the variant used by
//! `mt_rand` from PHP 7.1.0 onward) from observed `mt_rand(min, max)` outputs.
//!
//! The library holds the verified core of the search: the MT19937 reference
//! generator with PHP's tempering and range reduction, the accept/reject
//! predicate for a candidate seed against a query of observation slots, the
//! normalizer and linter for the flat argument form, and the host-side
//! encoding and decoding of the dispatch buffers together with the
//! decomposition of the 32-bit seed space into dispatch steps.

use vstd::prelude::*;

pub mod args;
pub mod driver;
pub mod mt19937;
pub mod predicate;

verus! {

} // verus!
