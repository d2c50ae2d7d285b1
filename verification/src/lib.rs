//! Bisection over an abstract, randomly indexable, ordered sequence.
//!
//! A search is driven by two capabilities of the caller: a lookup from a signed
//! index to a value (or a failure), and a three-way predicate that places a value
//! below, above or at an implicit target and says whether a value that does not
//! match may be kept as the best answer so far ("snapping").
//!
//! - [`find`] holds the predicate's interface and the search for one target.
//! - [`combine`] holds the predicates that combine a list of others.
//! - [`find_range`] holds the search for the two boundaries of a range.
//! - [`snapping`] holds the target for one value that snaps in one direction.
//! - [`ordered`] states and proves what the searches find in a sequence that is
//!   ordered with respect to their targets.
//!
//! Neither the lookup nor a predicate need give the same answer twice, so each
//! contract is a relation: it says which outcomes a call may have, given the
//! outcomes that the lookup and the predicate may have. Where these have one
//! outcome each, so has the call.

pub mod combine;
pub mod find;
pub mod find_range;
pub mod ordered;
pub mod snapping;
