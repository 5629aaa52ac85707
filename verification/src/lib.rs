//! Tracks coding activity as sessions and folds finished sessions into a
//! growth profile: lifetime totals, one rollup per UTC calendar day, and the
//! activity streak derived from the days on which anything was recorded.
//!
//! Instants are milliseconds since the Unix epoch, UTC. Calendar days are
//! numbered from the Unix epoch too: day 0 is 1970-01-01.

use vstd::prelude::*;

pub mod clock;
pub mod consistency;
pub mod error;
pub mod export;
pub mod git;
pub mod languages;
pub mod registry;
pub mod session;
pub mod storage;
pub mod streak;
pub mod text;
pub mod visualization;

verus! {

/// The greeting by which a host can tell that the library is there.
pub fn greet() -> (greeting: String)
    ensures
        greeting@ == "Hello from Dendrite Core!"@,
{
    "Hello from Dendrite Core!".to_owned()
}

} // verus!
