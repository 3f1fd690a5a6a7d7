use vstd::prelude::*;

pub mod calendar;
pub mod helpers;
pub mod laws;
pub mod mocking;
pub mod price;
pub mod structs;

pub use structs::OptionType;

verus! {

/// What the payoff engine reports instead of computing a wrong table.
#[derive(Clone, Copy, Debug, PartialEq, Eq, Structural)]
pub enum Error {
    /// A payoff table that a combination needs has no entries.
    EmptyPayoff,
    /// A price range was asked for with a step that is not positive.
    InvalidRange,
}

} // verus!
