use vstd::prelude::*;

pub mod profits;
pub mod strategies;

verus! {

/// Kind of option: the right to buy (call) or to sell (put).
#[derive(Clone, Copy, Debug, PartialEq, Eq, Structural)]
pub enum OptionType {
    Call,
    Put,
}

/// Whether a position bought (long) or sold (short) the option.
#[derive(Clone, Copy, Debug, PartialEq, Eq, Structural)]
pub enum PositionSide {
    Long,
    Short,
}

impl PositionSide {
    pub fn is_long(&self) -> (r: bool)
        ensures
            r <==> *self == PositionSide::Long,
    {
        match self {
            PositionSide::Long => true,
            PositionSide::Short => false,
        }
    }

    pub fn is_short(&self) -> (r: bool)
        ensures
            r <==> *self == PositionSide::Short,
    {
        match self {
            PositionSide::Long => false,
            PositionSide::Short => true,
        }
    }
}

} // verus!
