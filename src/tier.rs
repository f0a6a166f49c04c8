//! The three global detail levels and how the remaining budget picks one.
use vstd::prelude::*;

verus! {

/// Detail level of the primer as a whole.
#[derive(Debug, Clone, Copy, PartialEq, Eq, Structural)]
pub enum Tier {
    Minimal,
    Standard,
    Full,
}

/// Below this many tokens left after the bootstrap block, the tier is minimal.
pub const STANDARD_FLOOR: u32 = 80;

/// From this many tokens left after the bootstrap block on, the tier is full.
pub const FULL_FLOOR: u32 = 300;

/// The tier for `remaining` tokens left after the bootstrap block.
pub open spec fn tier_for(remaining: int) -> Tier {
    if remaining < 80 {
        Tier::Minimal
    } else if remaining < 300 {
        Tier::Standard
    } else {
        Tier::Full
    }
}

/// The name under which a tier is reported.
pub open spec fn tier_name(t: Tier) -> Seq<char> {
    match t {
        Tier::Minimal => "minimal"@,
        Tier::Standard => "standard"@,
        Tier::Full => "full"@,
    }
}

impl Tier {
    pub fn from_budget(remaining: u32) -> (r: Tier)
        ensures
            r == tier_for(remaining as int),
    {
        if remaining < STANDARD_FLOOR {
            Tier::Minimal
        } else if remaining < FULL_FLOOR {
            Tier::Standard
        } else {
            Tier::Full
        }
    }

    pub fn as_str(&self) -> (r: &'static str)
        ensures
            r@ == tier_name(*self),
    {
        match self {
            Tier::Minimal => "minimal",
            Tier::Standard => "standard",
            Tier::Full => "full",
        }
    }
}

} // verus!
