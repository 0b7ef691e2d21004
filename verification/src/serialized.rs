//! Wire-format selection and the configurable nesting limits.

use vstd::prelude::*;

verus! {

/// The two wire encodings.  They share the type grammar and the alignment
/// rules and diverge only in how the extent of variable-sized data is
/// recorded: the bus format writes a forward length prefix, the compact
/// format appends trailing framing offsets to the enclosing container.
#[derive(Debug, Clone, Copy, PartialEq, Eq, Structural)]
pub enum Format {
    /// Length-prefixed bus marshaling.
    Bus,
    /// Variant-length compact framing (trailing offsets, `maybe` types).
    Compact,
}

impl Format {
    /// Short human-readable name of the format.
    pub fn description(&self) -> (r: &'static str)
        ensures
            r@ == self.description_spec(),
    {
        match self {
            Format::Bus => "bus",
            Format::Compact => "compact",
        }
    }

    pub open spec fn description_spec(self) -> Seq<char> {
        match self {
            Format::Bus => "bus"@,
            Format::Compact => "compact"@,
        }
    }
}

/// Default maximum nesting depth for structures.
pub const DEFAULT_MAX_STRUCTURE_DEPTH: u32 = 32;

/// Default maximum nesting depth for arrays.
pub const DEFAULT_MAX_ARRAY_DEPTH: u32 = 32;

/// Default maximum nesting depth for containers of any kind.
pub const DEFAULT_MAX_CONTAINER_DEPTH: u32 = 64;

/// Per-call maximum nesting depth for structures, arrays and containers
/// overall.  The three counters are tracked independently; exceeding any of
/// them aborts an encode, decode or parse with a depth error.
#[derive(Debug, Clone, Copy, PartialEq, Eq, Structural)]
pub struct Limits {
    /// Maximum structure nesting.
    pub structure: u32,
    /// Maximum array nesting.
    pub array: u32,
    /// Maximum container nesting of any kind.
    pub container: u32,
}

impl Default for Limits {
    /// The default limits, chosen to bound stack use against adversarial
    /// input while accepting any realistic message.
    fn default() -> (r: Self)
        ensures
            r.structure == DEFAULT_MAX_STRUCTURE_DEPTH,
            r.array == DEFAULT_MAX_ARRAY_DEPTH,
            r.container == DEFAULT_MAX_CONTAINER_DEPTH,
    {
        Limits {
            structure: DEFAULT_MAX_STRUCTURE_DEPTH,
            array: DEFAULT_MAX_ARRAY_DEPTH,
            container: DEFAULT_MAX_CONTAINER_DEPTH,
        }
    }
}

/// Transient nesting counters during an encode, decode or parse call.
/// Reset per top-level call; never persisted.
#[derive(Debug, Clone, Copy, PartialEq, Eq, Structural)]
pub struct Depths {
    /// Current structure nesting.
    pub structure: u32,
    /// Current array nesting.
    pub array: u32,
    /// Current container nesting.
    pub container: u32,
}

impl Depths {
    /// The counters of a fresh top-level call.
    pub fn zero() -> (r: Self)
        ensures
            r == Depths::zero_spec(),
    {
        Depths { structure: 0, array: 0, container: 0 }
    }

    pub open spec fn zero_spec() -> Depths {
        Depths { structure: 0, array: 0, container: 0 }
    }

    /// All counters strictly below their limit, so one more container of any
    /// kind may be entered.
    pub open spec fn below(self, lim: Limits) -> bool {
        self.structure <= lim.structure && self.array <= lim.array && self.container
            <= lim.container
    }
}

} // verus!
