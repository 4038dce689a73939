//! Numeric configuration shared by the compiler and the virtual machine,
//! and the operator-precedence ladder used by the parser.

use vstd::prelude::*;

verus! {

/// How many allocations may pass between two garbage-collection checks.
pub const GC_CHECK_INTERVAL: usize = 12;

/// Live-score threshold above which a collection is triggered.
pub const GC_THRESHOLD: usize = 4000;

/// How many post-collection live scores are remembered for the
/// adaptive trigger.
pub const GC_HISTORY_BUFFER_SIZE: usize = 10;

/// Size score of an array object, before its elements are counted.
pub const HEAP_SCORE_ARRAY_BASE: usize = 16;

/// Size score each array element adds.
pub const HEAP_SCORE_ARRAY_PER_ELEMENT: usize = 8;

/// Size score of a string object.
pub const HEAP_SCORE_STRING_BASE: usize = 24;

/// Size score of a map object, before its entries are counted.
pub const HEAP_SCORE_MAP_BASE: usize = 32;

/// Size score each map entry adds.
pub const HEAP_SCORE_MAP_PER_ELEMENT: usize = 16;

/// Size score of any other heap object.
pub const HEAP_SCORE_OTHER_OBJECT: usize = 32;

/// Binding strength of infix operators, lowest first.  The parser
/// parses the right operand of a left-associative operator at the
/// next-higher level.
#[derive(Debug, Clone, Copy, PartialEq, Eq, Structural)]
pub enum Precedence {
    Lowest,
    Pipeline,
    Comparison,
    Term,
    Factor,
    Unary,
}

impl Precedence {
    /// The numeric level of this precedence, for comparisons.
    pub fn as_u8(self) -> (r: u8)
        ensures
            r == self.spec_level(),
    {
        match self {
            Precedence::Lowest => 0,
            Precedence::Pipeline => 1,
            Precedence::Comparison => 2,
            Precedence::Term => 3,
            Precedence::Factor => 4,
            Precedence::Unary => 5,
        }
    }

    /// The numeric level of this precedence.
    pub open spec fn spec_level(self) -> u8 {
        match self {
            Precedence::Lowest => 0,
            Precedence::Pipeline => 1,
            Precedence::Comparison => 2,
            Precedence::Term => 3,
            Precedence::Factor => 4,
            Precedence::Unary => 5,
        }
    }
}

} // verus!
