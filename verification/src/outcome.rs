//! Outcomes of decode steps: the three-way split between success,
//! suspension for more input, and permanent grammar violation.
use vstd::prelude::*;

verus! {

/// A decode failure. `Incomplete` is a suspension signal — the input ended
/// before the next field could be decided, and at least the carried number
/// of further bytes must be appended before a retry can get further — while
/// the other two variants are permanent grammar violations.
#[derive(Debug, Clone, Copy, PartialEq, Eq, Structural)]
pub enum NarError {
    /// The input ran out mid-field; carries the minimum number of additional
    /// bytes known to be needed, saturated into a `u64`.
    Incomplete(u64),
    /// A length field or payload differs from the literal the grammar
    /// expects at this position.
    TagMismatch,
    /// The `type` keyword is followed by none of `regular`, `symlink` or
    /// `directory`.
    NoMatchingVariant,
}

/// Outcome of one production in the grammar model: the first unconsumed
/// position together with the decoded value, a suspension carrying the
/// minimum number of missing bytes, or a permanent failure.
pub enum ParseOut<T> {
    Done { next: int, val: T },
    Incomplete { need: int },
    Fail { why: NarError },
}

/// Saturates a mathematical byte count into a `u64`.
pub open spec fn clamp_u64(n: int) -> u64 {
    if n < 0 {
        0
    } else if n > u64::MAX {
        u64::MAX
    } else {
        n as u64
    }
}

/// How an executable decode step reports a spec-level outcome that is not
/// `Done`: the suspension carries the saturated byte count, a permanent
/// failure carries its reason unchanged.
pub open spec fn parse_failed<T>(o: ParseOut<T>, e: NarError) -> bool {
    match o {
        ParseOut::Done { .. } => false,
        ParseOut::Incomplete { need } => e == NarError::Incomplete(clamp_u64(need)),
        ParseOut::Fail { why } => e == why,
    }
}

/// How an executable tag matcher reports the spec outcome of the same tag.
pub open spec fn tag_result(o: ParseOut<()>, r: Result<usize, NarError>) -> bool {
    match r {
        Ok(next) => o == (ParseOut::Done { next: next as int, val: () }),
        Err(e) => parse_failed(o, e),
    }
}

} // verus!
