//! A runtime pattern-matching engine: ordered match arms with optional
//! guards are tried against an immutable value tree, and the first arm that
//! matches selects the action together with the bindings it introduced.

pub mod arith;
pub mod coverage;
pub mod laws;
pub mod matcher;
pub mod pattern;
pub mod value;

pub use arith::{add_ints, add_uints};
pub use coverage::{CaseShape, uncovered_cases};
pub use matcher::{MatchResult, attempt_match, guard_holds, match_pattern, try_arm};
pub use pattern::{Arm, Guard, Pattern, PatternError, check_pattern};
pub use value::{Scalar, Value, copy_value, values_equal};
