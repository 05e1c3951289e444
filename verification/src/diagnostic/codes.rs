//! Diagnostic codes.
use vstd::prelude::*;

verus! {

/// Diagnostic code: syntax error.
pub const SYNTAX_ERROR: &'static str = "E001";
/// Diagnostic code: duplicate definition.
pub const DUPLICATE_DEF: &'static str = "E002";
/// Diagnostic code: definition never referenced.
pub const UNUSED_DEF: &'static str = "W001";
/// Diagnostic code: requirement without satisfy statement.
pub const UNSATISFIED_REQ: &'static str = "W002";
/// Diagnostic code: requirement without verify statement.
pub const UNVERIFIED_REQ: &'static str = "W003";
/// Diagnostic code: type reference that does not resolve.
pub const UNRESOLVED_TYPE: &'static str = "W004";
/// Diagnostic code: connection or allocation end that does not resolve.
pub const UNRESOLVED_TARGET: &'static str = "W005";
/// Diagnostic code: port type mismatch.
pub const PORT_TYPE_MISMATCH: &'static str = "W006";
/// Diagnostic code: constraint def without expression.
pub const EMPTY_CONSTRAINT: &'static str = "W007";
/// Diagnostic code: calc def without return.
pub const CALC_NO_RETURN: &'static str = "W008";

} // verus!
