//! A verified execution engine for parsed scripts: named, parameterized
//! command sequences ("sections") that declare frame-scoped variables, print
//! values, and invoke or return from one another. Recursion is bounded by a
//! ceiling, arguments are validated against declared parameter shapes, and
//! control-flow signals (early return, whole-program termination) are
//! propagated explicitly through every return path.

pub mod frame;
pub mod interpreter;
pub mod section;
pub mod signal;
pub mod value;
pub mod variable;
