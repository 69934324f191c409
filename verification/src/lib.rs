//! Bridge between a host runtime and a native circuit compiler.
//!
//! The crate models the marshalling pipeline around an external circuit
//! compiler: a file map feeding the compiler's resolver, a diagnostics
//! index grouped by source path, the single-error collapse of a failed
//! compile, and the assembly of the host-facing result envelope.

pub mod diag;
pub mod errs;
pub mod filemap;
pub mod inputs;
pub mod outcome;
