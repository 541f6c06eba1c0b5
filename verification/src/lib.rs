//! A dynamic foreign-function calling engine.
//!
//! Given a textual type descriptor, the library models a native function's
//! calling signature, computes packed aggregate layouts, and coerces caller
//! values between representations. The operating-system loader and the
//! low-level ABI invoker are external collaborators: this crate prepares and
//! validates everything up to the native jump, which an embedding program
//! performs.

pub mod adapter;
pub mod coerce;
pub mod error;
pub mod grammar;
pub mod interface;
pub mod internal;
pub mod library;
pub mod numeric;
pub mod parse;
pub mod structure;
pub mod text;
