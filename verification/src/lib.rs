//! Assertions for the captured output of command-line programs under test.
//!
//! The crate wraps a completed process run — exit code plus captured stdout
//! and stderr bytes — in a result type and a fluent assertion type, and
//! renders arbitrary byte buffers safely for human-readable diagnostics.

use vstd::prelude::*;

pub mod assertion;
pub mod buffer;
pub mod cargo;
pub mod num;
pub mod output;
pub mod restore;

verus! {

/// Relies on `String::push`: appends the character to the end of the string.
pub assume_specification[ String::push ](s: &mut String, c: char)
    ensures
        final(s)@ == old(s)@.push(c),
;

} // verus!
