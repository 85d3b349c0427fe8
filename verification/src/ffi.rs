//! What the library knows of the operating system: identifiers, errors and
//! the meaning of a system call's outcome.

pub mod safe_wrapper;
pub mod types;
