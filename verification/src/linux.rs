//! The text formats of `/proc` and the records read from them.

pub mod proc;
pub mod proc_stat;
pub mod text;
