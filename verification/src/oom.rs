//! Pressure detection, scoring, victim selection and the killer's
//! bookkeeping.

pub mod arith;
pub mod killer;
pub mod meminfo;
pub mod pressure;
pub mod score;
pub mod selector;
