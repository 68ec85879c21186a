use vstd::prelude::*;

pub mod errors;
pub mod misc;
pub mod arch;
pub mod mm;

pub mod block;
pub mod drivers;
pub mod fs;
pub mod shell;
pub mod api;
