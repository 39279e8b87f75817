use vstd::prelude::*;

pub mod text;
pub mod runninghub;
pub mod task;
pub mod settings;
pub mod keyed;
pub mod worker;
pub mod diagnostics;
pub mod launcher;
