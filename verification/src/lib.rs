use vstd::prelude::*;

pub mod browser_bridge;
pub mod category;
pub mod classifier;
pub mod models;
pub mod native_host;
pub mod processes;
pub mod report;
pub mod seed;
pub mod session;
pub mod text;
pub mod totals;
pub mod window;
