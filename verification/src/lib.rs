use vstd::prelude::*;

pub mod text;
pub mod ping;
pub mod history;
pub mod monitor;
pub mod live;
pub mod config;
pub mod external_ip;
pub mod screen;

verus! {
} // verus!
