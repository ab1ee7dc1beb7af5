use vstd::prelude::*;

pub mod backup;
pub mod calc;
pub mod config;
pub mod error;
pub mod html;
pub mod laws;
pub mod migration;
pub mod model;
pub mod order;
pub mod quantity;
pub mod search;
pub mod store;
pub mod summary;
pub mod timestamp;

verus! {

} // verus!
