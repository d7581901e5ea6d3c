use vstd::prelude::*;

pub mod cache;
pub mod catalog;
pub mod config;
pub mod env;
pub mod error;
pub mod handlers;
pub mod head_metadata;
pub mod html;
pub mod json;
pub mod limits;
pub mod naming;
pub mod pace;
pub mod path_seg;
pub mod range_expand;
pub mod roundtrip;
pub mod sorting;
pub mod text;
pub mod ttl_cache;
pub mod xtream;

verus! {

} // verus!
