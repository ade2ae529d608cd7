//! Pure rules engine for Ars Magica 5th Edition character generation.
use vstd::prelude::*;

pub mod catalog;
pub mod derived;
pub mod effective;
pub mod entity;
pub mod equipment;
pub mod export;
pub mod grant;
pub mod house;
pub mod life_stage;
pub mod mythic_companion;
pub mod ruleset;
pub mod text;
pub mod types;
pub mod validation;

verus! {
} // verus!
