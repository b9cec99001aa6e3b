//! Workflow consistency checking and knowledge-library building blocks.
#![allow(unused_imports)]

pub mod text;
pub mod strmap;
pub mod time;
pub mod ecc;
pub mod pattern;
pub mod error;
pub mod executor;
pub mod intent;
pub mod knowledge;
