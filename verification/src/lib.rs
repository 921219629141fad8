use vstd::prelude::*;

pub mod assoc;
pub mod builder;
pub mod cache;
pub mod dock;
pub mod node;
pub mod text;
pub mod tree;
pub mod operations;
pub mod presets;
pub mod layout_node;
pub mod markdown;
pub mod migration;
pub mod style;
pub mod ui;
pub mod integration;
pub mod dock_presets;
pub mod predictor;

verus! {
} // verus!
