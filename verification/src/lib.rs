use vstd::prelude::*;

pub mod app;
pub mod config;
pub mod local;
pub mod model;
pub mod navigation;
pub mod remote;
pub mod text;
pub mod theme;
pub mod ui;

verus! {
} // verus!
