use vstd::prelude::*;

pub mod text;
pub mod order;
pub mod fieldmap;
pub mod model;
pub mod outside;
pub mod diagnostics;
pub mod editing;
pub mod scan;
pub mod render;
pub mod equality;
pub mod indexer;
pub mod config;
pub mod loader;
pub mod saving;
pub mod naming;
pub mod shapes;
pub mod editor;
pub mod project;
pub mod manifest;
pub mod channels;
pub mod collector;
pub mod cataloging;
pub mod robot;

verus! {

} // verus!
