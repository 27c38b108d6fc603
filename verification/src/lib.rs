use vstd::prelude::*;

pub mod agent;
pub mod compatibility;
pub mod config;
pub mod dns;
pub mod document;
pub mod integration;
pub mod launch;
pub mod local_dns;
pub mod net;
pub mod optimizer;
pub mod plugins;
pub mod ranges;
pub mod rule_sets;
pub mod state;
pub mod text;
pub mod tray;
pub mod ui;
pub mod watcher;
pub mod window;

verus! {

} // verus!
