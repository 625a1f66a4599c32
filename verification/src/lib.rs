//! Task-list widget logic: routines, projects, sync log bookkeeping.
use vstd::prelude::*;

pub mod calendar;
pub mod text;
pub mod time;
pub mod routine;
pub mod schedule;
pub mod task_map;
pub mod settings;
pub mod sync_panel;
pub mod project;
pub mod color;
pub mod tick;
pub mod manifest;
pub mod liveness;
pub mod oplog;
pub mod sync_state;
pub mod keyed;
pub mod cursors;
pub mod tombstones;
pub mod peers;
pub mod engine;
pub mod server;
pub mod discovery;
pub mod time_input;
pub mod date_picker;
pub mod direct;
pub mod routine_ui;
pub mod bootstrap;
pub mod apply;
pub mod icon;
pub mod ids;
pub mod task_laws;
pub mod display;
pub mod startup;
pub mod clipboard;
pub mod identity;

verus! {
} // verus!
