use vstd::prelude::*;

pub mod text;
pub mod hyprland;
pub mod shortcuts;
pub mod json;
pub mod tray;
pub mod commands;
pub mod tags;
pub mod popouts;
pub mod settings;
pub mod updates;

verus! {
} // verus!
