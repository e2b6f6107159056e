//! Decision rules and record keeping of a squad-based battle simulation:
//! how capture flags change hands, what the battle journal records and
//! writes, how texture patches are applied, and how tactical commands are
//! composed from the chat box.

pub mod side;
pub mod text;
pub mod naming;
pub mod flags;
pub mod orders;
pub mod journal;
pub mod canvas;
pub mod textures;
pub mod gui;
pub mod runner;
