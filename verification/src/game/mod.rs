//! What the interactive game decides: its screens, what they show, and what the
//! keys do on them.

pub mod config;
pub mod drawing;
pub mod field;
pub mod menu;
pub mod player;
pub mod screen;
pub mod text;
pub mod world;
