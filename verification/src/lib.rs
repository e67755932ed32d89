//! The rules of an arena survival game and of the batch environment that
//! drives it.

pub mod art;
pub mod bits;
pub mod collision;
pub mod compute;
pub mod enemy;
pub mod enemy_population;
pub mod enemy_types;
pub mod game;
pub mod glyphs;
pub mod gym;
pub mod identities;
pub mod mixing;
pub mod model;
pub mod motion;
pub mod native;
pub mod observation;
pub mod ranked;
pub mod rng;
pub mod scale;
pub mod settings;
pub mod shatter;
pub mod simulation;
pub mod text;
