//! Match statistics for FIRST Robotics Competition teams: the bookkeeping
//! behind a scouting service that aggregates The Blue Alliance match data.

pub mod text;
pub mod team_key;
pub mod parse;
pub mod shared;
pub mod avg;
pub mod event;
pub mod year_data;
pub mod store;
pub mod ram;
pub mod tba;
pub mod charts;
pub mod ai;
pub mod server;
pub mod roster;
