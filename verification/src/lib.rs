//! Tournament export library: turns paged start.gg API replies into one
//! row per entrant and event, with standings, win/loss counts and player
//! identity, and renders those rows as CSV.

pub mod accumulator;
pub mod commands;
pub mod csv;
pub mod http;
pub mod laws;
pub mod pager;
pub mod queries;
pub mod query;
pub mod table;
pub mod types;
pub mod text;
pub mod utils;
