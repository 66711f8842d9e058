//! Game servers and text tools: the rules of several small multiplayer drawing
//! and guessing games, a duplicate-file detector and a chat helper bot.

pub mod text;
pub mod strmap;
pub mod arith;
pub mod foreign;
pub mod sketchrs;
pub mod file_cleaner;
pub mod the_decider;
pub mod sketch_bitaib;
pub mod data_url;
pub mod sketch_daily;
pub mod foo_parser;
