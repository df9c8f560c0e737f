//! Game-state logic for running Diplomacy variants from a chat bot: phases,
//! provinces, boards, the game manager, map configuration and map parsing,
//! and the bot's permission rules and message decisions.

pub mod phase;
pub mod config;
pub mod text;
mod support;
pub mod order;
pub mod player;
pub mod province;
pub mod unit;
pub mod board;
pub mod manager;
pub mod fishing;
pub mod json;
pub mod svg;
pub mod map_error;
pub mod layers;
pub mod path;
pub mod transform;
pub mod map_model;
pub mod parser;
pub mod adjacency;
pub mod adjacency_file;
pub mod overrides;
pub mod commands;
pub mod map_laws;
