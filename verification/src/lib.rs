//! A turn-resolution engine for a gem-trading card game: a shared board with
//! development cards, a token bank and noble tiles, players who reserve and
//! buy cards, and the rules that decide whether a move is legal and what it
//! changes.
pub mod action_reward_table;
pub mod board;
pub mod card;
pub mod card_stack;
pub mod color;
pub mod color_value;
pub mod game;
pub mod game_command;
pub mod gem;
pub mod grid;
pub mod jewelry_box;
pub mod level;
pub mod noble_tile;
pub mod rng;
pub mod rules;
pub mod token_stack;
pub mod user;
