//! Rules engine of a collectible card game: mana, stats, cards, turns,
//! combat, decks, players, lobbies and the slot-machine minigame, each
//! modelled on plain values, every operation with a contract that states
//! what it does.

pub mod text;
pub mod mana;
pub mod rng;
pub mod stat;
pub mod turn;
pub mod action;
pub mod card;
pub mod game;
pub mod deck;
pub mod player;
pub mod table;
pub mod effects;
pub mod combat;
pub mod removal;
pub mod fight;
pub mod execute;
pub mod flow;
pub mod public_info;
pub mod activation;
pub mod render;
pub mod abilities;
pub mod views;
pub mod targets;
pub mod deck_info;
pub mod ossification;
pub mod reset;
pub mod additional;
pub mod checks;
pub mod combat_check;
pub mod stack;
pub mod slot_machine;
pub mod lobby;
pub mod decks;
