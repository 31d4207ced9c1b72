//! The rules of a two-player lane battle, run in lockstep: cards, units, towers and spells,
//! the clock of a match, the exchange of commands between peers, replays and the relay's rooms.
//!
//! Everything here is a function of its inputs, so that two peers that feed the same commands
//! to the same state stay in the same state. Numbers are abstracted by [`scalar::Scalar`].

pub mod arena;
pub mod bot;
pub mod buffs;
pub mod cards;
pub mod client;
pub mod combat;
pub mod components;
pub mod constants;
pub mod decks;
pub mod deploy_zone;
pub mod elixir;
pub mod fidelity;
pub mod fixed;
pub mod hud;
pub mod identity;
pub mod input;
pub mod laws;
pub mod match_flow;
pub mod net;
pub mod protocol;
pub mod recording;
pub mod refusal;
pub mod relay;
pub mod replay;
pub mod roster;
pub mod scalar;
pub mod sim;
pub mod sim_env;
pub mod skirmish;
pub mod spawn;
pub mod tally;
pub mod vector;
pub mod volley;
pub mod world;
