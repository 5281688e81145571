//! A multiplayer card game of war whose draws are bound to the rounds of a
//! public randomness beacon.
//!
//! Every draw is made with a generator seeded from the beacon's signature for
//! the round the game expects, so that anyone holding the signature can
//! recompute the card that was drawn.
#![allow(non_snake_case)]

pub mod address;
pub mod bataille;
pub mod beacon;
pub mod cards;
pub mod census;
pub mod errors;
pub mod game;
pub mod heap;
pub mod model;
pub mod rng;

pub use address::Address;
pub use bataille::Bataille;
pub use beacon::{current_round, GENESIS_TIME, PERIOD};
pub use cards::{rank, suit, Card, N_CARDS, N_FAMILIES, N_VALUES};
pub use errors::GameError;
pub use game::{Game, Player};
pub use heap::{draw, take};
pub use rng::RngKeccak256;
