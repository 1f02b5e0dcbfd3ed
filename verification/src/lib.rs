pub mod config;
pub mod cards;
pub mod dates;
pub mod dice;
pub mod engine;
pub mod errors;
pub mod guess;
pub mod helpers;
pub mod jobs;
pub mod ledger;
pub mod lottery;
pub mod member;
pub mod registry;
pub mod rng;
pub mod roulette;
pub mod sardines;
pub mod table;
pub mod text;
pub mod users;
