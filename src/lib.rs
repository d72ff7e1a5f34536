//! Arbitration of a heads-up No-Limit Texas Hold'em hand between two
//! players who cannot see each other's cards.
//!
//! - `cards`: the card codec (`rank = c % 13`, `suit = c / 13`).
//! - `poker`: five-card scores and the best five of seven.
//! - `bignum`, `cipher`: the commutative Pohlig–Hellman card cipher.
//! - `hash`, `merkle`, `deck`: Keccak-256, the deck commitment and the
//!   seeded shuffle.
//! - `game`: one hand's state, its betting engine and its transitions from
//!   creation to settlement.
//! - `ledger`: balances held in escrow and per-player records.
//! - `table`: a match of many hands with persistent stacks.
//! - `errors`: why a transition is refused.
pub mod cards;
pub mod poker;
pub mod bignum;
pub mod cipher;
pub mod game;
pub mod hash;
pub mod merkle;
pub mod deck;
pub mod errors;
pub mod ledger;
pub mod table;
