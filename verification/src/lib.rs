//! A pooled-stake game session: a host opens a session with an entry fee and
//! a capacity, players join by depositing the fee into a custodial vault, and
//! the host settles the session by splitting the accumulated pool between the
//! winners and two fixed service fees.
//!
//! The library owns the session state machine and all of the accounting; the
//! surrounding environment performs the actual movement of value between
//! accounts, driven by the amounts this library computes.

pub mod game;
pub mod settle;
