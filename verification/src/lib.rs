//! A Pong that two players play over the network, and the gateway that brings
//! them together.
//!
//! The gateway's side: [`gateway`] answers what clients ask, [`lobby`] merges
//! the two reports of a match and rates it with [`elo`], [`certify`] signs
//! ratings, [`matchmaking`] pairs who waits, [`ledger`] is what is stored,
//! [`moderation`] revokes and corrects matches, and [`http`] and [`auth`] guard
//! the page on which that is done. [`laws`] states what holds of them together.
//!
//! The player's side: [`client`] and [`prematch`] lead from the search to a
//! match, [`game`] has the rules around the simulation, [`history`] and
//! [`config`] what is kept, and [`labels`], [`chat`], [`graph`] and [`servers`]
//! what the menu shows.
//!
//! Both speak the messages of [`protocol`] between the identities of [`peer`]
//! at the addresses of [`addr`].
pub mod addr;
pub mod args;
pub mod auth;
pub mod certify;
pub mod chat;
pub mod client;
pub mod config;
pub mod elo;
pub mod game;
pub mod gateway;
pub mod graph;
pub mod hex;
pub mod history;
pub mod http;
pub mod json;
pub mod labels;
pub mod laws;
pub mod ledger;
pub mod lobby;
pub mod matchmaking;
pub mod moderation;
pub mod net;
pub mod pages;
pub mod peer;
pub mod prematch;
pub mod protocol;
pub mod servers;
pub mod table;
pub mod text;
