//! Market analytics over fixed-point candle data: technical indicators,
//! market snapshots and their report, decision-ledger replay and trade
//! performance statistics, with the configuration and authentication rules
//! around them.
//!
//! Every price, quantity and indicator value is an integer count of
//! `1 / SCALE` units (eight decimal places), the precision at which the
//! exchange quotes its prices.

pub mod types;
pub mod text;
pub mod decimal;
pub mod indicators;
pub mod snapshot;
pub mod report;
pub mod ledger;
pub mod performance;
pub mod logger;
pub mod config;
pub mod auth;
pub mod store;
