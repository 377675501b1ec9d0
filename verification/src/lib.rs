//! Bautista: a household assistant that switches smart plugs on during the
//! cheapest electricity hours of the day and answers a few chat commands.
//!
//! This crate holds the decision logic of the assistant, with its contracts.

pub mod clock;
pub mod commands;
pub mod config;
pub mod devices;
pub mod prices;
pub mod report;
pub mod rules;
pub mod status;
pub mod str_map;
pub mod telegram;
pub mod text;
