//! Single-instance local messaging layer for a family of cooperating
//! programs.
//!
//! A launch resolves a stable identity key (`ident`), probes the OS
//! single-instance lock and classifies the outcome (`ipc`): the unique
//! owner runs the dispatch state machine (`dispatch`) over a local socket,
//! any later launch becomes a sender and forwards its command set. Commands
//! and replies (`command`) travel in a self-framing binary encoding
//! (`codec`) proved to round-trip exactly and to reject anything else. Log
//! records are buffered (`log`) and forwarded over the same protocol;
//! `eframe`, `game`, `items` and `util` hold the verified data and logic of
//! the programs built around the layer.

pub mod codec;
pub mod command;
pub mod dispatch;
pub mod eframe;
pub mod game;
pub mod ident;
pub mod ipc;
pub mod items;
pub mod log;
pub mod util;
