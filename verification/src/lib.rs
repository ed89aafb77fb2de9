//! Core logic of the shepherd robot-arena services: run-state machine,
//! configuration defaults, MQTT handler registry, log buffering and
//! newline framing of camera images.

pub mod bufs;
pub mod common;
pub mod dispatch;
pub mod messages;
pub mod buffer;
pub mod config;
pub mod control;
pub mod runner;
pub mod receiver;
pub mod mqtt;
