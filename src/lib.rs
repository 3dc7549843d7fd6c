//! A tick-driven simulation of passengers boarding an aircraft cabin.

pub mod tile;
pub mod person;
pub mod aircraft;
pub mod config;
pub mod facts;
pub mod generators;
