//! Leasing of CI runner machines and of the hardware boards they borrow.
//!
//! The crate keeps an in-memory image of the two tables of the pool (runners
//! and boards) and implements on it the lifecycle of a runner, the exclusive
//! claim and release of a board, and the watchdog that resets runners whose
//! lease has run out. Signals to the virtual machines are collected in a queue
//! for the caller to deliver.

pub mod config;
pub mod db;
pub mod hardware;
pub mod http;
pub mod reset_task;
pub mod runners;
pub mod text;
pub mod timestamp;
pub mod vm;
