//! What the operations are for, as laws over their inputs and results.

pub mod apt;
pub mod config;
pub mod doctor;
pub mod fetch;
pub mod history;
pub mod install;
pub mod kernels;
pub mod lines;
pub mod lists;
pub mod order;
pub mod progress;
pub mod repo;
pub mod resolve;
pub mod restart;
pub mod shown;
pub mod text;
pub mod told;
pub mod ui;
pub mod version;
pub mod views;
pub mod why;
