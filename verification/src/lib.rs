pub mod apt;
pub mod changelog;
pub mod cli;
pub mod cnf;
pub mod commands;
pub mod config;
pub mod doctor;
pub mod download;
pub mod fetch;
pub mod history;
pub mod install;
pub mod json;
pub mod kernels;
pub mod laws;
pub mod listpkgs;
pub mod lists;
pub mod names;
pub mod number;
pub mod order;
pub mod progress;
pub mod provides;
pub mod repo;
pub mod report;
pub mod resolve;
pub mod restart;
pub mod selfupdate;
pub mod text;
pub mod transact;
pub mod ui;
pub mod version;
pub mod why;
pub mod whynot;
