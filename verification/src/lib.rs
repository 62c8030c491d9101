//! Pools of ready checkouts of git repositories, and the server that keeps them.
pub mod action_laws;
pub mod api;
pub mod build_laws;
pub mod checkout_laws;
pub mod cleanup;
pub mod cleanup_laws;
pub mod cli;
pub mod cli_laws;
pub mod client;
pub mod command;
pub mod config;
pub mod directory_laws;
pub mod error;
pub mod handler;
pub mod handler_laws;
pub mod listing_laws;
pub mod loop_laws;
pub mod path;
pub mod poll_loop;
pub mod pool;
pub mod pool_laws;
pub mod progress_laws;
pub mod removal_laws;
pub mod request_laws;
pub mod requests;
pub mod seqs;
pub mod server;
pub mod socket;
pub mod state;
pub mod step_laws;
pub mod text;
pub mod text_laws;
pub mod time;
pub mod view_laws;
