pub mod args;
pub mod cli;
pub mod cli_laws;
pub mod client;
pub mod daemon;
pub mod display;
pub mod exponent;
pub mod ipc;
pub mod laws;
pub mod num;
pub mod order;
pub mod output;
pub mod roundtrip;
pub mod service;
pub mod suggest;
pub mod text;
