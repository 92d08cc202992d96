//! Verified core of the orquestra command-line client for Solana programs.

pub mod text;
pub mod codecs;
pub mod crypto;
pub mod numbers;
pub mod strmap;
pub mod values;
pub mod api;
pub mod idl;
pub mod borsh;
pub mod wire;
pub mod message;
pub mod solana;
pub mod config;
pub mod cli;
pub mod interactive;
pub mod laws;
