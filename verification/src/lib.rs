//! A binary codec for the legacy transaction record format: a data model for
//! transactions, their inputs and outputs, an encoder and a strict decoder for
//! the wire layout, a builder for assembling transactions, and a small
//! command-line argument interpreter.

pub mod cli;
pub mod codec;
pub mod error;
pub mod laws;
pub mod model;
pub mod point;
pub mod wire;

pub use cli::parse_cli_args;
pub use cli::CliCommand;
pub use codec::BitcoinSerialize;
pub use error::BitcoinError;
pub use model::LegacyTransaction;
pub use model::LegacyTransactionBuilder;
pub use model::OutPoint;
pub use model::TxInput;
pub use model::TxOutput;
pub use point::Point;
