//! A binary codec for the Bitcoin legacy transaction wire format.
//!
//! Encodes in-memory transaction structures to the canonical byte layout
//! and decodes byte buffers back into validated structures. Covers the
//! pre-segwit subset: version, inputs and lock time.

pub mod error;
pub mod hextext;
pub mod tx;
pub mod txid;
pub mod varint;
pub mod wire;

pub use error::BitcoinError;
pub use tx::{BitcoinTransaction, OutPoint, Script, TransactionInput};
pub use txid::Txid;
pub use varint::CompactSize;
