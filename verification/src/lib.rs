//! A fee-charging token ledger and its rewards pool.
//!
//! Transfers pay a fee in basis points, collected fees feed a rewards pool,
//! and the pool periodically pays its holders pro rata. Every operation takes
//! the accounts it works on as plain values and answers with the requests to
//! hand to the host, so every state transition has a contract.

pub mod error;
pub mod identity;
pub mod fee;
pub mod instruction;
pub mod account;
pub mod spl;
pub mod wire;
pub mod mint;
pub mod processor;
pub mod ledger;
pub mod pool;
pub mod rewards;

pub use account::{AccountInfo, AccountMeta, Instruction, Invocation};
pub use error::LedgerError;
pub use identity::Identity;
pub use instruction::TokenInstruction;
pub use processor::process_instruction;
