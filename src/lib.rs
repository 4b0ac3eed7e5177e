//! Transaction-execution and account-state core of an off-chain compute layer.
pub mod account;
pub mod account_cache;
pub mod address;
pub mod amount;
pub mod batcher;
pub mod blob_cache;
pub mod da_client;
pub mod engine;
pub mod graph;
pub mod mempool;
pub mod scheduler;
pub mod token;
pub mod validator;
