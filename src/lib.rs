pub mod aft22;
pub mod aft34;
pub mod aft37;
pub mod artists;
pub mod balances;
pub mod counting;
pub mod enumerable;
pub mod errors;
pub mod flashmint;
pub mod hooks;
pub mod laws;
pub mod metadata;
pub mod multi_mapping;
pub mod payable_mint;
pub mod table;
pub mod token_timelock;
pub mod types;
pub mod wrapper;
