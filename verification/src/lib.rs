pub mod actionquery;
pub mod ae;
pub mod batch;
pub mod circom;
pub mod commitment;
pub mod contract;
pub mod correctness;
pub mod data_structure;
pub mod deposit;
pub mod field;
pub mod range;
pub mod share;
pub mod stats;
pub mod task;
pub mod test_config;
pub mod transaction_batched;
pub mod withdraw;
pub mod witness;
