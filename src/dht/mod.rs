pub mod transactions;
pub mod operations;
