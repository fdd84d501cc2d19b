pub mod amount;
pub mod client;
pub mod error;
pub mod model;
pub mod processor;
pub mod processor_async;
pub mod sums;
pub mod transaction;
