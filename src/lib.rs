//! A product-registry ledger: products with stable, dense identifiers, three
//! paginated views over them (all, by owner, by origin), and a delegated
//! authorization list kept apart from ownership.

pub mod auth;
pub mod contract;
pub mod index;
pub mod laws;
pub mod model;
pub mod types;

pub use contract::ChainLogisticsContract;
pub use types::{Address, Error, Product, ProductStats};
