pub mod filter;
pub mod logging;
pub mod laws;
