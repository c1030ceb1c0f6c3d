//! What holds of the results of the library, whatever goes in.
pub mod arb;
pub mod binance;
pub mod db;
pub mod decimal;
pub mod fixed;
pub mod monitor;
pub mod scan;
pub mod scanner;
pub mod settings;
pub mod text;
