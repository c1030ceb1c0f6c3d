//! What Binance lists and sends.
pub mod rest;
pub mod ws_options;
pub mod ws_spot;
