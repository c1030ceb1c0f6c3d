//! The configuration of the position scanner.
use crate::env::{
    number_setting, read_number, read_signed, read_text, read_unsigned, signed_setting, text_setting,
    unsigned_setting,
};
use crate::scalar::{ratio, ratio_spec, zero, zero_spec, Scalar};
use vstd::prelude::*;
use vstd::string::*;

verus! {

/// What the position scanner is run with.
#[derive(Debug)]
pub struct Config<N> {
    /// The coin, which option symbols begin with.
    pub underlying: String,
    pub eapi_base: String,
    /// `/ws` is appended to it.
    pub options_ws: String,
    pub spot_ws: String,
    pub min_profit_rate: N,
    pub min_annual_rate: N,
    /// How much has to be on offer at the top of the books, in coins.
    pub min_exec_qty: N,
    /// Charged on the price of every leg: three on opening, three on closing.
    pub fee_rate: N,
    /// A position is closed at this share of the rate that it locked in.
    pub close_rate_discount: N,
    /// Charged at expiry on the option that is exercised.
    pub exercise_fee_rate: N,
    pub scan_interval_ms: u64,
    /// The least time between two records of one place.
    pub record_interval_ms: i64,
    pub info_poll_secs: u64,
    pub web_port: u16,
    pub db_path: String,
}

impl<N: Scalar> Clone for Config<N> {
    fn clone(&self) -> (r: Self)
        ensures
            r == *self,
    {
        Config {
            underlying: self.underlying.clone(),
            eapi_base: self.eapi_base.clone(),
            options_ws: self.options_ws.clone(),
            spot_ws: self.spot_ws.clone(),
            min_profit_rate: self.min_profit_rate,
            min_annual_rate: self.min_annual_rate,
            min_exec_qty: self.min_exec_qty,
            fee_rate: self.fee_rate,
            close_rate_discount: self.close_rate_discount,
            exercise_fee_rate: self.exercise_fee_rate,
            scan_interval_ms: self.scan_interval_ms,
            record_interval_ms: self.record_interval_ms,
            info_poll_secs: self.info_poll_secs,
            web_port: self.web_port,
            db_path: self.db_path.clone(),
        }
    }
}

impl<N: Scalar> Config<N> {
    /// The configuration that a list of settings gives. What is missing or does
    /// not parse has a default.
    pub fn from_env(vars: &Vec<(String, String)>) -> (r: Self)
        ensures
            r.underlying@ == text_setting(vars@, "OA_UNDERLYING"@, "BTC"@),
            r.eapi_base@ == text_setting(vars@, "OA_EAPI_BASE"@, "https://eapi.binance.com"@),
            r.options_ws@ == text_setting(vars@, "OA_OPTIONS_WS"@, "wss://fstream.binance.com/market"@),
            r.spot_ws@ == text_setting(vars@, "OA_SPOT_WS"@, "wss://stream.binance.com:9443"@),
            r.min_profit_rate == number_setting::<N>(vars@, "OA_MIN_PROFIT_RATE"@, zero_spec::<N>()),
            r.min_annual_rate == number_setting::<N>(vars@, "OA_MIN_ANNUAL_RATE"@, ratio_spec::<N>(10, 100)),
            r.min_exec_qty == number_setting::<N>(vars@, "OA_MIN_EXEC_QTY"@, zero_spec::<N>()),
            r.fee_rate == number_setting::<N>(vars@, "OA_FEE_RATE"@, ratio_spec::<N>(1, 10_000)),
            r.close_rate_discount == number_setting::<N>(
                vars@,
                "OA_CLOSE_RATE_DISCOUNT"@,
                ratio_spec::<N>(8, 10),
            ),
            r.exercise_fee_rate == number_setting::<N>(
                vars@,
                "OA_EXERCISE_FEE_RATE"@,
                ratio_spec::<N>(15, 100_000),
            ),
            r.scan_interval_ms == unsigned_setting(vars@, "OA_SCAN_INTERVAL_MS"@, 250, u64::MAX),
            r.record_interval_ms == signed_setting(vars@, "OA_RECORD_INTERVAL_MS"@, 5000),
            r.info_poll_secs == unsigned_setting(vars@, "OA_INFO_POLL_SECS"@, 300, u64::MAX),
            r.web_port == unsigned_setting(vars@, "OA_WEB_PORT"@, 8080, 65_535),
            r.db_path@ == text_setting(vars@, "OA_DB_PATH"@, "data.db"@),
    {
        Config {
            underlying: read_text(vars, "OA_UNDERLYING", "BTC"),
            eapi_base: read_text(vars, "OA_EAPI_BASE", "https://eapi.binance.com"),
            options_ws: read_text(vars, "OA_OPTIONS_WS", "wss://fstream.binance.com/market"),
            spot_ws: read_text(vars, "OA_SPOT_WS", "wss://stream.binance.com:9443"),
            min_profit_rate: read_number(vars, "OA_MIN_PROFIT_RATE", zero()),
            min_annual_rate: read_number(vars, "OA_MIN_ANNUAL_RATE", ratio(10, 100)),
            min_exec_qty: read_number(vars, "OA_MIN_EXEC_QTY", zero()),
            fee_rate: read_number(vars, "OA_FEE_RATE", ratio(1, 10_000)),
            close_rate_discount: read_number(vars, "OA_CLOSE_RATE_DISCOUNT", ratio(8, 10)),
            exercise_fee_rate: read_number(vars, "OA_EXERCISE_FEE_RATE", ratio(15, 100_000)),
            scan_interval_ms: read_unsigned(vars, "OA_SCAN_INTERVAL_MS", 250, u64::MAX),
            record_interval_ms: read_signed(vars, "OA_RECORD_INTERVAL_MS", 5000),
            info_poll_secs: read_unsigned(vars, "OA_INFO_POLL_SECS", 300, u64::MAX),
            web_port: read_unsigned(vars, "OA_WEB_PORT", 8080, 65_535) as u16,
            db_path: read_text(vars, "OA_DB_PATH", "data.db"),
        }
    }

    /// The pair on the spot market, such as `BTCUSDT`.
    pub fn spot_symbol(&self) -> (r: String)
        ensures
            r@ == self.underlying@ + "USDT"@,
    {
        let mut s = self.underlying.clone();
        s.append("USDT");
        s
    }
}

} // verus!
