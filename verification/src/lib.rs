//! Option arbitrage: conversion and reversal monitoring.
pub mod arb;
pub mod binance;
pub mod config;
pub mod db;
pub mod decimal;
pub mod env;
pub mod exchanges;
pub mod fixed;
pub mod history;
pub mod json;
pub mod laws;
pub mod ledger;
pub mod model;
pub mod models;
pub mod monitor;
pub mod poller;
pub mod rank;
pub mod scalar;
pub mod scan;
pub mod scanner;
pub mod table;
pub mod text;
pub mod time;
pub mod web;
