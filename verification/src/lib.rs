//! Core of a low-latency trading pipeline.

pub mod bench;
pub mod clock;
pub mod feed;
pub mod ilp;
pub mod influx;
pub mod latency;
pub mod market;
pub mod md_handler;
pub mod order_gateway;
pub mod order_recorder;
pub mod price;
pub mod price_text;
pub mod reading;
pub mod strategy;
pub mod symbol;
pub mod text;
pub mod tick_recorder;
pub mod wire;
