//! Verified core of the Opsense analysis and backtest toolkit.
pub mod analysis;
pub mod arith;
pub mod blocks;
pub mod calendar;
pub mod candle;
pub mod entries;
pub mod exact;
pub mod extractor;
pub mod fee;
pub mod forward;
pub mod graph;
pub mod grid;
pub mod jobs;
pub mod json;
pub mod laws;
pub mod lexical;
pub mod loader;
pub mod lru;
pub mod models;
pub mod num;
pub mod ohcl;
pub mod order;
pub mod plan;
pub mod playground;
pub mod pricing;
pub mod providers;
pub mod quotes;
pub mod redis;
pub mod reload;
pub mod repl;
pub mod report;
pub mod rounding;
pub mod runner;
pub mod sandbox;
pub mod score;
pub mod series;
pub mod session;
pub mod strategies;
pub mod streaming;
pub mod telegram;
pub mod text;
