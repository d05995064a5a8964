//! What the formulas of the library amount to.
//!
//! The formulas elsewhere say which steps a calculator takes. Here it is said what
//! comes of them: for a calculator that does not round, over real numbers; and how two
//! results relate, for any calculator.
pub mod analysis;
pub mod designs;
pub mod graph;
pub mod market;
pub mod models;
pub mod names;
pub mod numbers;
pub mod ops;
pub mod quotes;
pub mod report;
pub mod setup;
pub mod strategies;
pub mod text;
pub mod trading;
pub mod weights;
