pub mod analysis;
pub mod dydx;
pub mod strategy;
pub mod uint;
pub mod arith;
