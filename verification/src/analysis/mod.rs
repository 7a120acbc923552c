//! Kinds of market data and the analyses run over them.
use vstd::prelude::*;

pub mod rings;

use crate::dydx::Position;

verus! {

/// A kind of market data that a prediction can be made for.
pub trait DataType {

}

/// A snapshot of the order book, as the position it quotes.
pub struct Orderbook(pub Position);

impl DataType for Orderbook {

}

/// Lagrange interpolation over sampled prices.
pub struct Interpolation;

/// Stochastic gradient descent over sampled prices.
pub struct StochasticGradientDescent;

} // verus!
