//! The trading strategies that the bot can run.
use vstd::prelude::*;

pub mod market_exposure;

verus! {

#[derive(Debug, PartialEq, Eq, Structural, Clone, Copy)]
pub enum Strategy {
    MarketMake,
    ReverseRetail,
    SecondDerivative,
    StructuredEntropy,
    MarketExposure,
}

impl Strategy {
    /// The strategy that a two-letter code on the command line names: `mm`, `se`,
    /// `sd`, `gd` and `me`.
    pub open spec fn spec_from_code(code: Seq<char>) -> Option<Strategy> {
        if code == seq!['m', 'm'] {
            Some(Strategy::MarketMake)
        } else if code == seq!['s', 'e'] {
            Some(Strategy::StructuredEntropy)
        } else if code == seq!['s', 'd'] {
            Some(Strategy::SecondDerivative)
        } else if code == seq!['g', 'd'] {
            Some(Strategy::ReverseRetail)
        } else if code == seq!['m', 'e'] {
            Some(Strategy::MarketExposure)
        } else {
            None
        }
    }

    /// The strategy that a code names; `None` for any other text.
    pub fn from_code(code: &str) -> (r: Option<Strategy>)
        ensures
            r == Self::spec_from_code(code@),
    {
        if code.unicode_len() != 2 {
            return None;
        }
        let a = code.get_char(0);
        let b = code.get_char(1);
        assert(code@ == seq![a, b]);
        if a == 'm' && b == 'm' {
            Some(Strategy::MarketMake)
        } else if a == 's' && b == 'e' {
            Some(Strategy::StructuredEntropy)
        } else if a == 's' && b == 'd' {
            Some(Strategy::SecondDerivative)
        } else if a == 'g' && b == 'd' {
            Some(Strategy::ReverseRetail)
        } else if a == 'm' && b == 'e' {
            Some(Strategy::MarketExposure)
        } else {
            None
        }
    }
}

/// Quotes both sides around the recent price while the market is calm.
pub struct MarketMake;

/// Trades the dips and rises of every market's hourly averages.
pub struct MarketExposure;

/// Trades on the first and second derivatives of the price.
pub struct SecondDerivative;

} // verus!
