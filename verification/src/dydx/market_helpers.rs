use vstd::prelude::*;

use crate::dydx::constants::StarkConstants;
use crate::dydx::{Markets, Side};
use crate::uint::Uint512;

verus! {

impl Side {
    pub open spec fn spec_other(self) -> Side {
        match self {
            Side::BUY => Side::SELL,
            Side::SELL => Side::BUY,
        }
    }

    /// The opposite side of a trade.
    pub fn other(&self) -> (res: Side)
        ensures
            res == self.spec_other(),
            res != *self,
    {
        if *self == Side::BUY {
            return Side::SELL;
        }
        Side::BUY
    }
}

impl Markets {
    /// The number of decimals of the market's asset in its quantum representation.
    pub open spec fn spec_decimals(self) -> nat {
        match self {
            Markets::BTC => 10,
            Markets::ETH => 9,
            Markets::SOL => 7,
            Markets::FIL => 7,
            Markets::AVAX => 7,
            Markets::MATIC => 6,
            Markets::NEAR => 6,
            Markets::CRV => 6,
            Markets::LINK => 7,
            Markets::SNX => 7,
            Markets::DOT => 7,
            Markets::DOGE => 5,
            Markets::ATOM => 7,
            Markets::ENJ => 6,
            Markets::AAVE => 8,
            Markets::COMP => 8,
            Markets::ALGO => 6,
            Markets::ZRX => 6,
            Markets::EOS => 6,
            Markets::ICP => 7,
            Markets::TRX => 4,
            Markets::XTZ => 6,
            Markets::INCH => 7,
            Markets::SUSHI => 7,
            Markets::CELO => 6,
            Markets::UNI => 7,
            Markets::ETC => 7,
            Markets::BCH => 8,
            Markets::LTC => 8,
            Markets::XMR => 8,
            Markets::MKR => 9,
            Markets::UMA => 7,
            Markets::YFI => 10,
            Markets::RUNE => 6,
            Markets::ADA => 6,
            Markets::ZEC => 8,
            Markets::XLM => 5,
        }
    }

    /// The name of the market on the exchange, such as `BTC-USD`.
    pub open spec fn spec_name(self) -> Seq<char> {
        match self {
            Markets::BTC => "BTC-USD"@,
            Markets::ETH => "ETH-USD"@,
            Markets::SOL => "SOL-USD"@,
            Markets::FIL => "FIL-USD"@,
            Markets::AVAX => "AVAX-USD"@,
            Markets::MATIC => "MATIC-USD"@,
            Markets::NEAR => "NEAR-USD"@,
            Markets::CRV => "CRV-USD"@,
            Markets::LINK => "LINK-USD"@,
            Markets::SNX => "SNX-USD"@,
            Markets::DOT => "DOT-USD"@,
            Markets::DOGE => "DOGE-USD"@,
            Markets::ATOM => "ATOM-USD"@,
            Markets::ENJ => "ENJ-USD"@,
            Markets::AAVE => "AAVE-USD"@,
            Markets::COMP => "COMP-USD"@,
            Markets::ALGO => "ALGO-USD"@,
            Markets::ZRX => "ZRX-USD"@,
            Markets::EOS => "EOS-USD"@,
            Markets::ICP => "ICP-USD"@,
            Markets::TRX => "TRX-USD"@,
            Markets::XTZ => "XTZ-USD"@,
            Markets::INCH => "1INCH-USD"@,
            Markets::SUSHI => "SUSHI-USD"@,
            Markets::CELO => "CELO-USD"@,
            Markets::UNI => "UNI-USD"@,
            Markets::ETC => "ETC-USD"@,
            Markets::BCH => "BCH-USD"@,
            Markets::LTC => "LTC-USD"@,
            Markets::XMR => "XMR-USD"@,
            Markets::MKR => "MKR-USD"@,
            Markets::UMA => "UMA-USD"@,
            Markets::YFI => "YFI-USD"@,
            Markets::RUNE => "RUNE-USD"@,
            Markets::ADA => "ADA-USD"@,
            Markets::ZEC => "ZEC-USD"@,
            Markets::XLM => "XLM-USD"@,
        }
    }

    /// Every market, in the order in which the exchange lists them here.
    pub open spec fn spec_all() -> Seq<Markets> {
        seq![
            Markets::BTC,
            Markets::ETH,
            Markets::SOL,
            Markets::FIL,
            Markets::AVAX,
            Markets::MATIC,
            Markets::NEAR,
            Markets::CRV,
            Markets::LINK,
            Markets::SNX,
            Markets::DOT,
            Markets::DOGE,
            Markets::ATOM,
            Markets::ENJ,
            Markets::AAVE,
            Markets::COMP,
            Markets::ALGO,
            Markets::ZRX,
            Markets::EOS,
            Markets::ICP,
            Markets::TRX,
            Markets::XTZ,
            Markets::INCH,
            Markets::SUSHI,
            Markets::CELO,
            Markets::UNI,
            Markets::ETC,
            Markets::BCH,
            Markets::LTC,
            Markets::XMR,
            Markets::MKR,
            Markets::UMA,
            Markets::YFI,
            Markets::RUNE,
            Markets::ADA,
            Markets::ZEC,
            Markets::XLM,
        ]
    }

    /// The number of decimals of the market's asset in its quantum representation.
    pub fn decimals(&self) -> (d: usize)
        ensures
            d == self.spec_decimals(),
    {
        match *self {
            Markets::BTC => 10,
            Markets::ETH => 9,
            Markets::SOL => 7,
            Markets::FIL => 7,
            Markets::AVAX => 7,
            Markets::MATIC => 6,
            Markets::NEAR => 6,
            Markets::CRV => 6,
            Markets::LINK => 7,
            Markets::SNX => 7,
            Markets::DOT => 7,
            Markets::DOGE => 5,
            Markets::ATOM => 7,
            Markets::ENJ => 6,
            Markets::AAVE => 8,
            Markets::COMP => 8,
            Markets::ALGO => 6,
            Markets::ZRX => 6,
            Markets::EOS => 6,
            Markets::ICP => 7,
            Markets::TRX => 4,
            Markets::XTZ => 6,
            Markets::INCH => 7,
            Markets::SUSHI => 7,
            Markets::CELO => 6,
            Markets::UNI => 7,
            Markets::ETC => 7,
            Markets::BCH => 8,
            Markets::LTC => 8,
            Markets::XMR => 8,
            Markets::MKR => 9,
            Markets::UMA => 7,
            Markets::YFI => 10,
            Markets::RUNE => 6,
            Markets::ADA => 6,
            Markets::ZEC => 8,
            Markets::XLM => 5,
        }
    }

    /// The market's name, as it is written in requests and shown to the user.
    pub fn to_string(&self) -> (s: String)
        ensures
            s@ == self.spec_name(),
    {
        let name = match *self {
            Markets::BTC => "BTC-USD",
            Markets::ETH => "ETH-USD",
            Markets::SOL => "SOL-USD",
            Markets::FIL => "FIL-USD",
            Markets::AVAX => "AVAX-USD",
            Markets::MATIC => "MATIC-USD",
            Markets::NEAR => "NEAR-USD",
            Markets::CRV => "CRV-USD",
            Markets::LINK => "LINK-USD",
            Markets::SNX => "SNX-USD",
            Markets::DOT => "DOT-USD",
            Markets::DOGE => "DOGE-USD",
            Markets::ATOM => "ATOM-USD",
            Markets::ENJ => "ENJ-USD",
            Markets::AAVE => "AAVE-USD",
            Markets::COMP => "COMP-USD",
            Markets::ALGO => "ALGO-USD",
            Markets::ZRX => "ZRX-USD",
            Markets::EOS => "EOS-USD",
            Markets::ICP => "ICP-USD",
            Markets::TRX => "TRX-USD",
            Markets::XTZ => "XTZ-USD",
            Markets::INCH => "1INCH-USD",
            Markets::SUSHI => "SUSHI-USD",
            Markets::CELO => "CELO-USD",
            Markets::UNI => "UNI-USD",
            Markets::ETC => "ETC-USD",
            Markets::BCH => "BCH-USD",
            Markets::LTC => "LTC-USD",
            Markets::XMR => "XMR-USD",
            Markets::MKR => "MKR-USD",
            Markets::UMA => "UMA-USD",
            Markets::YFI => "YFI-USD",
            Markets::RUNE => "RUNE-USD",
            Markets::ADA => "ADA-USD",
            Markets::ZEC => "ZEC-USD",
            Markets::XLM => "XLM-USD",
        };
        String::from_str(name)
    }

    /// The market's position in `Markets::vector`.
    pub open spec fn spec_index(self) -> nat {
        match self {
            Markets::BTC => 0,
            Markets::ETH => 1,
            Markets::SOL => 2,
            Markets::FIL => 3,
            Markets::AVAX => 4,
            Markets::MATIC => 5,
            Markets::NEAR => 6,
            Markets::CRV => 7,
            Markets::LINK => 8,
            Markets::SNX => 9,
            Markets::DOT => 10,
            Markets::DOGE => 11,
            Markets::ATOM => 12,
            Markets::ENJ => 13,
            Markets::AAVE => 14,
            Markets::COMP => 15,
            Markets::ALGO => 16,
            Markets::ZRX => 17,
            Markets::EOS => 18,
            Markets::ICP => 19,
            Markets::TRX => 20,
            Markets::XTZ => 21,
            Markets::INCH => 22,
            Markets::SUSHI => 23,
            Markets::CELO => 24,
            Markets::UNI => 25,
            Markets::ETC => 26,
            Markets::BCH => 27,
            Markets::LTC => 28,
            Markets::XMR => 29,
            Markets::MKR => 30,
            Markets::UMA => 31,
            Markets::YFI => 32,
            Markets::RUNE => 33,
            Markets::ADA => 34,
            Markets::ZEC => 35,
            Markets::XLM => 36,
        }
    }

    /// The market's position in `Markets::vector`.
    pub fn index(&self) -> (i: usize)
        ensures
            i == self.spec_index(),
    {
        match *self {
            Markets::BTC => 0,
            Markets::ETH => 1,
            Markets::SOL => 2,
            Markets::FIL => 3,
            Markets::AVAX => 4,
            Markets::MATIC => 5,
            Markets::NEAR => 6,
            Markets::CRV => 7,
            Markets::LINK => 8,
            Markets::SNX => 9,
            Markets::DOT => 10,
            Markets::DOGE => 11,
            Markets::ATOM => 12,
            Markets::ENJ => 13,
            Markets::AAVE => 14,
            Markets::COMP => 15,
            Markets::ALGO => 16,
            Markets::ZRX => 17,
            Markets::EOS => 18,
            Markets::ICP => 19,
            Markets::TRX => 20,
            Markets::XTZ => 21,
            Markets::INCH => 22,
            Markets::SUSHI => 23,
            Markets::CELO => 24,
            Markets::UNI => 25,
            Markets::ETC => 26,
            Markets::BCH => 27,
            Markets::LTC => 28,
            Markets::XMR => 29,
            Markets::MKR => 30,
            Markets::UMA => 31,
            Markets::YFI => 32,
            Markets::RUNE => 33,
            Markets::ADA => 34,
            Markets::ZEC => 35,
            Markets::XLM => 36,
        }
    }

    /// The asset id of the market's synthetic asset.
    pub fn id(&self, constants: &StarkConstants) -> (r: Uint512)
        requires
            constants.asset_ids@.len() == 37,
        ensures
            r == constants.asset_ids@[self.spec_index() as int],
            constants.valid() ==> forall|m: Markets|
                m != *self ==> r@ != #[trigger] constants.asset_ids@[m.spec_index() as int]@,
    {
        let r = constants.asset_ids[self.index()];
        proof {
            if constants.valid() {
                assert forall|m: Markets| m != *self implies r@
                    != #[trigger] constants.asset_ids@[m.spec_index() as int]@ by {
                    lemma_ids_distinct(*constants, *self, m);
                }
            }
        }
        r
    }

    /// Every market, each once.
    pub fn vector() -> (v: Vec<Self>)
        ensures
            v@ == Self::spec_all(),
    {
        let mut v = Vec::new();
        v.push(Markets::BTC);
        v.push(Markets::ETH);
        v.push(Markets::SOL);
        v.push(Markets::FIL);
        v.push(Markets::AVAX);
        v.push(Markets::MATIC);
        v.push(Markets::NEAR);
        v.push(Markets::CRV);
        v.push(Markets::LINK);
        v.push(Markets::SNX);
        v.push(Markets::DOT);
        v.push(Markets::DOGE);
        v.push(Markets::ATOM);
        v.push(Markets::ENJ);
        v.push(Markets::AAVE);
        v.push(Markets::COMP);
        v.push(Markets::ALGO);
        v.push(Markets::ZRX);
        v.push(Markets::EOS);
        v.push(Markets::ICP);
        v.push(Markets::TRX);
        v.push(Markets::XTZ);
        v.push(Markets::INCH);
        v.push(Markets::SUSHI);
        v.push(Markets::CELO);
        v.push(Markets::UNI);
        v.push(Markets::ETC);
        v.push(Markets::BCH);
        v.push(Markets::LTC);
        v.push(Markets::XMR);
        v.push(Markets::MKR);
        v.push(Markets::UMA);
        v.push(Markets::YFI);
        v.push(Markets::RUNE);
        v.push(Markets::ADA);
        v.push(Markets::ZEC);
        v.push(Markets::XLM);
        assert(v@ =~= Self::spec_all());
        v
    }

    /// The subscription to the market's order book feed.
    pub fn orderbook_feed_message(&self) -> (msg: String)
        ensures
            msg@ == "{ \"type\": \"subscribe\", \"channel\": \"v3_orderbook\", \"id\": \""@ + self.spec_name()
                + "\", \"includeOffsets\": true }\n"@,
    {
        let mut msg = String::from_str("{ \"type\": \"subscribe\", \"channel\": \"v3_orderbook\", \"id\": \"");
        let name = self.to_string();
        msg.append(name.as_str());
        msg.append("\", \"includeOffsets\": true }\n");
        msg
    }

    /// The subscription to the market's trade feed.
    pub fn trade_feed_message(&self) -> (msg: String)
        ensures
            msg@ == "{ \"type\": \"subscribe\", \"channel\": \"v3_trades\", \"id\": \""@ + self.spec_name()
                + "\" }\n"@,
    {
        let mut msg = String::from_str("{ \"type\": \"subscribe\", \"channel\": \"v3_trades\", \"id\": \"");
        let name = self.to_string();
        msg.append(name.as_str());
        msg.append("\" }\n");
        msg
    }
}

/// Each market occurs exactly once in the list of all markets.
pub proof fn lemma_all_markets_once(m: Markets)
    ensures
        Markets::spec_all().contains(m),
        Markets::spec_all().len() == 37,
        Markets::spec_all().no_duplicates(),
{
    let s = Markets::spec_all();
    match m {
        Markets::BTC => assert(s[0] == m),
        Markets::ETH => assert(s[1] == m),
        Markets::SOL => assert(s[2] == m),
        Markets::FIL => assert(s[3] == m),
        Markets::AVAX => assert(s[4] == m),
        Markets::MATIC => assert(s[5] == m),
        Markets::NEAR => assert(s[6] == m),
        Markets::CRV => assert(s[7] == m),
        Markets::LINK => assert(s[8] == m),
        Markets::SNX => assert(s[9] == m),
        Markets::DOT => assert(s[10] == m),
        Markets::DOGE => assert(s[11] == m),
        Markets::ATOM => assert(s[12] == m),
        Markets::ENJ => assert(s[13] == m),
        Markets::AAVE => assert(s[14] == m),
        Markets::COMP => assert(s[15] == m),
        Markets::ALGO => assert(s[16] == m),
        Markets::ZRX => assert(s[17] == m),
        Markets::EOS => assert(s[18] == m),
        Markets::ICP => assert(s[19] == m),
        Markets::TRX => assert(s[20] == m),
        Markets::XTZ => assert(s[21] == m),
        Markets::INCH => assert(s[22] == m),
        Markets::SUSHI => assert(s[23] == m),
        Markets::CELO => assert(s[24] == m),
        Markets::UNI => assert(s[25] == m),
        Markets::ETC => assert(s[26] == m),
        Markets::BCH => assert(s[27] == m),
        Markets::LTC => assert(s[28] == m),
        Markets::XMR => assert(s[29] == m),
        Markets::MKR => assert(s[30] == m),
        Markets::UMA => assert(s[31] == m),
        Markets::YFI => assert(s[32] == m),
        Markets::RUNE => assert(s[33] == m),
        Markets::ADA => assert(s[34] == m),
        Markets::ZEC => assert(s[35] == m),
        Markets::XLM => assert(s[36] == m),
    }
    assert forall|i: int, j: int| 0 <= i < s.len() && 0 <= j < s.len() && i != j implies s[i] != s[j] by {
    }
}

/// A market's index is its position in the list of all markets.
pub proof fn lemma_index_in_vector(m: Markets)
    ensures
        m.spec_index() < Markets::spec_all().len(),
        Markets::spec_all()[m.spec_index() as int] == m,
{
}

/// Different markets have different asset ids under valid constants.
pub proof fn lemma_ids_distinct(constants: StarkConstants, m1: Markets, m2: Markets)
    requires
        constants.valid(),
        m1 != m2,
    ensures
        constants.asset_ids@[m1.spec_index() as int]@ != constants.asset_ids@[m2.spec_index() as int]@,
{
    lemma_index_in_vector(m1);
    lemma_index_in_vector(m2);
    let (i, j) = (m1.spec_index() as int, m2.spec_index() as int);
    assert(i != j);
    if i < j {
        assert(constants.asset_ids@[i]@ != constants.asset_ids@[j]@);
    } else {
        assert(constants.asset_ids@[j]@ != constants.asset_ids@[i]@);
    }
}

/// Taking the other side twice gives back the side one started from.
pub proof fn lemma_other_involutive(side: Side)
    ensures
        side.spec_other().spec_other() == side,
{
}

} // verus!
