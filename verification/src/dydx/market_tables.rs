//! The exchange's tables of markets, stated apart from the functions that use
//! them, and the laws that tie those functions to the tables.
use vstd::prelude::*;

use crate::dydx::Markets;

verus! {

/// The ticker of each market's synthetic asset.
pub open spec fn ticker(m: Markets) -> Seq<char> {
    match m {
        Markets::BTC => "BTC"@,
        Markets::ETH => "ETH"@,
        Markets::SOL => "SOL"@,
        Markets::FIL => "FIL"@,
        Markets::AVAX => "AVAX"@,
        Markets::MATIC => "MATIC"@,
        Markets::NEAR => "NEAR"@,
        Markets::CRV => "CRV"@,
        Markets::LINK => "LINK"@,
        Markets::SNX => "SNX"@,
        Markets::DOT => "DOT"@,
        Markets::DOGE => "DOGE"@,
        Markets::ATOM => "ATOM"@,
        Markets::ENJ => "ENJ"@,
        Markets::AAVE => "AAVE"@,
        Markets::COMP => "COMP"@,
        Markets::ALGO => "ALGO"@,
        Markets::ZRX => "ZRX"@,
        Markets::EOS => "EOS"@,
        Markets::ICP => "ICP"@,
        Markets::TRX => "TRX"@,
        Markets::XTZ => "XTZ"@,
        Markets::INCH => "1INCH"@,
        Markets::SUSHI => "SUSHI"@,
        Markets::CELO => "CELO"@,
        Markets::UNI => "UNI"@,
        Markets::ETC => "ETC"@,
        Markets::BCH => "BCH"@,
        Markets::LTC => "LTC"@,
        Markets::XMR => "XMR"@,
        Markets::MKR => "MKR"@,
        Markets::UMA => "UMA"@,
        Markets::YFI => "YFI"@,
        Markets::RUNE => "RUNE"@,
        Markets::ADA => "ADA"@,
        Markets::ZEC => "ZEC"@,
        Markets::XLM => "XLM"@,
    }
}

/// The resolution (decimals) of each synthetic asset, in the order of
/// `Markets::vector`.
pub open spec fn resolution_table() -> Seq<nat> {
    seq![10, 9, 7, 7, 7, 6, 6, 6, 7, 7, 7, 5, 7, 6, 8, 8, 6, 6, 6, 7, 4, 6, 7, 7, 6, 7, 7, 8, 8, 8, 9, 7, 10, 6, 6, 8, 5] 
}

/// Each market's decimals are the resolution of its synthetic asset in the table.
pub proof fn lemma_decimals_follow_table(m: Markets)
    ensures
        resolution_table().len() == 37,
        m.spec_decimals() == resolution_table()[m.spec_index() as int],
{
}

/// A market's name is its ticker followed by `-USD`.
pub proof fn lemma_name_is_ticker(m: Markets)
    ensures
        m.spec_name() == ticker(m) + "-USD"@,
{
    reveal_strlit("-USD");
    match m {
        Markets::BTC => {
            reveal_strlit("BTC-USD");
            reveal_strlit("BTC");
            assert(m.spec_name() =~= ticker(m) + "-USD"@);
        },
        Markets::ETH => {
            reveal_strlit("ETH-USD");
            reveal_strlit("ETH");
            assert(m.spec_name() =~= ticker(m) + "-USD"@);
        },
        Markets::SOL => {
            reveal_strlit("SOL-USD");
            reveal_strlit("SOL");
            assert(m.spec_name() =~= ticker(m) + "-USD"@);
        },
        Markets::FIL => {
            reveal_strlit("FIL-USD");
            reveal_strlit("FIL");
            assert(m.spec_name() =~= ticker(m) + "-USD"@);
        },
        Markets::AVAX => {
            reveal_strlit("AVAX-USD");
            reveal_strlit("AVAX");
            assert(m.spec_name() =~= ticker(m) + "-USD"@);
        },
        Markets::MATIC => {
            reveal_strlit("MATIC-USD");
            reveal_strlit("MATIC");
            assert(m.spec_name() =~= ticker(m) + "-USD"@);
        },
        Markets::NEAR => {
            reveal_strlit("NEAR-USD");
            reveal_strlit("NEAR");
            assert(m.spec_name() =~= ticker(m) + "-USD"@);
        },
        Markets::CRV => {
            reveal_strlit("CRV-USD");
            reveal_strlit("CRV");
            assert(m.spec_name() =~= ticker(m) + "-USD"@);
        },
        Markets::LINK => {
            reveal_strlit("LINK-USD");
            reveal_strlit("LINK");
            assert(m.spec_name() =~= ticker(m) + "-USD"@);
        },
        Markets::SNX => {
            reveal_strlit("SNX-USD");
            reveal_strlit("SNX");
            assert(m.spec_name() =~= ticker(m) + "-USD"@);
        },
        Markets::DOT => {
            reveal_strlit("DOT-USD");
            reveal_strlit("DOT");
            assert(m.spec_name() =~= ticker(m) + "-USD"@);
        },
        Markets::DOGE => {
            reveal_strlit("DOGE-USD");
            reveal_strlit("DOGE");
            assert(m.spec_name() =~= ticker(m) + "-USD"@);
        },
        Markets::ATOM => {
            reveal_strlit("ATOM-USD");
            reveal_strlit("ATOM");
            assert(m.spec_name() =~= ticker(m) + "-USD"@);
        },
        Markets::ENJ => {
            reveal_strlit("ENJ-USD");
            reveal_strlit("ENJ");
            assert(m.spec_name() =~= ticker(m) + "-USD"@);
        },
        Markets::AAVE => {
            reveal_strlit("AAVE-USD");
            reveal_strlit("AAVE");
            assert(m.spec_name() =~= ticker(m) + "-USD"@);
        },
        Markets::COMP => {
            reveal_strlit("COMP-USD");
            reveal_strlit("COMP");
            assert(m.spec_name() =~= ticker(m) + "-USD"@);
        },
        Markets::ALGO => {
            reveal_strlit("ALGO-USD");
            reveal_strlit("ALGO");
            assert(m.spec_name() =~= ticker(m) + "-USD"@);
        },
        Markets::ZRX => {
            reveal_strlit("ZRX-USD");
            reveal_strlit("ZRX");
            assert(m.spec_name() =~= ticker(m) + "-USD"@);
        },
        Markets::EOS => {
            reveal_strlit("EOS-USD");
            reveal_strlit("EOS");
            assert(m.spec_name() =~= ticker(m) + "-USD"@);
        },
        Markets::ICP => {
            reveal_strlit("ICP-USD");
            reveal_strlit("ICP");
            assert(m.spec_name() =~= ticker(m) + "-USD"@);
        },
        Markets::TRX => {
            reveal_strlit("TRX-USD");
            reveal_strlit("TRX");
            assert(m.spec_name() =~= ticker(m) + "-USD"@);
        },
        Markets::XTZ => {
            reveal_strlit("XTZ-USD");
            reveal_strlit("XTZ");
            assert(m.spec_name() =~= ticker(m) + "-USD"@);
        },
        Markets::INCH => {
            reveal_strlit("1INCH-USD");
            reveal_strlit("1INCH");
            assert(m.spec_name() =~= ticker(m) + "-USD"@);
        },
        Markets::SUSHI => {
            reveal_strlit("SUSHI-USD");
            reveal_strlit("SUSHI");
            assert(m.spec_name() =~= ticker(m) + "-USD"@);
        },
        Markets::CELO => {
            reveal_strlit("CELO-USD");
            reveal_strlit("CELO");
            assert(m.spec_name() =~= ticker(m) + "-USD"@);
        },
        Markets::UNI => {
            reveal_strlit("UNI-USD");
            reveal_strlit("UNI");
            assert(m.spec_name() =~= ticker(m) + "-USD"@);
        },
        Markets::ETC => {
            reveal_strlit("ETC-USD");
            reveal_strlit("ETC");
            assert(m.spec_name() =~= ticker(m) + "-USD"@);
        },
        Markets::BCH => {
            reveal_strlit("BCH-USD");
            reveal_strlit("BCH");
            assert(m.spec_name() =~= ticker(m) + "-USD"@);
        },
        Markets::LTC => {
            reveal_strlit("LTC-USD");
            reveal_strlit("LTC");
            assert(m.spec_name() =~= ticker(m) + "-USD"@);
        },
        Markets::XMR => {
            reveal_strlit("XMR-USD");
            reveal_strlit("XMR");
            assert(m.spec_name() =~= ticker(m) + "-USD"@);
        },
        Markets::MKR => {
            reveal_strlit("MKR-USD");
            reveal_strlit("MKR");
            assert(m.spec_name() =~= ticker(m) + "-USD"@);
        },
        Markets::UMA => {
            reveal_strlit("UMA-USD");
            reveal_strlit("UMA");
            assert(m.spec_name() =~= ticker(m) + "-USD"@);
        },
        Markets::YFI => {
            reveal_strlit("YFI-USD");
            reveal_strlit("YFI");
            assert(m.spec_name() =~= ticker(m) + "-USD"@);
        },
        Markets::RUNE => {
            reveal_strlit("RUNE-USD");
            reveal_strlit("RUNE");
            assert(m.spec_name() =~= ticker(m) + "-USD"@);
        },
        Markets::ADA => {
            reveal_strlit("ADA-USD");
            reveal_strlit("ADA");
            assert(m.spec_name() =~= ticker(m) + "-USD"@);
        },
        Markets::ZEC => {
            reveal_strlit("ZEC-USD");
            reveal_strlit("ZEC");
            assert(m.spec_name() =~= ticker(m) + "-USD"@);
        },
        Markets::XLM => {
            reveal_strlit("XLM-USD");
            reveal_strlit("XLM");
            assert(m.spec_name() =~= ticker(m) + "-USD"@);
        },
    }
}

/// The market that a name starting with a market's ticker names: the first three
/// characters of the tickers are all different.
pub open spec fn market_of_name(s: Seq<char>) -> Option<Markets> {
    if s.len() < 3 {
        None
    } else if s[0] == 'B' && s[1] == 'T' && s[2] == 'C' {
        Some(Markets::BTC)
    } else if s[0] == 'E' && s[1] == 'T' && s[2] == 'H' {
        Some(Markets::ETH)
    } else if s[0] == 'S' && s[1] == 'O' && s[2] == 'L' {
        Some(Markets::SOL)
    } else if s[0] == 'F' && s[1] == 'I' && s[2] == 'L' {
        Some(Markets::FIL)
    } else if s[0] == 'A' && s[1] == 'V' && s[2] == 'A' {
        Some(Markets::AVAX)
    } else if s[0] == 'M' && s[1] == 'A' && s[2] == 'T' {
        Some(Markets::MATIC)
    } else if s[0] == 'N' && s[1] == 'E' && s[2] == 'A' {
        Some(Markets::NEAR)
    } else if s[0] == 'C' && s[1] == 'R' && s[2] == 'V' {
        Some(Markets::CRV)
    } else if s[0] == 'L' && s[1] == 'I' && s[2] == 'N' {
        Some(Markets::LINK)
    } else if s[0] == 'S' && s[1] == 'N' && s[2] == 'X' {
        Some(Markets::SNX)
    } else if s[0] == 'D' && s[1] == 'O' && s[2] == 'T' {
        Some(Markets::DOT)
    } else if s[0] == 'D' && s[1] == 'O' && s[2] == 'G' {
        Some(Markets::DOGE)
    } else if s[0] == 'A' && s[1] == 'T' && s[2] == 'O' {
        Some(Markets::ATOM)
    } else if s[0] == 'E' && s[1] == 'N' && s[2] == 'J' {
        Some(Markets::ENJ)
    } else if s[0] == 'A' && s[1] == 'A' && s[2] == 'V' {
        Some(Markets::AAVE)
    } else if s[0] == 'C' && s[1] == 'O' && s[2] == 'M' {
        Some(Markets::COMP)
    } else if s[0] == 'A' && s[1] == 'L' && s[2] == 'G' {
        Some(Markets::ALGO)
    } else if s[0] == 'Z' && s[1] == 'R' && s[2] == 'X' {
        Some(Markets::ZRX)
    } else if s[0] == 'E' && s[1] == 'O' && s[2] == 'S' {
        Some(Markets::EOS)
    } else if s[0] == 'I' && s[1] == 'C' && s[2] == 'P' {
        Some(Markets::ICP)
    } else if s[0] == 'T' && s[1] == 'R' && s[2] == 'X' {
        Some(Markets::TRX)
    } else if s[0] == 'X' && s[1] == 'T' && s[2] == 'Z' {
        Some(Markets::XTZ)
    } else if s[0] == '1' && s[1] == 'I' && s[2] == 'N' {
        Some(Markets::INCH)
    } else if s[0] == 'S' && s[1] == 'U' && s[2] == 'S' {
        Some(Markets::SUSHI)
    } else if s[0] == 'C' && s[1] == 'E' && s[2] == 'L' {
        Some(Markets::CELO)
    } else if s[0] == 'U' && s[1] == 'N' && s[2] == 'I' {
        Some(Markets::UNI)
    } else if s[0] == 'E' && s[1] == 'T' && s[2] == 'C' {
        Some(Markets::ETC)
    } else if s[0] == 'B' && s[1] == 'C' && s[2] == 'H' {
        Some(Markets::BCH)
    } else if s[0] == 'L' && s[1] == 'T' && s[2] == 'C' {
        Some(Markets::LTC)
    } else if s[0] == 'X' && s[1] == 'M' && s[2] == 'R' {
        Some(Markets::XMR)
    } else if s[0] == 'M' && s[1] == 'K' && s[2] == 'R' {
        Some(Markets::MKR)
    } else if s[0] == 'U' && s[1] == 'M' && s[2] == 'A' {
        Some(Markets::UMA)
    } else if s[0] == 'Y' && s[1] == 'F' && s[2] == 'I' {
        Some(Markets::YFI)
    } else if s[0] == 'R' && s[1] == 'U' && s[2] == 'N' {
        Some(Markets::RUNE)
    } else if s[0] == 'A' && s[1] == 'D' && s[2] == 'A' {
        Some(Markets::ADA)
    } else if s[0] == 'Z' && s[1] == 'E' && s[2] == 'C' {
        Some(Markets::ZEC)
    } else if s[0] == 'X' && s[1] == 'L' && s[2] == 'M' {
        Some(Markets::XLM)
    } else {
        None
    }
}

/// Every market's name tells the market back.
pub proof fn lemma_name_names_market(m: Markets)
    ensures
        market_of_name(m.spec_name()) == Some(m),
{
    lemma_name_is_ticker(m);
    match m {
        Markets::BTC => reveal_strlit("BTC"),
        Markets::ETH => reveal_strlit("ETH"),
        Markets::SOL => reveal_strlit("SOL"),
        Markets::FIL => reveal_strlit("FIL"),
        Markets::AVAX => reveal_strlit("AVAX"),
        Markets::MATIC => reveal_strlit("MATIC"),
        Markets::NEAR => reveal_strlit("NEAR"),
        Markets::CRV => reveal_strlit("CRV"),
        Markets::LINK => reveal_strlit("LINK"),
        Markets::SNX => reveal_strlit("SNX"),
        Markets::DOT => reveal_strlit("DOT"),
        Markets::DOGE => reveal_strlit("DOGE"),
        Markets::ATOM => reveal_strlit("ATOM"),
        Markets::ENJ => reveal_strlit("ENJ"),
        Markets::AAVE => reveal_strlit("AAVE"),
        Markets::COMP => reveal_strlit("COMP"),
        Markets::ALGO => reveal_strlit("ALGO"),
        Markets::ZRX => reveal_strlit("ZRX"),
        Markets::EOS => reveal_strlit("EOS"),
        Markets::ICP => reveal_strlit("ICP"),
        Markets::TRX => reveal_strlit("TRX"),
        Markets::XTZ => reveal_strlit("XTZ"),
        Markets::INCH => reveal_strlit("1INCH"),
        Markets::SUSHI => reveal_strlit("SUSHI"),
        Markets::CELO => reveal_strlit("CELO"),
        Markets::UNI => reveal_strlit("UNI"),
        Markets::ETC => reveal_strlit("ETC"),
        Markets::BCH => reveal_strlit("BCH"),
        Markets::LTC => reveal_strlit("LTC"),
        Markets::XMR => reveal_strlit("XMR"),
        Markets::MKR => reveal_strlit("MKR"),
        Markets::UMA => reveal_strlit("UMA"),
        Markets::YFI => reveal_strlit("YFI"),
        Markets::RUNE => reveal_strlit("RUNE"),
        Markets::ADA => reveal_strlit("ADA"),
        Markets::ZEC => reveal_strlit("ZEC"),
        Markets::XLM => reveal_strlit("XLM"),
    }
}

/// Different markets have different names, so that no market's feed or orders go
/// to another.
pub proof fn lemma_names_distinct(m1: Markets, m2: Markets)
    requires
        m1 != m2,
    ensures
        m1.spec_name() != m2.spec_name(),
{
    lemma_name_names_market(m1);
    lemma_name_names_market(m2);
}

} // verus!
