use vstd::prelude::*;

pub mod account;
pub mod amounts;
pub mod constants;
pub mod crypto;
pub mod feed;
pub mod ec_math;
pub mod market_helpers;
pub mod market_tables;
pub mod requests;
pub mod signing;

verus! {

/// Optional parameters that accompany an order.
pub struct TradeData {
    pub trailing_percent: Option<String>,
    pub trigger_price: Option<String>,
    pub reduce_only: Option<bool>,
}

/// A human readable order: price and size as decimal strings, and a side.
pub struct Position {
    open_price: String,
    size: String,
    side: Side,
}

#[derive(Debug, PartialEq, Eq, Structural, Clone, Copy)]
#[allow(non_camel_case_types)]
pub enum OrderType {
    MARKET,
    LIMIT,
    STOP_LIMIT,
    TRAILING_STOP,
    TAKE_PROFIT,
}

/// Credentials of an account; the position id is known once the account is onboarded.
pub struct InternalAccount {
    api_key: String,
    api_passphrase: String,
    api_secret: String,
    stark_private_key: String,
    ethereum_address: String,
    position_id: Option<u64>,
}

#[derive(Debug, PartialEq, Eq, Structural, Clone, Copy)]
pub enum Side {
    BUY,
    SELL,
}

#[derive(Debug, PartialEq, Eq, Structural, Clone, Copy)]
pub enum Exposure {
    Low,
    Medium,
    High,
}

#[derive(Debug, PartialEq, Eq, Structural, Clone, Copy)]
pub enum Markets {
    BTC,
    ETH,
    SOL,
    FIL,
    AVAX,
    MATIC,
    NEAR,
    CRV,
    LINK,
    SNX,
    DOT,
    DOGE,
    ATOM,
    ENJ,
    AAVE,
    COMP,
    ALGO,
    ADA,
    ZEC,
    ZRX,
    EOS,
    ICP,
    TRX,
    XTZ,
    INCH,
    SUSHI,
    CELO,
    UNI,
    ETC,
    BCH,
    LTC,
    XMR,
    MKR,
    UMA,
    YFI,
    RUNE,
    XLM,
}

impl InternalAccount {
    pub closed spec fn spec_api_key(&self) -> Seq<char> {
        self.api_key@
    }

    pub closed spec fn spec_api_passphrase(&self) -> Seq<char> {
        self.api_passphrase@
    }

    pub closed spec fn spec_api_secret(&self) -> Seq<char> {
        self.api_secret@
    }

    pub closed spec fn spec_stark_private_key(&self) -> Seq<char> {
        self.stark_private_key@
    }

    pub closed spec fn spec_ethereum_address(&self) -> Seq<char> {
        self.ethereum_address@
    }

    pub closed spec fn spec_position_id(&self) -> Option<u64> {
        self.position_id
    }

    /// An account that has not been onboarded yet: it has no position id.
    pub fn new_uninitialized(
        api_key: String,
        api_passphrase: String,
        api_secret: String,
        stark_private_key: String,
        ethereum_address: String,
    ) -> (acc: Self)
        ensures
            acc.spec_api_key() == api_key@,
            acc.spec_api_passphrase() == api_passphrase@,
            acc.spec_api_secret() == api_secret@,
            acc.spec_stark_private_key() == stark_private_key@,
            acc.spec_ethereum_address() == ethereum_address@,
            acc.spec_position_id() == None::<u64>,
    {
        InternalAccount {
            api_key,
            api_passphrase,
            api_secret,
            stark_private_key,
            ethereum_address,
            position_id: None,
        }
    }

    /// Records the position id that onboarding found; the credentials are kept.
    pub fn set_position_id(&mut self, position_id: u64)
        ensures
            final(self).spec_position_id() == Some(position_id),
            final(self).spec_api_key() == old(self).spec_api_key(),
            final(self).spec_api_passphrase() == old(self).spec_api_passphrase(),
            final(self).spec_api_secret() == old(self).spec_api_secret(),
            final(self).spec_stark_private_key() == old(self).spec_stark_private_key(),
            final(self).spec_ethereum_address() == old(self).spec_ethereum_address(),
    {
        self.position_id = Some(position_id);
    }

    /// The API key.
    pub fn api_key(&self) -> (res: String)
        ensures
            res@ == self.spec_api_key(),
    {
        self.api_key.clone()
    }

    /// The API passphrase.
    pub fn api_passphrase(&self) -> (res: String)
        ensures
            res@ == self.spec_api_passphrase(),
    {
        self.api_passphrase.clone()
    }

    /// The API secret, in URL-safe base64.
    pub fn api_secret(&self) -> (res: String)
        ensures
            res@ == self.spec_api_secret(),
    {
        self.api_secret.clone()
    }

    pub(crate) fn stark_private_key_text(&self) -> (res: String)
        ensures
            res@ == self.spec_stark_private_key(),
    {
        self.stark_private_key.clone()
    }

    /// The Ethereum address of the account.
    pub fn ethereum_address(&self) -> (res: String)
        ensures
            res@ == self.spec_ethereum_address(),
    {
        self.ethereum_address.clone()
    }

    /// The position id, or 0 while the account is not onboarded.
    pub fn position_id(&self) -> (res: u64)
        ensures
            res == match self.spec_position_id() {
                Some(id) => id,
                None => 0u64,
            },
    {
        match self.position_id {
            Some(id) => id,
            None => 0u64,
        }
    }
}

impl Position {
    pub closed spec fn spec_open_price(&self) -> Seq<char> {
        self.open_price@
    }

    pub closed spec fn spec_size(&self) -> Seq<char> {
        self.size@
    }

    pub closed spec fn spec_side(&self) -> Side {
        self.side
    }

    /// An order at `open_price` for `size` on `side`.
    pub fn new(open_price: String, size: String, side: Side) -> (p: Self)
        ensures
            p.spec_open_price() == open_price@,
            p.spec_size() == size@,
            p.spec_side() == side,
    {
        Position { open_price, size, side }
    }

    /// The price, as written.
    pub fn price(&self) -> (res: String)
        ensures
            res@ == self.spec_open_price(),
    {
        self.open_price.clone()
    }

    /// The size, as written.
    pub fn size(&self) -> (res: String)
        ensures
            res@ == self.spec_size(),
    {
        self.size.clone()
    }

    /// The side.
    pub fn side(&self) -> (res: Side)
        ensures
            res == self.spec_side(),
    {
        self.side
    }
}

impl TradeData {
    /// The optional parameters of an order.
    pub fn new(
        trailing_percent: Option<String>,
        trigger_price: Option<String>,
        reduce_only: Option<bool>,
    ) -> (t: Self)
        ensures
            t.trailing_percent == trailing_percent,
            t.trigger_price == trigger_price,
            t.reduce_only == reduce_only,
    {
        TradeData { trailing_percent, trigger_price, reduce_only }
    }
}

} // verus!
