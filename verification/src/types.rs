//! The values that interpreters, the pipeline and the query surface exchange.

use vstd::prelude::*;

verus! {

/// A native asset, identified by its policy and its name, both in hexadecimal. The pair of
/// two empty texts stands for ADA.
#[derive(Debug)]
pub struct Asset {
    pub policy_id: String,
    pub name: String,
}

/// What an `Asset` is: its two texts.
pub struct AssetView {
    pub policy_id: Seq<char>,
    pub name: Seq<char>,
}

impl View for Asset {
    type V = AssetView;

    open spec fn view(&self) -> AssetView {
        AssetView { policy_id: self.policy_id@, name: self.name@ }
    }
}

impl Clone for Asset {
    fn clone(&self) -> (copy: Self)
        ensures
            copy == *self,
    {
        Asset { policy_id: self.policy_id.clone(), name: self.name.clone() }
    }
}

impl AssetView {
    /// Whether this is ADA: the asset without policy and name.
    pub open spec fn is_ada(self) -> bool {
        self.policy_id.len() == 0 && self.name.len() == 0
    }
}

/// A quantity of one asset.
#[derive(Debug)]
pub struct AssetAmount {
    pub asset: Asset,
    pub amount: u64,
}

/// What an `AssetAmount` is.
pub struct AssetAmountView {
    pub asset: AssetView,
    pub amount: u64,
}

impl View for AssetAmount {
    type V = AssetAmountView;

    open spec fn view(&self) -> AssetAmountView {
        AssetAmountView { asset: self.asset@, amount: self.amount }
    }
}

impl Clone for AssetAmount {
    fn clone(&self) -> (copy: Self)
        ensures
            copy == *self,
    {
        AssetAmount { asset: self.asset.clone(), amount: self.amount }
    }
}

/// One executed order against a pool. `direction` is `true` for a buy and `false` for a sell.
#[derive(Debug)]
pub struct Swap {
    pub first: AssetAmount,
    pub second: AssetAmount,
    pub direction: bool,
}

/// What a `Swap` is.
pub struct SwapView {
    pub first: AssetAmountView,
    pub second: AssetAmountView,
    pub direction: bool,
}

impl View for Swap {
    type V = SwapView;

    open spec fn view(&self) -> SwapView {
        SwapView { first: self.first@, second: self.second@, direction: self.direction }
    }
}

impl DeepView for Swap {
    type V = SwapView;

    open spec fn deep_view(&self) -> SwapView {
        self@
    }
}

/// The latest price of a pair in one pool. The rate is the quotient of the two amounts, which
/// this type holds as they are: the division is left to whoever presents the rate.
#[derive(Debug)]
pub struct ExchangeRate {
    pub script_hash: String,
    pub asset1: i64,
    pub asset2: i64,
    pub amount1: u64,
    pub amount2: u64,
}

/// What an `ExchangeRate` is.
pub struct ExchangeRateView {
    pub script_hash: Seq<char>,
    pub asset1: i64,
    pub asset2: i64,
    pub amount1: u64,
    pub amount2: u64,
}

impl View for ExchangeRate {
    type V = ExchangeRateView;

    open spec fn view(&self) -> ExchangeRateView {
        ExchangeRateView {
            script_hash: self.script_hash@,
            asset1: self.asset1,
            asset2: self.asset2,
            amount1: self.amount1,
            amount2: self.amount2,
        }
    }
}

impl Clone for ExchangeRate {
    fn clone(&self) -> (copy: Self)
        ensures
            copy == *self,
    {
        ExchangeRate {
            script_hash: self.script_hash.clone(),
            asset1: self.asset1,
            asset2: self.asset2,
            amount1: self.amount1,
            amount2: self.amount2,
        }
    }
}

impl DeepView for ExchangeRate {
    type V = ExchangeRateView;

    open spec fn deep_view(&self) -> ExchangeRateView {
        self@
    }
}

/// One past price of a pair. As in `ExchangeRate`, the rate is the quotient of the amounts.
#[derive(Debug, Clone, Copy, PartialEq, Eq, Structural)]
pub struct ExchangeHistory {
    pub amount1: i64,
    pub amount2: i64,
    pub tx_id: i64,
}

/// One past swap of a pair; `direction` is `"Buy"` or `"Sell"`.
#[derive(Debug)]
pub struct SwapHistory {
    pub amount1: i64,
    pub amount2: i64,
    pub tx_id: i64,
    pub direction: String,
}

/// What a `SwapHistory` is.
pub struct SwapHistoryView {
    pub amount1: i64,
    pub amount2: i64,
    pub tx_id: i64,
    pub direction: Seq<char>,
}

impl View for SwapHistory {
    type V = SwapHistoryView;

    open spec fn view(&self) -> SwapHistoryView {
        SwapHistoryView {
            amount1: self.amount1,
            amount2: self.amount2,
            tx_id: self.tx_id,
            direction: self.direction@,
        }
    }
}

impl DeepView for SwapHistory {
    type V = SwapHistoryView;

    open spec fn deep_view(&self) -> SwapHistoryView {
        self@
    }
}

/// A swap as it is stored and announced: the two token ids, the two amounts, and the
/// direction as `"Buy"` or `"Sell"`.
#[derive(Debug)]
pub struct SwapInfo {
    pub asset1: i64,
    pub amount1: i64,
    pub asset2: i64,
    pub amount2: i64,
    pub direction: String,
}

/// What a `SwapInfo` is.
pub struct SwapInfoView {
    pub asset1: i64,
    pub amount1: i64,
    pub asset2: i64,
    pub amount2: i64,
    pub direction: Seq<char>,
}

impl View for SwapInfo {
    type V = SwapInfoView;

    open spec fn view(&self) -> SwapInfoView {
        SwapInfoView {
            asset1: self.asset1,
            amount1: self.amount1,
            asset2: self.asset2,
            amount2: self.amount2,
            direction: self.direction@,
        }
    }
}

impl Clone for SwapInfo {
    fn clone(&self) -> (copy: Self)
        ensures
            copy == *self,
    {
        SwapInfo {
            asset1: self.asset1,
            amount1: self.amount1,
            asset2: self.asset2,
            amount2: self.amount2,
            direction: self.direction.clone(),
        }
    }
}

/// A live update for the subscribers.
#[derive(Debug)]
pub enum BroadcastMessage {
    MeanValue(ExchangeRate),
    Swap(SwapInfo),
}

/// What a `BroadcastMessage` is.
pub enum BroadcastMessageView {
    MeanValue(ExchangeRateView),
    Swap(SwapInfoView),
}

impl View for BroadcastMessage {
    type V = BroadcastMessageView;

    open spec fn view(&self) -> BroadcastMessageView {
        match self {
            BroadcastMessage::MeanValue(rate) => BroadcastMessageView::MeanValue(rate@),
            BroadcastMessage::Swap(info) => BroadcastMessageView::Swap(info@),
        }
    }
}

impl Clone for BroadcastMessage {
    fn clone(&self) -> (copy: Self)
        ensures
            copy == *self,
    {
        match self {
            BroadcastMessage::MeanValue(rate) => BroadcastMessage::MeanValue(rate.clone()),
            BroadcastMessage::Swap(info) => BroadcastMessage::Swap(info.clone()),
        }
    }
}

impl DeepView for BroadcastMessage {
    type V = BroadcastMessageView;

    open spec fn deep_view(&self) -> BroadcastMessageView {
        self@
    }
}

/// The text of a direction: `"Buy"` for `true`, `"Sell"` for `false`.
pub open spec fn direction_text(direction: bool) -> Seq<char> {
    if direction {
        seq!['B', 'u', 'y']
    } else {
        seq!['S', 'e', 'l', 'l']
    }
}

/// The text under which a direction is stored in histories and announced.
pub fn direction_name(direction: bool) -> (name: String)
    ensures
        name@ == direction_text(direction),
{
    if direction {
        proof {
            reveal_strlit("Buy");
        }
        assert("Buy"@ =~= direction_text(true));
        "Buy".to_string()
    } else {
        proof {
            reveal_strlit("Sell");
        }
        assert("Sell"@ =~= direction_text(false));
        "Sell".to_string()
    }
}

/// The two texts of directions differ, so a history tells a buy from a sell.
pub proof fn lemma_direction_text_tells(a: bool, b: bool)
    ensures
        direction_text(a) == direction_text(b) <==> a == b,
{
    assert(direction_text(true).len() == 3);
    assert(direction_text(false).len() == 4);
}

} // verus!
