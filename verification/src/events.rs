//! Exchange events.

use vstd::prelude::*;

use crate::keys::{Pubkey, Signature};

verus! {

/// Where an event was found.
#[derive(Clone, Copy, Debug, Default)]
pub struct EventMetadata {
    pub signature: Signature,
    pub slot: u64,
    pub tx_index: u64,
}

/// A trade on the PumpFun exchange.
#[derive(Clone, Copy, Debug, Default)]
pub struct PumpFunTradeEvent {
    pub metadata: EventMetadata,
    pub mint: Pubkey,
    pub user: Pubkey,
    pub associated_user: Pubkey,
    pub transaction_fee_payer: Pubkey,
    pub token_amount: u64,
    pub is_buy: bool,
}

/// An event of an exchange. What is not a PumpFun trade is held as `Other`.
#[derive(Clone, Debug)]
pub enum DexEvent<E = ()> {
    PumpFunTrade(PumpFunTradeEvent),
    PumpFunBuy(PumpFunTradeEvent),
    PumpFunSell(PumpFunTradeEvent),
    PumpFunBuyExactSolIn(PumpFunTradeEvent),
    Other(E),
}

/// The trade that an event reports, if it is a PumpFun trade.
pub open spec fn trade_of<E>(event: DexEvent<E>) -> Option<PumpFunTradeEvent> {
    match event {
        DexEvent::PumpFunTrade(trade) => Some(trade),
        DexEvent::PumpFunBuy(trade) => Some(trade),
        DexEvent::PumpFunSell(trade) => Some(trade),
        DexEvent::PumpFunBuyExactSolIn(trade) => Some(trade),
        DexEvent::Other(_) => None,
    }
}

/// The same kind of event about another trade.
pub open spec fn with_trade<E>(event: DexEvent<E>, trade: PumpFunTradeEvent) -> DexEvent<E> {
    match event {
        DexEvent::PumpFunTrade(_) => DexEvent::PumpFunTrade(trade),
        DexEvent::PumpFunBuy(_) => DexEvent::PumpFunBuy(trade),
        DexEvent::PumpFunSell(_) => DexEvent::PumpFunSell(trade),
        DexEvent::PumpFunBuyExactSolIn(_) => DexEvent::PumpFunBuyExactSolIn(trade),
        DexEvent::Other(_) => event,
    }
}

/// All four kinds of PumpFun event report a trade, and nothing else does. An
/// event about another trade stays of its kind.
pub proof fn law_trade_events<E>(trade: PumpFunTradeEvent, changed: PumpFunTradeEvent, other: E)
    ensures
        trade_of(DexEvent::<E>::PumpFunTrade(trade)) == Some(trade),
        trade_of(DexEvent::<E>::PumpFunBuy(trade)) == Some(trade),
        trade_of(DexEvent::<E>::PumpFunSell(trade)) == Some(trade),
        trade_of(DexEvent::<E>::PumpFunBuyExactSolIn(trade)) == Some(trade),
        trade_of(DexEvent::Other(other)) is None,
        with_trade(DexEvent::<E>::PumpFunTrade(trade), changed) == DexEvent::<E>::PumpFunTrade(
            changed,
        ),
        with_trade(DexEvent::<E>::PumpFunBuy(trade), changed) == DexEvent::<E>::PumpFunBuy(changed),
        with_trade(DexEvent::<E>::PumpFunSell(trade), changed) == DexEvent::<E>::PumpFunSell(
            changed,
        ),
        with_trade(DexEvent::<E>::PumpFunBuyExactSolIn(trade), changed)
            == DexEvent::<E>::PumpFunBuyExactSolIn(changed),
        with_trade(DexEvent::Other(other), changed) == DexEvent::Other(other),
{
}

impl<E> DexEvent<E> {
    /// The trade that an event reports, if it is a PumpFun trade.
    pub fn trade(&self) -> (r: Option<&PumpFunTradeEvent>)
        ensures
            match r {
                Some(trade) => trade_of(*self) == Some(*trade),
                None => trade_of(*self) is None,
            },
    {
        match self {
            DexEvent::PumpFunTrade(trade)
            | DexEvent::PumpFunBuy(trade)
            | DexEvent::PumpFunSell(trade)
            | DexEvent::PumpFunBuyExactSolIn(trade) => Some(trade),
            DexEvent::Other(_) => None,
        }
    }

    /// The trade that an event reports, to be changed in place.
    pub fn trade_mut(&mut self) -> (r: Option<&mut PumpFunTradeEvent>)
        ensures
            match r {
                Some(trade) => trade_of(*old(self)) == Some(*trade) && *final(self) == with_trade(
                    *old(self),
                    *final(trade),
                ),
                None => trade_of(*old(self)) is None && *final(self) == *old(self),
            },
    {
        match self {
            DexEvent::PumpFunTrade(trade) => Some(trade),
            DexEvent::PumpFunBuy(trade) => Some(trade),
            DexEvent::PumpFunSell(trade) => Some(trade),
            DexEvent::PumpFunBuyExactSolIn(trade) => Some(trade),
            DexEvent::Other(_) => None,
        }
    }
}

}
