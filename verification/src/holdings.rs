//! Token balances with their keys and amounts read from text.

use vstd::prelude::*;

use crate::keys::key_in_text;
use crate::keys::{Pubkey, parse_pubkey};
use crate::transaction::raw_amount;
use crate::transaction::{TokenBalance, token_balance_raw_amount};

verus! {

/// What one token account held. A mint or an owner that is not a key is
/// missing.
#[derive(Clone, Copy, Debug, Default)]
pub struct TokenHolding {
    pub account_index: u32,
    pub mint: Option<Pubkey>,
    pub owner: Option<Pubkey>,
    pub amount: u64,
}

/// A token balance with its keys and its amount read.
pub open spec fn holding_of(balance: TokenBalance) -> TokenHolding {
    TokenHolding {
        account_index: balance.account_index,
        mint: key_in_text(balance.mint@),
        owner: key_in_text(balance.owner@),
        amount: raw_amount(balance),
    }
}

/// A list of token balances with their keys and their amounts read.
pub open spec fn holdings_of(balances: Seq<TokenBalance>) -> Seq<TokenHolding> {
    balances.map_values(|balance: TokenBalance| holding_of(balance))
}

/// A list of balances reads as one holding for each, at the same place, with
/// its account, the keys that its mint and owner name, and its amount.
pub proof fn law_holdings(balances: Seq<TokenBalance>)
    ensures
        holdings_of(balances).len() == balances.len(),
        forall|i: int|
            0 <= i < balances.len() ==> {
                let holding = #[trigger] holdings_of(balances)[i];
                &&& holding.account_index == balances[i].account_index
                &&& holding.mint == key_in_text(balances[i].mint@)
                &&& holding.owner == key_in_text(balances[i].owner@)
                &&& holding.amount == raw_amount(balances[i])
            },
{
}

/// Reads the keys and the amounts of a list of token balances.
pub fn read_holdings(balances: &[TokenBalance]) -> (r: Vec<TokenHolding>)
    ensures
        r@ == holdings_of(balances@),
{
    let mut out: Vec<TokenHolding> = Vec::new();
    let mut i: usize = 0;
    while i < balances.len()
        invariant
            i <= balances@.len(),
            out@ =~= holdings_of(balances@.take(i as int)),
        decreases balances@.len() - i,
    {
        let balance = &balances[i];
        out.push(
            TokenHolding {
                account_index: balance.account_index,
                mint: parse_pubkey(balance.mint.as_str()),
                owner: parse_pubkey(balance.owner.as_str()),
                amount: token_balance_raw_amount(balance),
            },
        );
        i = i + 1;
    }
    assert(balances@.take(i as int) =~= balances@);
    out
}

/// What an owner holds of a token in a list of holdings.
pub open spec fn held(holdings: Seq<TokenHolding>, owner: Pubkey, mint: Pubkey) -> nat
    decreases holdings.len(),
{
    if holdings.len() == 0 {
        0
    } else {
        let rest = held(holdings.drop_last(), owner, mint);
        let last = holdings.last();
        if last.owner == Some(owner) && last.mint == Some(mint) {
            rest + last.amount as nat
        } else {
            rest
        }
    }
}

/// What an owner holds of a token adds up holding by holding. One more raises
/// it by its amount where owner and mint agree, whatever account it is of.
pub proof fn law_held_of_one_more(
    holdings: Seq<TokenHolding>,
    holding: TokenHolding,
    owner: Pubkey,
    mint: Pubkey,
)
    ensures
        held(Seq::empty(), owner, mint) == 0,
        held(holdings.push(holding), owner, mint) == held(holdings, owner, mint) + (
        if holding.owner == Some(owner) && holding.mint == Some(mint) {
            holding.amount as int
        } else {
            0int
        }),
{
    assert(holdings.push(holding).drop_last() =~= holdings);
}

/// What an owner holds of a token in two lists together is what it holds in
/// the one and in the other.
pub proof fn law_held_of_joined(
    a: Seq<TokenHolding>,
    b: Seq<TokenHolding>,
    owner: Pubkey,
    mint: Pubkey,
)
    ensures
        held(a + b, owner, mint) == held(a, owner, mint) + held(b, owner, mint),
    decreases b.len(),
{
    if b.len() == 0 {
        assert(a + b =~= a);
    } else {
        law_held_of_joined(a, b.drop_last(), owner, mint);
        assert((a + b).drop_last() =~= a + b.drop_last());
    }
}

/// What an owner holds of a token in a list of holdings.
pub fn sum_held(holdings: &[TokenHolding], owner: &Pubkey, mint: &Pubkey) -> (r: u128)
    ensures
        r == held(holdings@, *owner, *mint),
{
    let mut total: u128 = 0;
    let mut i: usize = 0;
    while i < holdings.len()
        invariant
            i <= holdings@.len(),
            total == held(holdings@.take(i as int), *owner, *mint),
            total <= i * 0xffff_ffff_ffff_ffff,
        decreases holdings@.len() - i,
    {
        assert(holdings@.take(i + 1).drop_last() =~= holdings@.take(i as int));
        if let (Some(o), Some(m)) = (holdings[i].owner, holdings[i].mint) {
            if o == *owner && m == *mint {
                total = total + holdings[i].amount as u128;
            }
        }
        i = i + 1;
    }
    assert(holdings@.take(i as int) =~= holdings@);
    total
}

}
