//! Who stands behind a trade.

use vstd::prelude::*;

use crate::accounts::{account_pubkeys, fee_payer_of, law_static_keys, static_keys};
use crate::accounts::{collect_account_keys_pubkeys, read_keys, yellowstone_fee_payer};
use crate::events::{DexEvent, PumpFunTradeEvent};
use crate::events::{trade_of, with_trade};
use crate::holdings::{TokenHolding, read_holdings, sum_held};
use crate::holdings::{held, holdings_of};
use crate::keys::Pubkey;
use crate::keys::default_key;
use crate::keys::{law_default_key_is_zero, law_key_is_its_bytes};
use crate::transaction::{Message, Transaction, TransactionStatusMeta};

verus! {

/// An event with the account that paid for its transaction.
pub open spec fn with_fee_payer<E>(event: DexEvent<E>, payer: Pubkey) -> DexEvent<E> {
    match trade_of(event) {
        Some(trade) => with_trade(
            event,
            PumpFunTradeEvent { transaction_fee_payer: payer, ..trade },
        ),
        None => event,
    }
}

/// A list of events with the account that paid for their transaction, where
/// that is known.
pub open spec fn with_fee_payers<E>(events: Seq<DexEvent<E>>, payer: Pubkey) -> Seq<DexEvent<E>> {
    if payer == default_key() {
        events
    } else {
        events.map_values(|event: DexEvent<E>| with_fee_payer(event, payer))
    }
}

/// Sets the payer of the transaction in each PumpFun trade, unless it is not
/// known.
pub fn fill_pumpfun_transaction_fee_payer<E>(
    events: &mut [DexEvent<E>],
    tx: &Option<Transaction>,
)
    ensures
        final(events)@ == with_fee_payers(old(events)@, fee_payer_of(*tx)),
{
    let fee_payer = yellowstone_fee_payer(tx);
    if fee_payer == Pubkey::default() {
        return;
    }
    let ghost before = events@;
    let n: usize = events.len();
    let mut i: usize = 0;
    while i < n
        invariant
            i <= n,
            n == before.len(),
            events@.len() == n,
            forall|k: int| 0 <= k < i ==> events@[k] == with_fee_payer(before[k], fee_payer),
            forall|k: int| i <= k < n ==> events@[k] == before[k],
        decreases n - i,
    {
        if let Some(trade) = events[i].trade_mut() {
            trade.transaction_fee_payer = fee_payer;
        }
        i = i + 1;
    }
    assert(events@ =~= with_fee_payers(before, fee_payer));
}

/// An event with another user.
pub open spec fn with_user<E>(event: DexEvent<E>, user: Pubkey) -> DexEvent<E> {
    match trade_of(event) {
        Some(trade) => with_trade(event, PumpFunTradeEvent { user, ..trade }),
        None => event,
    }
}

/// Whether a holding says who owns the given token account.
pub open spec fn names_owner(
    keys: Seq<Pubkey>,
    holding: TokenHolding,
    account: Pubkey,
    mint: Pubkey,
) -> bool {
    &&& holding.account_index < keys.len()
    &&& keys[holding.account_index as int] == account
    &&& holding.mint == Some(mint)
    &&& holding.owner is Some
    &&& holding.owner->0 != default_key()
}

/// Who owns a token account, according to the last holding that says so.
pub open spec fn account_owner(
    keys: Seq<Pubkey>,
    holdings: Seq<TokenHolding>,
    account: Pubkey,
    mint: Pubkey,
) -> Option<Pubkey>
    decreases holdings.len(),
{
    if holdings.len() == 0 {
        None
    } else if names_owner(keys, holdings.last(), account, mint) {
        holdings.last().owner
    } else {
        account_owner(keys, holdings.drop_last(), account, mint)
    }
}

/// An event whose user is the owner of the token account that it names, where
/// that owner is known.
pub open spec fn with_account_owner<E>(
    event: DexEvent<E>,
    keys: Seq<Pubkey>,
    holdings: Seq<TokenHolding>,
) -> DexEvent<E> {
    match trade_of(event) {
        Some(trade) => match account_owner(keys, holdings, trade.associated_user, trade.mint) {
            Some(owner) => if trade.associated_user != default_key() {
                with_user(event, owner)
            } else {
                event
            },
            None => event,
        },
        None => event,
    }
}

/// A list of events whose users are the owners of the token accounts that
/// they name, where those owners are known.
pub open spec fn with_account_owners<E>(
    events: Seq<DexEvent<E>>,
    keys: Seq<Pubkey>,
    holdings: Seq<TokenHolding>,
) -> Seq<DexEvent<E>> {
    events.map_values(|event: DexEvent<E>| with_account_owner(event, keys, holdings))
}

/// Finds who owns a token account, according to the last holding that says
/// so.
fn find_account_owner(
    keys: &[Pubkey],
    holdings: &[TokenHolding],
    account: &Pubkey,
    mint: &Pubkey,
) -> (r: Option<Pubkey>)
    ensures
        r == account_owner(keys@, holdings@, *account, *mint),
{
    let mut i: usize = holdings.len();
    assert(holdings@.take(i as int) =~= holdings@);
    while i > 0
        invariant
            i <= holdings@.len(),
            account_owner(keys@, holdings@, *account, *mint) == account_owner(
                keys@,
                holdings@.take(i as int),
                *account,
                *mint,
            ),
        decreases i,
    {
        assert(holdings@.take(i as int).drop_last() =~= holdings@.take(i - 1));
        i = i - 1;
        let index: usize = holdings[i].account_index as usize;
        if index < keys.len() && keys[index] == *account {
            if let (Some(m), Some(owner)) = (holdings[i].mint, holdings[i].owner) {
                if m == *mint && owner != Pubkey::default() {
                    return Some(owner);
                }
            }
        }
    }
    None
}

/// Whether some event is a PumpFun trade.
fn any_trade<E>(events: &[DexEvent<E>]) -> (r: bool)
    ensures
        r == exists|i: int| 0 <= i < events@.len() && trade_of(#[trigger] events@[i]) is Some,
{
    let mut i: usize = 0;
    while i < events.len()
        invariant
            i <= events@.len(),
            forall|k: int| 0 <= k < i ==> trade_of(#[trigger] events@[k]) is None,
        decreases events@.len() - i,
    {
        if events[i].trade().is_some() {
            assert(trade_of(events@[i as int]) is Some);
            return true;
        }
        i = i + 1;
    }
    false
}

/// Sets the user of each PumpFun trade to the owner of the token account that
/// it names, where a holding tells that owner.
pub fn set_users_to_account_owners<E>(
    events: &mut [DexEvent<E>],
    keys: &[Pubkey],
    holdings: &[TokenHolding],
)
    ensures
        final(events)@ == with_account_owners(old(events)@, keys@, holdings@),
{
    let ghost before = events@;
    let n: usize = events.len();
    let mut i: usize = 0;
    while i < n
        invariant
            i <= n,
            n == before.len(),
            events@.len() == n,
            forall|k: int|
                0 <= k < i ==> events@[k] == with_account_owner(before[k], keys@, holdings@),
            forall|k: int| i <= k < n ==> events@[k] == before[k],
        decreases n - i,
    {
        if let Some(trade) = events[i].trade_mut() {
            if trade.associated_user != Pubkey::default() {
                if let Some(owner) = find_account_owner(
                    keys,
                    holdings,
                    &trade.associated_user,
                    &trade.mint,
                ) {
                    trade.user = owner;
                }
            }
        }
        i = i + 1;
    }
    assert(events@ =~= with_account_owners(before, keys@, holdings@));
}

/// Sets the user of each PumpFun trade to the owner of the token account that
/// it names, where a token balance of the transaction tells that owner.
///
/// Of several balances that do, the last counts, and those after the
/// transaction count as later than those before it. Nothing changes where the
/// transaction has no message or one of its accounts is not 32 bytes long.
pub fn fill_pumpfun_instruction_users_from_token_balances<E>(
    events: &mut [DexEvent<E>],
    tx: &Option<Transaction>,
    meta: &TransactionStatusMeta,
)
    ensures
        final(events)@ == match account_pubkeys(*tx, *meta) {
            Some(keys) => with_account_owners(
                old(events)@,
                keys,
                holdings_of(meta.pre_token_balances@ + meta.post_token_balances@),
            ),
            None => old(events)@,
        },
{
    if !any_trade(events) {
        proof {
            if let Some(keys) = account_pubkeys(*tx, *meta) {
                assert(events@ =~= with_account_owners(
                    events@,
                    keys,
                    holdings_of(meta.pre_token_balances@ + meta.post_token_balances@),
                ));
            }
        }
        return;
    }
    if let Some(keys) = collect_account_keys_pubkeys(tx, meta) {
        let mut holdings = read_holdings(meta.pre_token_balances.as_slice());
        let mut later = read_holdings(meta.post_token_balances.as_slice());
        holdings.append(&mut later);
        assert(holdings@ =~= holdings_of(meta.pre_token_balances@ + meta.post_token_balances@));
        set_users_to_account_owners(events, keys.as_slice(), holdings.as_slice());
    }
}

/// How much of a token the PumpFun trades of a list sell in all.
pub open spec fn sell_total<E>(events: Seq<DexEvent<E>>, mint: Pubkey) -> nat
    decreases events.len(),
{
    if events.len() == 0 {
        0
    } else {
        let rest = sell_total(events.drop_last(), mint);
        match trade_of(events.last()) {
            Some(trade) => if !trade.is_buy && trade.mint == mint {
                rest + trade.token_amount as nat
            } else {
                rest
            },
            None => rest,
        }
    }
}

/// Whether a key is known and its holding of a token went down by at least
/// the given amount.
pub open spec fn covers(
    pre: Seq<TokenHolding>,
    post: Seq<TokenHolding>,
    signer: Pubkey,
    mint: Pubkey,
    amount: nat,
) -> bool {
    &&& signer != default_key()
    &&& held(pre, signer, mint) - held(post, signer, mint) >= amount
}

/// Whether exactly one of the signers, namely the given one, covers the given
/// amount.
pub open spec fn is_sole_seller(
    signers: Seq<Pubkey>,
    pre: Seq<TokenHolding>,
    post: Seq<TokenHolding>,
    mint: Pubkey,
    amount: nat,
    seller: Pubkey,
) -> bool {
    &&& signers.contains(seller)
    &&& covers(pre, post, seller, mint, amount)
    &&& forall|other: Pubkey| #[trigger]
        signers.contains(other) && covers(pre, post, other, mint, amount) ==> other == seller
}

/// The one signer that covers the given amount, if there is exactly one and
/// the amount is not zero.
pub open spec fn sole_seller(
    signers: Seq<Pubkey>,
    pre: Seq<TokenHolding>,
    post: Seq<TokenHolding>,
    mint: Pubkey,
    amount: nat,
) -> Option<Pubkey> {
    if amount > 0 && exists|seller: Pubkey|
        is_sole_seller(signers, pre, post, mint, amount, seller) {
        Some(choose|seller: Pubkey| is_sole_seller(signers, pre, post, mint, amount, seller))
    } else {
        None
    }
}

/// An event whose user, if it is a sale, is the one signer that covers all
/// sales of the same token, if there is exactly one.
pub open spec fn with_sole_seller<E>(
    event: DexEvent<E>,
    events: Seq<DexEvent<E>>,
    signers: Seq<Pubkey>,
    pre: Seq<TokenHolding>,
    post: Seq<TokenHolding>,
) -> DexEvent<E> {
    match trade_of(event) {
        Some(trade) => match sole_seller(
            signers,
            pre,
            post,
            trade.mint,
            sell_total(events, trade.mint),
        ) {
            Some(seller) => if !trade.is_buy {
                with_user(event, seller)
            } else {
                event
            },
            None => event,
        },
        None => event,
    }
}

/// A list of events whose sales have the one signer that covers all sales of
/// the same token as their user, where there is exactly one.
pub open spec fn with_sole_sellers<E>(
    events: Seq<DexEvent<E>>,
    signers: Seq<Pubkey>,
    pre: Seq<TokenHolding>,
    post: Seq<TokenHolding>,
) -> Seq<DexEvent<E>> {
    events.map_values(|event: DexEvent<E>| with_sole_seller(event, events, signers, pre, post))
}

/// The keys that sign a transaction: as many of the accounts that its message
/// lists as the header asks for.
pub open spec fn signer_keys(tx: Option<Transaction>) -> Seq<Pubkey> {
    match tx {
        Some(Transaction { message: Some(Message { header: Some(header), .. }) }) => {
            let keys = static_keys(tx);
            if header.num_required_signatures < keys.len() {
                keys.take(header.num_required_signatures as int)
            } else {
                keys
            }
        },
        _ => Seq::empty(),
    }
}

/// Adds up how much of a token the PumpFun trades of a list sell.
pub fn sum_sales<E>(events: &[DexEvent<E>], mint: &Pubkey) -> (r: u128)
    ensures
        r == sell_total(events@, *mint),
{
    let mut total: u128 = 0;
    let mut i: usize = 0;
    while i < events.len()
        invariant
            i <= events@.len(),
            total == sell_total(events@.take(i as int), *mint),
            total <= i * 0xffff_ffff_ffff_ffff,
        decreases events@.len() - i,
    {
        assert(events@.take(i + 1).drop_last() =~= events@.take(i as int));
        if let Some(trade) = events[i].trade() {
            if !trade.is_buy && trade.mint == *mint {
                total = total + trade.token_amount as u128;
            }
        }
        i = i + 1;
    }
    assert(events@.take(i as int) =~= events@);
    total
}

/// Finds the one signer whose holding of a token went down by at least the
/// given amount, if there is exactly one and the amount is not zero.
pub fn find_sole_seller(
    signers: &[Pubkey],
    pre: &[TokenHolding],
    post: &[TokenHolding],
    mint: &Pubkey,
    amount: u128,
) -> (r: Option<Pubkey>)
    ensures
        r == sole_seller(signers@, pre@, post@, *mint, amount as nat),
{
    if amount == 0 {
        return None;
    }
    let mut found: Option<Pubkey> = None;
    let mut i: usize = 0;
    while i < signers.len()
        invariant
            i <= signers@.len(),
            amount > 0,
            match found {
                Some(seller) => signers@.contains(seller) && covers(
                    pre@,
                    post@,
                    seller,
                    *mint,
                    amount as nat,
                ),
                None => true,
            },
            forall|k: int|
                0 <= k < i && covers(
                    pre@,
                    post@,
                    #[trigger] signers@[k],
                    *mint,
                    amount as nat,
                ) ==> found == Some(signers@[k]),
        decreases signers@.len() - i,
    {
        let signer = signers[i];
        if signer != Pubkey::default() {
            let before: u128 = sum_held(pre, &signer, mint);
            let after: u128 = sum_held(post, &signer, mint);
            if before.saturating_sub(after) >= amount {
                assert(covers(pre@, post@, signers@[i as int], *mint, amount as nat));
                match found {
                    Some(seller) => {
                        if seller != signer {
                            assert(signers@.contains(signers@[i as int]));
                            return None;
                        }
                    },
                    None => {
                        found = Some(signer);
                    },
                }
            }
        }
        i = i + 1;
    }
    proof {
        if let Some(seller) = found {
            assert(is_sole_seller(signers@, pre@, post@, *mint, amount as nat, seller));
        }
    }
    found
}

/// Sets the user of each PumpFun sale to the one signer whose holding of the
/// token went down by at least as much as all sales of it, where there is
/// exactly one.
pub fn set_users_to_sole_sellers<E>(
    events: &mut [DexEvent<E>],
    signers: &[Pubkey],
    pre: &[TokenHolding],
    post: &[TokenHolding],
)
    ensures
        final(events)@ == with_sole_sellers(old(events)@, signers@, pre@, post@),
{
    let ghost before = events@;
    let n: usize = events.len();
    let mut users: Vec<Option<Pubkey>> = Vec::new();
    let mut i: usize = 0;
    while i < n
        invariant
            i <= n,
            n == before.len(),
            events@ == before,
            users@.len() == i,
            forall|k: int|
                0 <= k < i ==> with_sole_seller(before[k], before, signers@, pre@, post@)
                    == match #[trigger] users@[k] {
                    Some(user) => with_user(before[k], user),
                    None => before[k],
                },
        decreases n - i,
    {
        let mut user: Option<Pubkey> = None;
        if let Some(trade) = events[i].trade() {
            if !trade.is_buy {
                let total: u128 = sum_sales(events, &trade.mint);
                user = find_sole_seller(signers, pre, post, &trade.mint, total);
            }
        }
        users.push(user);
        i = i + 1;
    }
    let mut j: usize = 0;
    while j < n
        invariant
            j <= n,
            n == before.len(),
            users@.len() == n,
            events@.len() == n,
            forall|k: int|
                0 <= k < n ==> with_sole_seller(before[k], before, signers@, pre@, post@)
                    == match #[trigger] users@[k] {
                    Some(user) => with_user(before[k], user),
                    None => before[k],
                },
            forall|k: int|
                0 <= k < j ==> events@[k] == with_sole_seller(
                    before[k],
                    before,
                    signers@,
                    pre@,
                    post@,
                ),
            forall|k: int| j <= k < n ==> events@[k] == before[k],
        decreases n - j,
    {
        if let Some(user) = users[j] {
            if let Some(trade) = events[j].trade_mut() {
                trade.user = user;
            }
        }
        j = j + 1;
    }
    assert(events@ =~= with_sole_sellers(before, signers@, pre@, post@));
}

/// Sets the user of each PumpFun sale to the one signer whose holding of the
/// token went down by at least as much as all sales of it in the transaction,
/// where there is exactly one.
///
/// A sale that went through a router names the account of the router. The
/// balances still show which signer the tokens came from. Where no signer
/// covers the sales, or more than one does, the users stay as they are.
pub fn fill_pumpfun_routed_sell_users_from_signer_token_deltas<E>(
    events: &mut [DexEvent<E>],
    tx: &Option<Transaction>,
    meta: &TransactionStatusMeta,
)
    ensures
        final(events)@ == with_sole_sellers(
            old(events)@,
            signer_keys(*tx),
            holdings_of(meta.pre_token_balances@),
            holdings_of(meta.post_token_balances@),
        ),
{
    if !any_trade(events) {
        proof {
            assert(events@ =~= with_sole_sellers(
                events@,
                signer_keys(*tx),
                holdings_of(meta.pre_token_balances@),
                holdings_of(meta.post_token_balances@),
            ));
        }
        return;
    }
    let signers = collect_signer_keys(tx);
    let pre = read_holdings(meta.pre_token_balances.as_slice());
    let post = read_holdings(meta.post_token_balances.as_slice());
    set_users_to_sole_sellers(events, signers.as_slice(), pre.as_slice(), post.as_slice());
}

/// The keys that sign a transaction: as many of the accounts that its message
/// lists as the header asks for.
pub fn collect_signer_keys(tx: &Option<Transaction>) -> (r: Vec<Pubkey>)
    ensures
        r@ == signer_keys(*tx),
        match tx {
            Some(t) => match t.message {
                Some(message) => match message.header {
                    Some(header) => {
                        &&& header.num_required_signatures <= message.account_keys@.len()
                            ==> r@.len() == header.num_required_signatures
                        &&& header.num_required_signatures > message.account_keys@.len()
                            ==> r@.len() == message.account_keys@.len()
                        &&& forall|i: int|
                            0 <= i < r@.len() ==> (#[trigger] r@[i]).bytes@
                                == if message.account_keys@[i]@.len() == 32 {
                                message.account_keys@[i]@
                            } else {
                                Seq::new(32, |b: int| 0u8)
                            }
                    },
                    None => r@.len() == 0,
                },
                None => r@.len() == 0,
            },
            None => r@.len() == 0,
        },
{
    proof {
        law_signers_are_listed_first(*tx);
    }
    if let Some(t) = tx {
        if let Some(message) = &t.message {
            if let Some(header) = &message.header {
                let mut keys = read_keys(message.account_keys.as_slice());
                let required: usize = header.num_required_signatures as usize;
                if required < keys.len() {
                    keys.truncate(required);
                }
                return keys;
            }
        }
    }
    Vec::new()
}

/// The trades of a list of events differ from those of another in their users
/// and payers at most.
pub open spec fn same_trades<E>(a: Seq<DexEvent<E>>, b: Seq<DexEvent<E>>) -> bool {
    &&& a.len() == b.len()
    &&& forall|i: int|
        0 <= i < a.len() ==> #[trigger] b[i] == match (trade_of(a[i]), trade_of(b[i])) {
            (Some(trade), Some(changed)) => with_trade(
                a[i],
                PumpFunTradeEvent {
                    user: changed.user,
                    transaction_fee_payer: changed.transaction_fee_payer,
                    ..trade
                },
            ),
            _ => a[i],
        }
}

/// Setting the payer leaves everything else of each event as it was, the user
/// of each trade in particular.
pub proof fn law_fee_payer_keeps_users<E>(events: Seq<DexEvent<E>>, payer: Pubkey)
    ensures
        same_trades(events, with_fee_payers(events, payer)),
        forall|i: int|
            0 <= i < events.len() ==> match trade_of(#[trigger] events[i]) {
                Some(trade) => trade_of(with_fee_payers(events, payer)[i]) matches Some(changed)
                    && changed.user == trade.user && (payer != default_key()
                    ==> changed.transaction_fee_payer == payer),
                None => with_fee_payers(events, payer)[i] == events[i],
            },
{
}

/// Setting the users from token accounts or from signers leaves everything
/// but the user of each trade as it was.
pub proof fn law_user_fills_keep_the_rest<E>(
    events: Seq<DexEvent<E>>,
    keys: Seq<Pubkey>,
    holdings: Seq<TokenHolding>,
    signers: Seq<Pubkey>,
    pre: Seq<TokenHolding>,
    post: Seq<TokenHolding>,
)
    ensures
        same_trades(events, with_account_owners(events, keys, holdings)),
        same_trades(events, with_sole_sellers(events, signers, pre, post)),
        forall|i: int|
            0 <= i < events.len() ==> (trade_of(#[trigger] events[i]) matches Some(trade) ==> {
                &&& trade_of(with_account_owners(events, keys, holdings)[i]) matches Some(changed)
                    && changed.transaction_fee_payer == trade.transaction_fee_payer
                &&& trade_of(with_sole_sellers(events, signers, pre, post)[i]) matches Some(changed)
                    && changed.transaction_fee_payer == trade.transaction_fee_payer
            }),
{
}

proof fn lemma_sell_total_ignores_users<E>(
    a: Seq<DexEvent<E>>,
    b: Seq<DexEvent<E>>,
    mint: Pubkey,
)
    requires
        same_trades(a, b),
    ensures
        sell_total(a, mint) == sell_total(b, mint),
    decreases a.len(),
{
    if a.len() > 0 {
        let n = a.len() - 1;
        assert(same_trades(a.drop_last(), b.drop_last())) by {
            assert forall|i: int| 0 <= i < n implies #[trigger] b.drop_last()[i] == match (
                trade_of(a.drop_last()[i]),
                trade_of(b.drop_last()[i]),
            ) {
                (Some(trade), Some(changed)) => with_trade(
                    a.drop_last()[i],
                    PumpFunTradeEvent {
                        user: changed.user,
                        transaction_fee_payer: changed.transaction_fee_payer,
                        ..trade
                    },
                ),
                _ => a.drop_last()[i],
            } by {
                assert(b[i] == b.drop_last()[i]);
            }
        }
        lemma_sell_total_ignores_users(a.drop_last(), b.drop_last(), mint);
        assert(b[n] == b.last());
    }
}

/// Setting the payer or the users once more changes nothing.
pub proof fn law_fills_are_idempotent<E>(
    events: Seq<DexEvent<E>>,
    payer: Pubkey,
    keys: Seq<Pubkey>,
    holdings: Seq<TokenHolding>,
    signers: Seq<Pubkey>,
    pre: Seq<TokenHolding>,
    post: Seq<TokenHolding>,
)
    ensures
        with_fee_payers(with_fee_payers(events, payer), payer) == with_fee_payers(events, payer),
        with_account_owners(with_account_owners(events, keys, holdings), keys, holdings)
            == with_account_owners(events, keys, holdings),
        with_sole_sellers(with_sole_sellers(events, signers, pre, post), signers, pre, post)
            == with_sole_sellers(events, signers, pre, post),
{
    assert(with_fee_payers(with_fee_payers(events, payer), payer) =~= with_fee_payers(
        events,
        payer,
    ));
    assert(with_account_owners(with_account_owners(events, keys, holdings), keys, holdings)
        =~= with_account_owners(events, keys, holdings));
    let once = with_sole_sellers(events, signers, pre, post);
    law_user_fills_keep_the_rest(events, keys, holdings, signers, pre, post);
    assert forall|mint: Pubkey| #[trigger] sell_total(events, mint) == sell_total(once, mint) by {
        lemma_sell_total_ignores_users(events, once, mint);
    }
    assert(with_sole_sellers(once, signers, pre, post) =~= once);
}

/// It makes no difference whether the payer is set before the users or after
/// them.
pub proof fn law_fee_payer_and_users_are_independent<E>(
    events: Seq<DexEvent<E>>,
    payer: Pubkey,
    keys: Seq<Pubkey>,
    holdings: Seq<TokenHolding>,
    signers: Seq<Pubkey>,
    pre: Seq<TokenHolding>,
    post: Seq<TokenHolding>,
)
    ensures
        with_account_owners(with_fee_payers(events, payer), keys, holdings) == with_fee_payers(
            with_account_owners(events, keys, holdings),
            payer,
        ),
        with_sole_sellers(with_fee_payers(events, payer), signers, pre, post) == with_fee_payers(
            with_sole_sellers(events, signers, pre, post),
            payer,
        ),
{
    let paid = with_fee_payers(events, payer);
    assert(with_account_owners(paid, keys, holdings) =~= with_fee_payers(
        with_account_owners(events, keys, holdings),
        payer,
    ));
    law_fee_payer_keeps_users(events, payer);
    assert forall|mint: Pubkey| #[trigger] sell_total(events, mint) == sell_total(paid, mint) by {
        lemma_sell_total_ignores_users(events, paid, mint);
    }
    assert(with_sole_sellers(paid, signers, pre, post) =~= with_fee_payers(
        with_sole_sellers(events, signers, pre, post),
        payer,
    ));
}

/// A signer is taken as the seller exactly where something was sold, it
/// covers all of it, and no other signer does.
pub proof fn law_sole_seller(
    signers: Seq<Pubkey>,
    pre: Seq<TokenHolding>,
    post: Seq<TokenHolding>,
    mint: Pubkey,
    amount: nat,
    seller: Pubkey,
)
    ensures
        sole_seller(signers, pre, post, mint, amount) == Some(seller) <==> amount > 0
            && is_sole_seller(signers, pre, post, mint, amount, seller),
{
    if amount > 0 && is_sole_seller(signers, pre, post, mint, amount, seller) {
        let chosen = choose|s: Pubkey| is_sole_seller(signers, pre, post, mint, amount, s);
        assert(is_sole_seller(signers, pre, post, mint, amount, chosen));
        assert(signers.contains(chosen) && covers(pre, post, chosen, mint, amount));
    }
}

/// A sale gets the one signer that covers all sales of its token as its user.
pub proof fn law_clear_sale_gets_seller<E>(
    event: DexEvent<E>,
    events: Seq<DexEvent<E>>,
    signers: Seq<Pubkey>,
    pre: Seq<TokenHolding>,
    post: Seq<TokenHolding>,
    seller: Pubkey,
)
    requires
        trade_of(event) matches Some(trade) && !trade.is_buy && sell_total(events, trade.mint) > 0
            && is_sole_seller(
            signers,
            pre,
            post,
            trade.mint,
            sell_total(events, trade.mint),
            seller,
        ),
    ensures
        with_sole_seller(event, events, signers, pre, post) == with_user(event, seller),
{
    let mint = trade_of(event)->0.mint;
    law_sole_seller(signers, pre, post, mint, sell_total(events, mint), seller);
}

/// A sale keeps its user where no signer covers the sales of its token, and
/// also where two of them do. A purchase always keeps it.
pub proof fn law_unclear_sale_keeps_user<E>(
    event: DexEvent<E>,
    events: Seq<DexEvent<E>>,
    signers: Seq<Pubkey>,
    pre: Seq<TokenHolding>,
    post: Seq<TokenHolding>,
)
    requires
        trade_of(event) matches Some(trade) ==> {
            ||| trade.is_buy
            ||| forall|s: Pubkey| #[trigger]
                signers.contains(s) ==> !covers(
                    pre,
                    post,
                    s,
                    trade.mint,
                    sell_total(events, trade.mint),
                )
            ||| exists|s: Pubkey, t: Pubkey|
                s != t && #[trigger] signers.contains(s) && #[trigger] signers.contains(t)
                    && covers(pre, post, s, trade.mint, sell_total(events, trade.mint)) && covers(
                    pre,
                    post,
                    t,
                    trade.mint,
                    sell_total(events, trade.mint),
                )
        },
    ensures
        with_sole_seller(event, events, signers, pre, post) == event,
{
}

/// The signers are the first of the accounts that the message lists: as many
/// as the header asks for, or all of them where it asks for more.
pub proof fn law_signers_are_listed_first(tx: Option<Transaction>)
    ensures
        match tx {
            Some(t) => match t.message {
                Some(message) => match message.header {
                    Some(header) => {
                        &&& header.num_required_signatures <= message.account_keys@.len()
                            ==> signer_keys(tx).len() == header.num_required_signatures
                        &&& header.num_required_signatures > message.account_keys@.len()
                            ==> signer_keys(tx).len() == message.account_keys@.len()
                        &&& forall|i: int|
                            0 <= i < signer_keys(tx).len() ==> (#[trigger] signer_keys(
                                tx,
                            )[i]).bytes@ == if message.account_keys@[i]@.len() == 32 {
                                message.account_keys@[i]@
                            } else {
                                Seq::new(32, |b: int| 0u8)
                            }
                    },
                    None => signer_keys(tx).len() == 0,
                },
                None => signer_keys(tx).len() == 0,
            },
            None => signer_keys(tx).len() == 0,
        },
        signer_keys(tx).is_prefix_of(static_keys(tx)),
        tx matches Some(Transaction {
            message: Some(Message { header: Some(header), .. }),
        }) ==> signer_keys(tx).len() <= header.num_required_signatures,
        signer_keys(tx).len() > 0 ==> signer_keys(tx)[0] == fee_payer_of(tx),
{
    law_static_keys(tx);
    assert forall|i: int| 0 <= i < signer_keys(tx).len() implies #[trigger] signer_keys(tx)[i]
        == static_keys(tx)[i] by {}
}

/// An owner is found exactly where some holding names it for the token
/// account and no later holding names any.
pub proof fn law_account_owner(
    keys: Seq<Pubkey>,
    holdings: Seq<TokenHolding>,
    account: Pubkey,
    mint: Pubkey,
    owner: Pubkey,
)
    ensures
        account_owner(keys, holdings, account, mint) == Some(owner) <==> exists|k: int|
            0 <= k < holdings.len() && names_owner(keys, #[trigger] holdings[k], account, mint)
                && holdings[k].owner == Some(owner) && forall|m: int|
                k < m < holdings.len() ==> !names_owner(
                    keys,
                    #[trigger] holdings[m],
                    account,
                    mint,
                ),
    decreases holdings.len(),
{
    if holdings.len() > 0 {
        let n = holdings.len() - 1;
        let front = holdings.drop_last();
        law_account_owner(keys, front, account, mint, owner);
        assert(holdings[n] == holdings.last());
        if !names_owner(keys, holdings[n], account, mint) {
            if account_owner(keys, front, account, mint) == Some(owner) {
                let k = choose|k: int|
                    0 <= k < front.len() && names_owner(keys, #[trigger] front[k], account, mint)
                        && front[k].owner == Some(owner) && forall|m: int|
                        k < m < front.len() ==> !names_owner(
                            keys,
                            #[trigger] front[m],
                            account,
                            mint,
                        );
                assert(holdings[k] == front[k]);
                assert forall|m: int| k < m < holdings.len() implies !names_owner(
                    keys,
                    #[trigger] holdings[m],
                    account,
                    mint,
                ) by {
                    if m < n {
                        assert(front[m] == holdings[m]);
                    }
                }
            }
            if exists|k: int|
                0 <= k < holdings.len() && names_owner(keys, #[trigger] holdings[k], account, mint)
                    && holdings[k].owner == Some(owner) && forall|m: int|
                    k < m < holdings.len() ==> !names_owner(
                        keys,
                        #[trigger] holdings[m],
                        account,
                        mint,
                    ) {
                let k = choose|k: int|
                    0 <= k < holdings.len() && names_owner(
                        keys,
                        #[trigger] holdings[k],
                        account,
                        mint,
                    ) && holdings[k].owner == Some(owner) && forall|m: int|
                        k < m < holdings.len() ==> !names_owner(
                            keys,
                            #[trigger] holdings[m],
                            account,
                            mint,
                        );
                assert(front[k] == holdings[k]);
                assert forall|m: int| k < m < front.len() implies !names_owner(
                    keys,
                    #[trigger] front[m],
                    account,
                    mint,
                ) by {
                    assert(front[m] == holdings[m]);
                }
            }
        }
    }
}

/// The holding that comes last decides who owns a token account, so one after
/// the transaction overrides all before it.
pub proof fn law_later_holdings_decide(
    keys: Seq<Pubkey>,
    earlier: Seq<TokenHolding>,
    later: Seq<TokenHolding>,
    account: Pubkey,
    mint: Pubkey,
)
    ensures
        account_owner(keys, earlier + later, account, mint) == match account_owner(
            keys,
            later,
            account,
            mint,
        ) {
            Some(owner) => Some(owner),
            None => account_owner(keys, earlier, account, mint),
        },
    decreases later.len(),
{
    if later.len() > 0 {
        law_later_holdings_decide(keys, earlier, later.drop_last(), account, mint);
        assert((earlier + later).drop_last() =~= earlier + later.drop_last());
    } else {
        assert(earlier + later =~= earlier);
    }
}

/// Every PumpFun trade gets a known payer, whatever else it says, and no
/// event changes in anything else. An unknown payer changes nothing at all.
pub proof fn law_every_trade_gets_the_payer<E>(events: Seq<DexEvent<E>>, payer: Pubkey)
    ensures
        with_fee_payers(events, payer).len() == events.len(),
        forall|i: int|
            0 <= i < events.len() ==> {
                let after = #[trigger] with_fee_payers(events, payer)[i];
                &&& payer.bytes@ == Seq::new(32, |b: int| 0u8) ==> after == events[i]
                &&& payer.bytes@ != Seq::new(32, |b: int| 0u8) ==> match trade_of(events[i]) {
                    Some(trade) => after == with_trade(
                        events[i],
                        PumpFunTradeEvent {
                            metadata: trade.metadata,
                            mint: trade.mint,
                            user: trade.user,
                            associated_user: trade.associated_user,
                            transaction_fee_payer: payer,
                            token_amount: trade.token_amount,
                            is_buy: trade.is_buy,
                        },
                    ),
                    None => after == events[i],
                }
            },
{
    law_default_key_is_zero();
    law_key_is_its_bytes(payer, default_key());
}

/// A trade of any kind, a purchase or a sale, gets the owner of the token
/// account that it names as its user: the one that the last holding names
/// which names any for this account and token. Nothing else of it changes.
pub proof fn law_trade_gets_account_owner<E>(
    events: Seq<DexEvent<E>>,
    keys: Seq<Pubkey>,
    holdings: Seq<TokenHolding>,
    i: int,
    k: int,
    trade: PumpFunTradeEvent,
    owner: Pubkey,
)
    requires
        0 <= i < events.len(),
        trade_of(events[i]) == Some(trade),
        trade.associated_user != default_key(),
        0 <= k < holdings.len(),
        holdings[k].account_index < keys.len(),
        keys[holdings[k].account_index as int] == trade.associated_user,
        holdings[k].mint == Some(trade.mint),
        holdings[k].owner == Some(owner),
        owner != default_key(),
        forall|m: int|
            k < m < holdings.len() && (#[trigger] holdings[m]).account_index < keys.len()
                && keys[holdings[m].account_index as int] == trade.associated_user
                && holdings[m].mint == Some(trade.mint) ==> holdings[m].owner is None
                || holdings[m].owner == Some(default_key()),
    ensures
        with_account_owners(events, keys, holdings).len() == events.len(),
        with_account_owners(events, keys, holdings)[i] == with_trade(
            events[i],
            PumpFunTradeEvent {
                metadata: trade.metadata,
                mint: trade.mint,
                user: owner,
                associated_user: trade.associated_user,
                transaction_fee_payer: trade.transaction_fee_payer,
                token_amount: trade.token_amount,
                is_buy: trade.is_buy,
            },
        ),
{
    law_account_owner(keys, holdings, trade.associated_user, trade.mint, owner);
    assert(names_owner(keys, holdings[k], trade.associated_user, trade.mint));
}

/// A trade keeps its user where it names no token account, or where no holding
/// names an owner for the account and the token. What is not a trade stays as
/// it is.
pub proof fn law_event_without_account_owner_stays<E>(
    events: Seq<DexEvent<E>>,
    keys: Seq<Pubkey>,
    holdings: Seq<TokenHolding>,
    i: int,
)
    requires
        0 <= i < events.len(),
        trade_of(events[i]) matches Some(trade) ==> trade.associated_user == default_key()
            || forall|m: int|
            0 <= m < holdings.len() && (#[trigger] holdings[m]).account_index < keys.len()
                && keys[holdings[m].account_index as int] == trade.associated_user
                && holdings[m].mint == Some(trade.mint) ==> holdings[m].owner is None
                || holdings[m].owner == Some(default_key()),
    ensures
        with_account_owners(events, keys, holdings).len() == events.len(),
        with_account_owners(events, keys, holdings)[i] == events[i],
{
    if let Some(trade) = trade_of(events[i]) {
        if let Some(owner) = account_owner(keys, holdings, trade.associated_user, trade.mint) {
            law_account_owner(keys, holdings, trade.associated_user, trade.mint, owner);
        }
    }
}

/// What the trades of a list sell of a token adds up event by event. One more
/// event raises it by its amount where it is a sale of that token.
pub proof fn law_sell_total_of_one_more<E>(
    events: Seq<DexEvent<E>>,
    event: DexEvent<E>,
    mint: Pubkey,
)
    ensures
        sell_total(Seq::<DexEvent<E>>::empty(), mint) == 0,
        sell_total(events.push(event), mint) == sell_total(events, mint) + match trade_of(event) {
            Some(trade) => if !trade.is_buy && trade.mint == mint {
                trade.token_amount as int
            } else {
                0int
            },
            None => 0int,
        },
{
    assert(events.push(event).drop_last() =~= events);
}

/// A sale gets the signer as its user whose holding of the token fell by at
/// least all that was sold of it, where no other signer's did. Nothing else of
/// it changes.
pub proof fn law_sale_gets_sole_signer<E>(
    events: Seq<DexEvent<E>>,
    signers: Seq<Pubkey>,
    pre: Seq<TokenHolding>,
    post: Seq<TokenHolding>,
    i: int,
    s: int,
    trade: PumpFunTradeEvent,
)
    requires
        0 <= i < events.len(),
        trade_of(events[i]) == Some(trade),
        !trade.is_buy,
        sell_total(events, trade.mint) > 0,
        0 <= s < signers.len(),
        signers[s] != default_key(),
        held(pre, signers[s], trade.mint) >= held(post, signers[s], trade.mint) + sell_total(
            events,
            trade.mint,
        ),
        forall|t: int|
            0 <= t < signers.len() && #[trigger] signers[t] != signers[s] && signers[t]
                != default_key() ==> held(pre, signers[t], trade.mint) < held(
                post,
                signers[t],
                trade.mint,
            ) + sell_total(events, trade.mint),
    ensures
        with_sole_sellers(events, signers, pre, post).len() == events.len(),
        with_sole_sellers(events, signers, pre, post)[i] == with_trade(
            events[i],
            PumpFunTradeEvent {
                metadata: trade.metadata,
                mint: trade.mint,
                user: signers[s],
                associated_user: trade.associated_user,
                transaction_fee_payer: trade.transaction_fee_payer,
                token_amount: trade.token_amount,
                is_buy: trade.is_buy,
            },
        ),
{
    let amount = sell_total(events, trade.mint);
    assert(is_sole_seller(signers, pre, post, trade.mint, amount, signers[s])) by {
        assert forall|other: Pubkey| #[trigger]
            signers.contains(other) && covers(
                pre,
                post,
                other,
                trade.mint,
                amount,
            ) implies other == signers[s] by {
            let t = choose|t: int| 0 <= t < signers.len() && signers[t] == other;
            assert(signers[t] == other);
        }
    }
    law_clear_sale_gets_seller(events[i], events, signers, pre, post, signers[s]);
}

/// An event stays as it is where it is not a sale, where nothing of its token
/// was sold, and where no signer's holding fell by at least what was sold.
pub proof fn law_event_without_signer_stays<E>(
    events: Seq<DexEvent<E>>,
    signers: Seq<Pubkey>,
    pre: Seq<TokenHolding>,
    post: Seq<TokenHolding>,
    i: int,
)
    requires
        0 <= i < events.len(),
        trade_of(events[i]) matches Some(trade) ==> {
            ||| trade.is_buy
            ||| sell_total(events, trade.mint) == 0
            ||| forall|t: int|
                0 <= t < signers.len() && #[trigger] signers[t] != default_key() ==> held(
                    pre,
                    signers[t],
                    trade.mint,
                ) < held(post, signers[t], trade.mint) + sell_total(events, trade.mint)
        },
    ensures
        with_sole_sellers(events, signers, pre, post).len() == events.len(),
        with_sole_sellers(events, signers, pre, post)[i] == events[i],
{
    if let Some(trade) = trade_of(events[i]) {
        let amount = sell_total(events, trade.mint);
        if let Some(seller) = sole_seller(signers, pre, post, trade.mint, amount) {
            law_sole_seller(signers, pre, post, trade.mint, amount, seller);
            let t = choose|t: int| 0 <= t < signers.len() && signers[t] == seller;
            assert(signers[t] == seller);
        }
    }
}

/// An event stays as it is where the holdings of two different signers fell by
/// at least what was sold.
pub proof fn law_event_with_two_signers_stays<E>(
    events: Seq<DexEvent<E>>,
    signers: Seq<Pubkey>,
    pre: Seq<TokenHolding>,
    post: Seq<TokenHolding>,
    i: int,
    s: int,
    t: int,
    trade: PumpFunTradeEvent,
)
    requires
        0 <= i < events.len(),
        trade_of(events[i]) == Some(trade),
        0 <= s < signers.len(),
        0 <= t < signers.len(),
        signers[s] != signers[t],
        signers[s] != default_key(),
        signers[t] != default_key(),
        held(pre, signers[s], trade.mint) >= held(post, signers[s], trade.mint) + sell_total(
            events,
            trade.mint,
        ),
        held(pre, signers[t], trade.mint) >= held(post, signers[t], trade.mint) + sell_total(
            events,
            trade.mint,
        ),
    ensures
        with_sole_sellers(events, signers, pre, post)[i] == events[i],
{
    assert(signers.contains(signers[s]));
    assert(signers.contains(signers[t]));
    law_unclear_sale_keeps_user(events[i], events, signers, pre, post);
}

/// A signer is the seller of an amount exactly where the amount is not zero,
/// the signer is a known key whose holding fell by at least the amount, and
/// the holding of every other known signer fell by less.
pub proof fn law_sole_seller_by_holdings(
    signers: Seq<Pubkey>,
    pre: Seq<TokenHolding>,
    post: Seq<TokenHolding>,
    mint: Pubkey,
    amount: nat,
    seller: Pubkey,
)
    ensures
        sole_seller(signers, pre, post, mint, amount) == Some(seller) <==> {
            &&& amount > 0
            &&& signers.contains(seller)
            &&& seller != default_key()
            &&& held(pre, seller, mint) >= held(post, seller, mint) + amount
            &&& forall|t: int|
                0 <= t < signers.len() && #[trigger] signers[t] != seller && signers[t]
                    != default_key() ==> held(pre, signers[t], mint) < held(post, signers[t], mint)
                    + amount
        },
{
    law_sole_seller(signers, pre, post, mint, amount, seller);
    if is_sole_seller(signers, pre, post, mint, amount, seller) {
        assert forall|t: int|
            0 <= t < signers.len() && #[trigger] signers[t] != seller && signers[t]
                != default_key() implies held(pre, signers[t], mint) < held(post, signers[t], mint)
            + amount by {
            assert(signers.contains(signers[t]));
        }
    }
    if signers.contains(seller) && covers(pre, post, seller, mint, amount) && forall|t: int|
        0 <= t < signers.len() && #[trigger] signers[t] != seller && signers[t] != default_key()
            ==> held(pre, signers[t], mint) < held(post, signers[t], mint) + amount {
        assert forall|other: Pubkey| #[trigger]
            signers.contains(other) && covers(pre, post, other, mint, amount) implies other
            == seller by {
            let t = choose|t: int| 0 <= t < signers.len() && signers[t] == other;
            assert(signers[t] == other);
        }
        assert(is_sole_seller(signers, pre, post, mint, amount, seller));
    }
}

}
