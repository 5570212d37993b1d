//! Who sent value to whom, judged by the balances around a transaction.

use vstd::prelude::*;

use crate::accounts::collect_account_keys_bs58;
use crate::accounts::{account_count, account_texts, law_accounts_of_a_transaction, texts};
use crate::pairs::{dedup_adjacent, sort_by_counterparty};
use crate::pairs::{ascending, dedup_pairs, pair_texts, sort_pairs, strictly_ascending, text_lt};
use crate::pairs::{
    law_dedup_leaves_no_equal_neighbours, law_sort_is_stable, law_sorted_without_repetitions,
};
use crate::transaction::{lamport_balance_deltas, token_balance_raw_amount};
use crate::transaction::{lamport_deltas, law_lamport_deltas, raw_amount};
use crate::transaction::{TokenBalance, Transaction, TransactionStatusMeta};

verus! {

/// Whether an account lost lamports, and at least `min` of them.
pub open spec fn is_outflow(delta: int, min: u64) -> bool {
    delta < 0 && -delta >= min
}

/// Whether an account gained lamports, and at least half of `min`.
pub open spec fn is_inflow(delta: int, min: u64) -> bool {
    delta > 0 && delta >= min / 2
}

/// Whether the account at an index is watched and has an outflow.
pub open spec fn is_sender(
    keys: Seq<Seq<char>>,
    deltas: Seq<i128>,
    watched: Seq<Seq<char>>,
    min: u64,
    i: int,
) -> bool {
    &&& 0 <= i < keys.len()
    &&& watched.contains(keys[i])
    &&& i < deltas.len()
    &&& is_outflow(deltas[i] as int, min)
}

/// Whether the account at index `j` counts as a receiver of what the one at
/// index `i` sent.
pub open spec fn is_receiver(deltas: Seq<i128>, min: u64, i: int, j: int) -> bool {
    &&& 0 <= j < deltas.len()
    &&& j != i
    &&& is_inflow(deltas[j] as int, min)
}

/// Whether every account that counts as a receiver of some sender has a key.
pub open spec fn receivers_have_keys(
    keys: Seq<Seq<char>>,
    deltas: Seq<i128>,
    watched: Seq<Seq<char>>,
    min: u64,
) -> bool {
    forall|i: int, j: int|
        #![trigger is_receiver(deltas, min, i, j)]
        is_sender(keys, deltas, watched, min, i) && is_receiver(deltas, min, i, j) ==> j
            < keys.len()
}

/// The pairs of the sender at index `i` with the receivers below index `n`.
pub open spec fn sol_pairs_of(
    keys: Seq<Seq<char>>,
    deltas: Seq<i128>,
    min: u64,
    i: int,
    n: nat,
) -> Seq<(Seq<char>, Seq<char>)>
    decreases n,
{
    if n == 0 {
        Seq::empty()
    } else {
        let rest = sol_pairs_of(keys, deltas, min, i, (n - 1) as nat);
        if is_receiver(deltas, min, i, n - 1) {
            rest.push((keys[i], keys[n - 1]))
        } else {
            rest
        }
    }
}

/// The pairs of the senders below index `n` with all their receivers.
pub open spec fn sol_pairs_below(
    keys: Seq<Seq<char>>,
    deltas: Seq<i128>,
    watched: Seq<Seq<char>>,
    min: u64,
    n: nat,
) -> Seq<(Seq<char>, Seq<char>)>
    decreases n,
{
    if n == 0 {
        Seq::empty()
    } else {
        let rest = sol_pairs_below(keys, deltas, watched, min, (n - 1) as nat);
        if is_sender(keys, deltas, watched, min, n - 1) {
            rest + sol_pairs_of(keys, deltas, min, n - 1, deltas.len())
        } else {
            rest
        }
    }
}

/// Each watched sender of native value with each of its receivers, in the
/// order of the account indexes.
pub open spec fn sol_pairs(
    keys: Seq<Seq<char>>,
    deltas: Seq<i128>,
    watched: Seq<Seq<char>>,
    min: u64,
) -> Seq<(Seq<char>, Seq<char>)> {
    sol_pairs_below(keys, deltas, watched, min, keys.len())
}

/// Whether a list of strings has a given string.
fn has_text(list: &[String], text: &String) -> (r: bool)
    ensures
        r == texts(list@).contains(text@),
{
    let mut i: usize = 0;
    while i < list.len()
        invariant
            i <= list@.len(),
            forall|k: int| 0 <= k < i ==> texts(list@)[k] != text@,
        decreases list@.len() - i,
    {
        if list[i] == *text {
            assert(texts(list@)[i as int] == text@);
            return true;
        }
        i = i + 1;
    }
    false
}

/// Whether the account at an index is watched and has an outflow.
fn sends(keys: &[String], deltas: &[i128], watched: &[String], min: u64, i: usize) -> (r: bool)
    requires
        i < keys@.len(),
    ensures
        r == is_sender(texts(keys@), deltas@, texts(watched@), min, i as int),
{
    has_text(watched, &keys[i]) && i < deltas.len() && deltas[i] < 0 && deltas[i] <= -(min as i128)
}

/// Whether every account that counts as a receiver of some sender has a key.
pub fn check_receivers_have_keys(
    account_keys_bs58: &[String],
    lamport_deltas: &[i128],
    watched_bs58: &[String],
    min_outflow_lamports: u64,
) -> (r: bool)
    ensures
        r == receivers_have_keys(
            texts(account_keys_bs58@),
            lamport_deltas@,
            texts(watched_bs58@),
            min_outflow_lamports,
        ),
{
    let ghost keys = texts(account_keys_bs58@);
    let ghost watched = texts(watched_bs58@);
    let half: i128 = min_outflow_lamports as i128 / 2;
    let mut i: usize = 0;
    while i < account_keys_bs58.len()
        invariant
            i <= account_keys_bs58@.len(),
            keys == texts(account_keys_bs58@),
            watched == texts(watched_bs58@),
            half == min_outflow_lamports / 2,
            forall|a: int, b: int|
                #![trigger is_receiver(lamport_deltas@, min_outflow_lamports, a, b)]
                a < i && is_sender(keys, lamport_deltas@, watched, min_outflow_lamports, a)
                    && is_receiver(lamport_deltas@, min_outflow_lamports, a, b) ==> b
                    < keys.len(),
        decreases account_keys_bs58@.len() - i,
    {
        if sends(account_keys_bs58, lamport_deltas, watched_bs58, min_outflow_lamports, i) {
            let mut j: usize = account_keys_bs58.len();
            while j < lamport_deltas.len()
                invariant
                    i < account_keys_bs58@.len() <= j,
                    keys == texts(account_keys_bs58@),
                    watched == texts(watched_bs58@),
                    half == min_outflow_lamports / 2,
                    is_sender(keys, lamport_deltas@, watched, min_outflow_lamports, i as int),
                    forall|b: int|
                        #![trigger is_receiver(lamport_deltas@, min_outflow_lamports, i as int, b)]
                        b < j && is_receiver(
                            lamport_deltas@,
                            min_outflow_lamports,
                            i as int,
                            b,
                        ) ==> b < keys.len(),
                decreases lamport_deltas@.len() - j,
            {
                if lamport_deltas[j] > 0 && lamport_deltas[j] >= half {
                    assert(is_receiver(
                        lamport_deltas@,
                        min_outflow_lamports,
                        i as int,
                        j as int,
                    ));
                    return false;
                }
                j = j + 1;
            }
        }
        i = i + 1;
    }
    true
}

/// Pairs each watched account that lost at least `min_outflow_lamports` with
/// every other account that gained at least half as much.
///
/// Every account that counts as a receiver must have a key.
pub fn heuristic_sol_counterparties_for_watched_keys(
    account_keys_bs58: &[String],
    lamport_deltas: &[i128],
    watched_bs58: &[String],
    min_outflow_lamports: u64,
) -> (r: Vec<(String, String)>)
    requires
        receivers_have_keys(
            texts(account_keys_bs58@),
            lamport_deltas@,
            texts(watched_bs58@),
            min_outflow_lamports,
        ),
    ensures
        pair_texts(r@) == sol_pairs(
            texts(account_keys_bs58@),
            lamport_deltas@,
            texts(watched_bs58@),
            min_outflow_lamports,
        ),
        forall|i: int, j: int|
            #![trigger lamport_deltas@[i], lamport_deltas@[j]]
            0 <= i < account_keys_bs58@.len() && i < lamport_deltas@.len() && 0 <= j
                < lamport_deltas@.len() && i != j && texts(watched_bs58@).contains(
                account_keys_bs58@[i]@,
            ) && lamport_deltas@[i] < 0 && -lamport_deltas@[i] >= min_outflow_lamports
                && lamport_deltas@[j] > 0 && lamport_deltas@[j] >= min_outflow_lamports / 2
                ==> pair_texts(r@).contains((account_keys_bs58@[i]@, account_keys_bs58@[j]@)),
{
    let min_l: i128 = min_outflow_lamports as i128;
    let ghost keys = texts(account_keys_bs58@);
    let ghost watched = texts(watched_bs58@);
    let mut pairs: Vec<(String, String)> = Vec::new();
    let mut i: usize = 0;
    assert(pair_texts(pairs@) =~= Seq::empty());
    while i < account_keys_bs58.len()
        invariant
            i <= account_keys_bs58@.len(),
            min_l == min_outflow_lamports,
            keys == texts(account_keys_bs58@),
            watched == texts(watched_bs58@),
            pair_texts(pairs@) == sol_pairs_below(
                keys,
                lamport_deltas@,
                watched,
                min_outflow_lamports,
                i as nat,
            ),
            receivers_have_keys(keys, lamport_deltas@, watched, min_outflow_lamports),
        decreases account_keys_bs58@.len() - i,
    {
        let key = &account_keys_bs58[i];
        if sends(account_keys_bs58, lamport_deltas, watched_bs58, min_outflow_lamports, i) {
            let ghost rest = pair_texts(pairs@);
            let mut j: usize = 0;
            assert(rest + Seq::<(Seq<char>, Seq<char>)>::empty() =~= rest);
            while j < lamport_deltas.len()
                invariant
                    i < account_keys_bs58@.len(),
                    j <= lamport_deltas@.len(),
                    min_l == min_outflow_lamports,
                    *key == account_keys_bs58@[i as int],
                    keys == texts(account_keys_bs58@),
                    is_sender(keys, lamport_deltas@, watched, min_outflow_lamports, i as int),
                    pair_texts(pairs@) == rest + sol_pairs_of(
                        keys,
                        lamport_deltas@,
                        min_outflow_lamports,
                        i as int,
                        j as nat,
                    ),
                    receivers_have_keys(keys, lamport_deltas@, watched, min_outflow_lamports),
                decreases lamport_deltas@.len() - j,
            {
                let ghost so_far = pair_texts(pairs@);
                if i != j && lamport_deltas[j] > 0 && lamport_deltas[j] >= min_l / 2 {
                    assert(is_receiver(
                        lamport_deltas@,
                        min_outflow_lamports,
                        i as int,
                        j as int,
                    ));
                    pairs.push((key.clone(), account_keys_bs58[j].clone()));
                    assert(pair_texts(pairs@) =~= so_far.push((keys[i as int], keys[j as int])));
                } else {
                    assert(!is_receiver(
                        lamport_deltas@,
                        min_outflow_lamports,
                        i as int,
                        j as int,
                    ));
                }
                j = j + 1;
                assert(pair_texts(pairs@) =~= rest + sol_pairs_of(
                    keys,
                    lamport_deltas@,
                    min_outflow_lamports,
                    i as int,
                    j as nat,
                ));
            }
        }
        i = i + 1;
    }
    assert forall|i: int, j: int|
        #![trigger lamport_deltas@[i], lamport_deltas@[j]]
        0 <= i < account_keys_bs58@.len() && i < lamport_deltas@.len() && 0 <= j
            < lamport_deltas@.len() && i != j && watched.contains(account_keys_bs58@[i]@)
            && lamport_deltas@[i] < 0 && -lamport_deltas@[i] >= min_outflow_lamports
            && lamport_deltas@[j] > 0 && lamport_deltas@[j] >= min_outflow_lamports
            / 2 implies pair_texts(pairs@).contains(
        (account_keys_bs58@[i]@, account_keys_bs58@[j]@),
    ) by {
        assert(is_sender(keys, lamport_deltas@, watched, min_outflow_lamports, i));
        assert(is_receiver(lamport_deltas@, min_outflow_lamports, i, j));
        law_native_transfer_is_found(
            keys,
            lamport_deltas@,
            watched,
            min_outflow_lamports,
            i,
            j,
        );
    }
    pairs
}

/// What an owner holds of a token in a list of balances. Balances without an
/// owner are not counted.
pub open spec fn owner_total(
    balances: Seq<TokenBalance>,
    mint: Seq<char>,
    owner: Seq<char>,
) -> nat
    decreases balances.len(),
{
    if balances.len() == 0 {
        0
    } else {
        let rest = owner_total(balances.drop_last(), mint, owner);
        let last = balances.last();
        if last.mint@ == mint && last.owner@ == owner && owner.len() > 0 {
            rest + raw_amount(last) as nat
        } else {
            rest
        }
    }
}

/// Whether what each owner holds of each token fits in 64 bits.
pub open spec fn totals_fit(balances: Seq<TokenBalance>) -> bool {
    forall|mint: Seq<char>, owner: Seq<char>| #[trigger]
        owner_total(balances, mint, owner) <= u64::MAX
}

/// By how much the holding of an owner in a token went down.
pub open spec fn token_decrease(
    pre: Seq<TokenBalance>,
    post: Seq<TokenBalance>,
    mint: Seq<char>,
    owner: Seq<char>,
) -> nat {
    let before = owner_total(pre, mint, owner);
    let after = owner_total(post, mint, owner);
    if before > after {
        (before - after) as nat
    } else {
        0
    }
}

/// Whether the holding of an owner in a token went down, and by at least
/// `min`.
pub open spec fn is_token_sender(
    pre: Seq<TokenBalance>,
    post: Seq<TokenBalance>,
    mint: Seq<char>,
    owner: Seq<char>,
    min: u64,
) -> bool {
    &&& token_decrease(pre, post, mint, owner) > 0
    &&& token_decrease(pre, post, mint, owner) >= min
}

/// Whether the holding of an owner in a token went up.
pub open spec fn is_token_receiver(
    pre: Seq<TokenBalance>,
    post: Seq<TokenBalance>,
    mint: Seq<char>,
    owner: Seq<char>,
) -> bool {
    owner_total(post, mint, owner) > owner_total(pre, mint, owner)
}

/// Whether another owner received a token that the watched owner sent.
pub open spec fn is_token_counterparty(
    pre: Seq<TokenBalance>,
    post: Seq<TokenBalance>,
    watch: Seq<char>,
    min: u64,
    owner: Seq<char>,
) -> bool {
    &&& owner != watch
    &&& exists|mint: Seq<char>|
        #![trigger is_token_receiver(pre, post, mint, owner)]
        is_token_sender(pre, post, mint, watch, min) && is_token_receiver(pre, post, mint, owner)
}

/// The watched owner with the owner of each balance among the first `n` of
/// `post` that shows a receipt of a token that the watched owner sent.
pub open spec fn spl_candidates(
    pre: Seq<TokenBalance>,
    post: Seq<TokenBalance>,
    watch: Seq<char>,
    min: u64,
    n: nat,
) -> Seq<(Seq<char>, Seq<char>)>
    decreases n,
{
    if n == 0 {
        Seq::empty()
    } else {
        let rest = spl_candidates(pre, post, watch, min, (n - 1) as nat);
        let balance = post[n - 1];
        if balance.owner@ != watch && is_token_sender(pre, post, balance.mint@, watch, min)
            && is_token_receiver(pre, post, balance.mint@, balance.owner@) {
            rest.push((watch, balance.owner@))
        } else {
            rest
        }
    }
}

/// The watched owner with each of its token counterparties, once, in the
/// order of their texts.
pub open spec fn spl_pairs(
    pre: Seq<TokenBalance>,
    post: Seq<TokenBalance>,
    watch: Seq<char>,
    min: u64,
) -> Seq<(Seq<char>, Seq<char>)> {
    dedup_pairs(sort_pairs(spl_candidates(pre, post, watch, min, post.len())))
}

proof fn lemma_owner_total_grows(
    balances: Seq<TokenBalance>,
    mint: Seq<char>,
    owner: Seq<char>,
    n: int,
)
    requires
        0 <= n <= balances.len(),
    ensures
        owner_total(balances.take(n), mint, owner) <= owner_total(balances, mint, owner),
    decreases balances.len() - n,
{
    if n < balances.len() {
        lemma_owner_total_grows(balances, mint, owner, n + 1);
        assert(balances.take(n + 1).drop_last() =~= balances.take(n));
    } else {
        assert(balances.take(n) =~= balances);
    }
}

proof fn lemma_owner_total_has_entry(
    balances: Seq<TokenBalance>,
    mint: Seq<char>,
    owner: Seq<char>,
) -> (k: int)
    requires
        owner_total(balances, mint, owner) > 0,
    ensures
        0 <= k < balances.len(),
        balances[k].mint@ == mint,
        balances[k].owner@ == owner,
        owner.len() > 0,
    decreases balances.len(),
{
    let last = balances.last();
    if last.mint@ == mint && last.owner@ == owner && owner.len() > 0 {
        balances.len() - 1
    } else {
        lemma_owner_total_has_entry(balances.drop_last(), mint, owner)
    }
}

/// What an owner holds of a token, unless that does not fit in 64 bits.
pub fn checked_owner_total(balances: &[TokenBalance], mint: &String, owner: &String) -> (r: Option<
    u64,
>)
    ensures
        r is Some <==> owner_total(balances@, mint@, owner@) <= u64::MAX,
        r matches Some(n) ==> n == owner_total(balances@, mint@, owner@),
{
    let mut total: u64 = 0;
    if owner.as_str().is_empty() {
        proof {
            if owner_total(balances@, mint@, owner@) > 0 {
                let _ = lemma_owner_total_has_entry(balances@, mint@, owner@);
            }
        }
        return Some(0);
    }
    let mut i: usize = 0;
    while i < balances.len()
        invariant
            i <= balances@.len(),
            owner@.len() > 0,
            total == owner_total(balances@.take(i as int), mint@, owner@),
        decreases balances@.len() - i,
    {
        proof {
            assert(balances@.take(i + 1).drop_last() =~= balances@.take(i as int));
            lemma_owner_total_grows(balances@, mint@, owner@, i + 1);
        }
        if balances[i].mint == *mint && balances[i].owner == *owner {
            match total.checked_add(token_balance_raw_amount(&balances[i])) {
                Some(sum) => {
                    total = sum;
                },
                None => {
                    return None;
                },
            }
        }
        i = i + 1;
    }
    assert(balances@.take(i as int) =~= balances@);
    Some(total)
}

/// Whether what each owner holds of each token fits in 64 bits.
pub fn token_totals_fit(balances: &[TokenBalance]) -> (r: bool)
    ensures
        r == totals_fit(balances@),
{
    let mut i: usize = 0;
    while i < balances.len()
        invariant
            i <= balances@.len(),
            forall|k: int|
                0 <= k < i ==> owner_total(
                    balances@,
                    (#[trigger] balances@[k]).mint@,
                    balances@[k].owner@,
                ) <= u64::MAX,
        decreases balances@.len() - i,
    {
        if checked_owner_total(balances, &balances[i].mint, &balances[i].owner).is_none() {
            return false;
        }
        i = i + 1;
    }
    proof {
        assert forall|mint: Seq<char>, owner: Seq<char>| #[trigger]
            owner_total(balances@, mint, owner) <= u64::MAX by {
            if owner_total(balances@, mint, owner) > 0 {
                let k = lemma_owner_total_has_entry(balances@, mint, owner);
                assert(balances@[k].mint@ == mint);
            }
        }
    }
    true
}

/// Pairs an owner, who sent at least `min_watch_decrease_raw` of some token,
/// with each other owner whose holding of the same token went up.
///
/// What each owner holds of each token must fit in 64 bits.
pub fn spl_token_counterparty_by_owner(
    meta: &TransactionStatusMeta,
    watch_owner_bs58: &str,
    min_watch_decrease_raw: u64,
) -> (r: Vec<(String, String)>)
    requires
        totals_fit(meta.pre_token_balances@),
        totals_fit(meta.post_token_balances@),
    ensures
        pair_texts(r@) == spl_pairs(
            meta.pre_token_balances@,
            meta.post_token_balances@,
            watch_owner_bs58@,
            min_watch_decrease_raw,
        ),
        strictly_ascending(pair_texts(r@)),
        forall|p: (Seq<char>, Seq<char>)| #[trigger]
            pair_texts(r@).contains(p) <==> p.0 == watch_owner_bs58@ && is_token_counterparty(
                meta.pre_token_balances@,
                meta.post_token_balances@,
                watch_owner_bs58@,
                min_watch_decrease_raw,
                p.1,
            ),
{
    let watch = watch_owner_bs58.to_owned();
    let pre = meta.pre_token_balances.as_slice();
    let post = meta.post_token_balances.as_slice();
    let mut out: Vec<(String, String)> = Vec::new();
    let mut i: usize = 0;
    assert(pair_texts(out@) =~= Seq::empty());
    while i < post.len()
        invariant
            i <= post@.len(),
            pre@ == meta.pre_token_balances@,
            post@ == meta.post_token_balances@,
            watch@ == watch_owner_bs58@,
            totals_fit(pre@),
            totals_fit(post@),
            pair_texts(out@) == spl_candidates(
                pre@,
                post@,
                watch@,
                min_watch_decrease_raw,
                i as nat,
            ),
        decreases post@.len() - i,
    {
        let mint = &post[i].mint;
        let owner = &post[i].owner;
        let ghost so_far = pair_texts(out@);
        if *owner != watch {
            let w_pre: u64 = checked_owner_total(pre, mint, &watch).unwrap();
            let w_post: u64 = checked_owner_total(post, mint, &watch).unwrap();
            let lost: u64 = w_pre.saturating_sub(w_post);
            if lost > 0 && lost >= min_watch_decrease_raw {
                let before: u64 = checked_owner_total(pre, mint, owner).unwrap();
                let after: u64 = checked_owner_total(post, mint, owner).unwrap();
                if after > before {
                    out.push((watch.clone(), owner.clone()));
                    assert(pair_texts(out@) =~= so_far.push((watch@, owner@)));
                }
            }
        }
        i = i + 1;
    }
    sort_by_counterparty(&mut out);
    dedup_adjacent(&mut out);
    proof {
        law_spl_pairs(pre@, post@, watch@, min_watch_decrease_raw);
    }
    out
}

/// The token pairs of the first `n` watched owners, one owner after another.
pub open spec fn spl_pairs_of_all(
    pre: Seq<TokenBalance>,
    post: Seq<TokenBalance>,
    watched: Seq<Seq<char>>,
    min: u64,
    n: nat,
) -> Seq<(Seq<char>, Seq<char>)>
    decreases n,
{
    if n == 0 {
        Seq::empty()
    } else {
        spl_pairs_of_all(pre, post, watched, min, (n - 1) as nat) + spl_pairs(
            pre,
            post,
            watched[n - 1],
            min,
        )
    }
}

/// The native pairs of a transaction, and then its token pairs.
pub open spec fn found_pairs(
    keys: Seq<Seq<char>>,
    meta: TransactionStatusMeta,
    watched: Seq<Seq<char>>,
    min_native: u64,
    min_token: u64,
) -> Seq<(Seq<char>, Seq<char>)> {
    sol_pairs(keys, lamport_deltas(meta), watched, min_native) + spl_pairs_of_all(
        meta.pre_token_balances@,
        meta.post_token_balances@,
        watched,
        min_token,
        watched.len(),
    )
}

/// Whether there is an account list, and the status of the transaction has a
/// balance before and after for each account in it.
pub open spec fn balances_match(accounts: Option<nat>, meta: TransactionStatusMeta) -> bool {
    &&& accounts is Some
    &&& meta.pre_balances@.len() == accounts->0
    &&& meta.post_balances@.len() == accounts->0
}

/// The transfer pairs of the watched accounts, by counterparty.
pub open spec fn transfer_pairs(
    keys: Seq<Seq<char>>,
    meta: TransactionStatusMeta,
    watched: Seq<Seq<char>>,
    min_native: u64,
    min_token: u64,
) -> Seq<(Seq<char>, Seq<char>)> {
    dedup_pairs(sort_pairs(found_pairs(keys, meta, watched, min_native, min_token)))
}

/// The transfer pairs of the watched accounts in a transaction whose account
/// texts are given, by counterparty.
///
/// Nothing is found where the balances do not match the accounts. Where they
/// do and some account is watched, what each owner holds of each token must
/// fit in 64 bits.
pub fn transfer_pairs_for_keys(
    keys: &[String],
    meta: &TransactionStatusMeta,
    watched_bs58: &[String],
    min_native_outflow_lamports: u64,
    spl_min_watch_decrease_raw: u64,
) -> (r: Option<Vec<(String, String)>>)
    requires
        balances_match(Some(keys@.len()), *meta) && watched_bs58@.len() > 0 ==> totals_fit(
            meta.pre_token_balances@,
        ) && totals_fit(meta.post_token_balances@),
    ensures
        match r {
            Some(pairs) => balances_match(Some(keys@.len()), *meta) && pair_texts(pairs@)
                == transfer_pairs(
                texts(keys@),
                *meta,
                texts(watched_bs58@),
                min_native_outflow_lamports,
                spl_min_watch_decrease_raw,
            ),
            None => !balances_match(Some(keys@.len()), *meta),
        },
        r is Some <==> meta.pre_balances@.len() == keys@.len() && meta.post_balances@.len()
            == keys@.len(),
{
    if meta.pre_balances.len() != keys.len() || meta.post_balances.len() != keys.len() {
        return None;
    }
    let ghost watched = texts(watched_bs58@);
    let deltas = lamport_balance_deltas(meta);
    let mut pairs = heuristic_sol_counterparties_for_watched_keys(
        keys,
        deltas.as_slice(),
        watched_bs58,
        min_native_outflow_lamports,
    );
    let ghost native = pair_texts(pairs@);
    let mut i: usize = 0;
    assert(native + Seq::<(Seq<char>, Seq<char>)>::empty() =~= native);
    while i < watched_bs58.len()
        invariant
            i <= watched_bs58@.len(),
            watched == texts(watched_bs58@),
            watched_bs58@.len() > 0 ==> totals_fit(meta.pre_token_balances@) && totals_fit(
                meta.post_token_balances@,
            ),
            pair_texts(pairs@) == native + spl_pairs_of_all(
                meta.pre_token_balances@,
                meta.post_token_balances@,
                watched,
                spl_min_watch_decrease_raw,
                i as nat,
            ),
        decreases watched_bs58@.len() - i,
    {
        let ghost so_far = pair_texts(pairs@);
        let mut more = spl_token_counterparty_by_owner(
            meta,
            watched_bs58[i].as_str(),
            spl_min_watch_decrease_raw,
        );
        let ghost found = pair_texts(more@);
        assert(watched[i as int] == watched_bs58@[i as int]@);
        pairs.append(&mut more);
        i = i + 1;
        assert(pair_texts(pairs@) =~= so_far + found);
        assert(pair_texts(pairs@) =~= native + spl_pairs_of_all(
            meta.pre_token_balances@,
            meta.post_token_balances@,
            watched,
            spl_min_watch_decrease_raw,
            i as nat,
        ));
    }
    sort_by_counterparty(&mut pairs);
    dedup_adjacent(&mut pairs);
    Some(pairs)
}

/// The transfer pairs of the watched accounts in a transaction, by
/// counterparty: those of native value and those of tokens.
///
/// Nothing is found where the account list cannot be made or the balances do
/// not match it. Where it can, they do and some account is watched, what each
/// owner holds of each token must fit in 64 bits.
pub fn collect_watch_transfer_counterparty_pairs(
    tx: &Transaction,
    meta: &TransactionStatusMeta,
    watched_bs58: &[String],
    min_native_outflow_lamports: u64,
    spl_min_watch_decrease_raw: u64,
) -> (r: Option<Vec<(String, String)>>)
    requires
        balances_match(account_count(*tx, *meta), *meta) && watched_bs58@.len() > 0 ==> totals_fit(
            meta.pre_token_balances@,
        ) && totals_fit(meta.post_token_balances@),
    ensures
        match r {
            Some(pairs) => balances_match(account_count(*tx, *meta), *meta) && pair_texts(pairs@)
                == transfer_pairs(
                account_texts(*tx, *meta)->0,
                *meta,
                texts(watched_bs58@),
                min_native_outflow_lamports,
                spl_min_watch_decrease_raw,
            ),
            None => !balances_match(account_count(*tx, *meta), *meta),
        },
        r is Some <==> {
            &&& tx.message is Some
            &&& forall|i: int|
                0 <= i < (tx.message->0).account_keys@.len() ==> (
                #[trigger] (tx.message->0).account_keys@[i])@.len() == 32
            &&& forall|i: int|
                0 <= i < meta.loaded_writable_addresses@.len() ==> (
                #[trigger] meta.loaded_writable_addresses@[i])@.len() == 32
            &&& forall|i: int|
                0 <= i < meta.loaded_readonly_addresses@.len() ==> (
                #[trigger] meta.loaded_readonly_addresses@[i])@.len() == 32
            &&& meta.pre_balances@.len() == (tx.message->0).account_keys@.len()
                + meta.loaded_writable_addresses@.len() + meta.loaded_readonly_addresses@.len()
            &&& meta.post_balances@.len() == (tx.message->0).account_keys@.len()
                + meta.loaded_writable_addresses@.len() + meta.loaded_readonly_addresses@.len()
        },
{
    proof {
        law_transaction_is_reported_on(*tx, *meta);
    }
    match collect_account_keys_bs58(tx, meta) {
        Some(keys) => transfer_pairs_for_keys(
            keys.as_slice(),
            meta,
            watched_bs58,
            min_native_outflow_lamports,
            spl_min_watch_decrease_raw,
        ),
        None => None,
    }
}

proof fn lemma_sol_pairs_of(
    keys: Seq<Seq<char>>,
    deltas: Seq<i128>,
    min: u64,
    i: int,
    n: nat,
    p: (Seq<char>, Seq<char>),
)
    ensures
        sol_pairs_of(keys, deltas, min, i, n).contains(p) <==> exists|j: int|
            j < n && #[trigger] is_receiver(deltas, min, i, j) && p == (keys[i], keys[j]),
    decreases n,
{
    if n > 0 {
        let rest = sol_pairs_of(keys, deltas, min, i, (n - 1) as nat);
        let list = sol_pairs_of(keys, deltas, min, i, n);
        lemma_sol_pairs_of(keys, deltas, min, i, (n - 1) as nat, p);
        if is_receiver(deltas, min, i, n - 1) {
            assert(list == rest.push((keys[i], keys[n - 1])));
            if rest.contains(p) {
                let k = choose|k: int| 0 <= k < rest.len() && rest[k] == p;
                assert(list[k] == p);
            }
            assert(list[rest.len() as int] == (keys[i], keys[n - 1]));
            if list.contains(p) {
                let k = choose|k: int| 0 <= k < list.len() && list[k] == p;
                if k < rest.len() {
                    assert(rest[k] == p);
                }
            }
        }
    }
}

proof fn lemma_contains_of_joined<A>(a: Seq<A>, b: Seq<A>, p: A)
    ensures
        (a + b).contains(p) <==> a.contains(p) || b.contains(p),
{
    if a.contains(p) {
        let k = choose|k: int| 0 <= k < a.len() && a[k] == p;
        assert((a + b)[k] == p);
    }
    if b.contains(p) {
        let k = choose|k: int| 0 <= k < b.len() && b[k] == p;
        assert((a + b)[a.len() + k] == p);
    }
    if (a + b).contains(p) {
        let k = choose|k: int| 0 <= k < (a + b).len() && (a + b)[k] == p;
        if k < a.len() {
            assert(a[k] == p);
        } else {
            assert(b[k - a.len()] == p);
        }
    }
}

proof fn lemma_sol_pairs_below(
    keys: Seq<Seq<char>>,
    deltas: Seq<i128>,
    watched: Seq<Seq<char>>,
    min: u64,
    n: nat,
    p: (Seq<char>, Seq<char>),
)
    ensures
        sol_pairs_below(keys, deltas, watched, min, n).contains(p) <==> exists|i: int, j: int|
            i < n && is_sender(keys, deltas, watched, min, i) && #[trigger] is_receiver(
                deltas,
                min,
                i,
                j,
            ) && p == (keys[i], keys[j]),
    decreases n,
{
    if n > 0 {
        let rest = sol_pairs_below(keys, deltas, watched, min, (n - 1) as nat);
        let row = sol_pairs_of(keys, deltas, min, n - 1, deltas.len());
        lemma_sol_pairs_below(keys, deltas, watched, min, (n - 1) as nat, p);
        lemma_sol_pairs_of(keys, deltas, min, n - 1, deltas.len(), p);
        lemma_contains_of_joined(rest, row, p);
        if is_sender(keys, deltas, watched, min, n - 1) && row.contains(p) {
            let j = choose|j: int|
                j < deltas.len() && #[trigger] is_receiver(deltas, min, n - 1, j) && p == (
                    keys[n - 1],
                    keys[j],
                );
            assert(is_receiver(deltas, min, n - 1, j));
        }
        if exists|i: int, j: int|
            i < n && is_sender(keys, deltas, watched, min, i) && #[trigger] is_receiver(
                deltas,
                min,
                i,
                j,
            ) && p == (keys[i], keys[j]) {
            let (i, j) = choose|i: int, j: int|
                i < n && is_sender(keys, deltas, watched, min, i) && #[trigger] is_receiver(
                    deltas,
                    min,
                    i,
                    j,
                ) && p == (keys[i], keys[j]);
            assert(is_receiver(deltas, min, i, j));
        }
    }
}

/// The native pairs are those of a watched account that lost at least the
/// threshold with another account that gained at least half of it.
pub proof fn law_sol_pairs(
    keys: Seq<Seq<char>>,
    deltas: Seq<i128>,
    watched: Seq<Seq<char>>,
    min: u64,
    p: (Seq<char>, Seq<char>),
)
    ensures
        sol_pairs(keys, deltas, watched, min).contains(p) <==> exists|i: int, j: int|
            is_sender(keys, deltas, watched, min, i) && #[trigger] is_receiver(deltas, min, i, j)
                && p == (keys[i], keys[j]),
{
    lemma_sol_pairs_below(keys, deltas, watched, min, keys.len(), p);
}

proof fn lemma_spl_candidates(
    pre: Seq<TokenBalance>,
    post: Seq<TokenBalance>,
    watch: Seq<char>,
    min: u64,
    n: nat,
)
    requires
        n <= post.len(),
    ensures
        forall|i: int|
            0 <= i < spl_candidates(pre, post, watch, min, n).len() ==> (
            #[trigger] spl_candidates(pre, post, watch, min, n)[i]).0 == watch
                && is_token_counterparty(
                pre,
                post,
                watch,
                min,
                spl_candidates(pre, post, watch, min, n)[i].1,
            ),
        forall|k: int|
            0 <= k < n && (#[trigger] post[k]).owner@ != watch && is_token_sender(
                pre,
                post,
                post[k].mint@,
                watch,
                min,
            ) && is_token_receiver(pre, post, post[k].mint@, post[k].owner@) ==> spl_candidates(
                pre,
                post,
                watch,
                min,
                n,
            ).contains((watch, post[k].owner@)),
    decreases n,
{
    if n > 0 {
        lemma_spl_candidates(pre, post, watch, min, (n - 1) as nat);
        let rest = spl_candidates(pre, post, watch, min, (n - 1) as nat);
        let list = spl_candidates(pre, post, watch, min, n);
        assert forall|k: int|
            0 <= k < n && (#[trigger] post[k]).owner@ != watch && is_token_sender(
                pre,
                post,
                post[k].mint@,
                watch,
                min,
            ) && is_token_receiver(
                pre,
                post,
                post[k].mint@,
                post[k].owner@,
            ) implies list.contains((watch, post[k].owner@)) by {
            if k == n - 1 {
                assert(list[rest.len() as int] == (watch, post[k].owner@));
            } else {
                assert(rest.contains((watch, post[k].owner@)));
                let m = choose|m: int| 0 <= m < rest.len() && rest[m] == (watch, post[k].owner@);
                assert(list[m] == (watch, post[k].owner@));
            }
        }
    }
}

/// The token pairs of a watched owner name each of its counterparties once,
/// in the order of their texts, and nobody else.
pub proof fn law_spl_pairs(
    pre: Seq<TokenBalance>,
    post: Seq<TokenBalance>,
    watch: Seq<char>,
    min: u64,
)
    ensures
        strictly_ascending(spl_pairs(pre, post, watch, min)),
        forall|p: (Seq<char>, Seq<char>)| #[trigger]
            spl_pairs(pre, post, watch, min).contains(p) <==> p.0 == watch
                && is_token_counterparty(pre, post, watch, min, p.1),
{
    let list = spl_candidates(pre, post, watch, min, post.len());
    lemma_spl_candidates(pre, post, watch, min, post.len());
    law_sorted_without_repetitions(list, watch);
    assert forall|p: (Seq<char>, Seq<char>)| #[trigger]
        spl_pairs(pre, post, watch, min).contains(p) <==> p.0 == watch && is_token_counterparty(
            pre,
            post,
            watch,
            min,
            p.1,
        ) by {
        if list.contains(p) {
            let k = choose|k: int| 0 <= k < list.len() && list[k] == p;
            assert(list[k].0 == watch);
        }
        if p.0 == watch && is_token_counterparty(pre, post, watch, min, p.1) {
            let mint = choose|mint: Seq<char>|
                #![trigger is_token_receiver(pre, post, mint, p.1)]
                is_token_sender(pre, post, mint, watch, min) && is_token_receiver(
                    pre,
                    post,
                    mint,
                    p.1,
                );
            let k = lemma_owner_total_has_entry(post, mint, p.1);
            assert(post[k].owner@ == p.1);
            assert(list.contains((watch, post[k].owner@)));
        }
    }
}

/// A token counterparty is another owner than the watched one, and never a
/// missing one.
pub proof fn law_counterparty_is_another_owner(
    pre: Seq<TokenBalance>,
    post: Seq<TokenBalance>,
    watch: Seq<char>,
    min: u64,
    owner: Seq<char>,
)
    requires
        is_token_counterparty(pre, post, watch, min, owner),
    ensures
        owner != watch,
        owner.len() > 0,
        watch.len() > 0,
{
    let mint = choose|mint: Seq<char>|
        #![trigger is_token_receiver(pre, post, mint, owner)]
        is_token_sender(pre, post, mint, watch, min) && is_token_receiver(pre, post, mint, owner);
    let _ = lemma_owner_total_has_entry(post, mint, owner);
    let _ = lemma_owner_total_has_entry(pre, mint, watch);
}

proof fn lemma_spl_pairs_of_all(
    pre: Seq<TokenBalance>,
    post: Seq<TokenBalance>,
    watched: Seq<Seq<char>>,
    min: u64,
    n: nat,
    p: (Seq<char>, Seq<char>),
)
    requires
        n <= watched.len(),
    ensures
        spl_pairs_of_all(pre, post, watched, min, n).contains(p) <==> watched.take(
            n as int,
        ).contains(p.0) && is_token_counterparty(pre, post, p.0, min, p.1),
    decreases n,
{
    if n > 0 {
        let last = watched[n - 1];
        let rest = watched.take(n - 1);
        let list = watched.take(n as int);
        lemma_spl_pairs_of_all(pre, post, watched, min, (n - 1) as nat, p);
        lemma_contains_of_joined(
            spl_pairs_of_all(pre, post, watched, min, (n - 1) as nat),
            spl_pairs(pre, post, last, min),
            p,
        );
        law_spl_pairs(pre, post, last, min);
        assert(list =~= rest + seq![last]);
        lemma_contains_of_joined(rest, seq![last], p.0);
        assert(seq![last][0] == last);
    }
}

/// The transfer pairs are ordered by counterparty without equal neighbours.
/// Each starts with a watched account, and they are exactly the native pairs
/// and the token pairs of the watched accounts.
pub proof fn law_transfer_pairs(
    keys: Seq<Seq<char>>,
    meta: TransactionStatusMeta,
    watched: Seq<Seq<char>>,
    min_native: u64,
    min_token: u64,
    p: (Seq<char>, Seq<char>),
)
    ensures
        ascending(transfer_pairs(keys, meta, watched, min_native, min_token)),
        forall|i: int|
            0 < i < transfer_pairs(keys, meta, watched, min_native, min_token).len()
                ==> #[trigger] transfer_pairs(keys, meta, watched, min_native, min_token)[i]
                != transfer_pairs(keys, meta, watched, min_native, min_token)[i - 1],
        transfer_pairs(keys, meta, watched, min_native, min_token).contains(p) <==> {
            ||| sol_pairs(keys, lamport_deltas(meta), watched, min_native).contains(p)
            ||| watched.contains(p.0) && is_token_counterparty(
                meta.pre_token_balances@,
                meta.post_token_balances@,
                p.0,
                min_token,
                p.1,
            )
        },
        transfer_pairs(keys, meta, watched, min_native, min_token).contains(p)
            ==> watched.contains(p.0),
{
    let native = sol_pairs(keys, lamport_deltas(meta), watched, min_native);
    let tokens = spl_pairs_of_all(
        meta.pre_token_balances@,
        meta.post_token_balances@,
        watched,
        min_token,
        watched.len(),
    );
    let found = found_pairs(keys, meta, watched, min_native, min_token);
    law_sort_is_stable(found);
    law_dedup_leaves_no_equal_neighbours(sort_pairs(found));
    lemma_contains_of_joined(native, tokens, p);
    lemma_spl_pairs_of_all(
        meta.pre_token_balances@,
        meta.post_token_balances@,
        watched,
        min_token,
        watched.len(),
        p,
    );
    assert(watched.take(watched.len() as int) =~= watched);
    assert(transfer_pairs(keys, meta, watched, min_native, min_token).contains(p) <==> sort_pairs(
        found,
    ).contains(p));
    assert(sort_pairs(found).contains(p) <==> found.contains(p));
    law_sol_pairs(keys, lamport_deltas(meta), watched, min_native, p);
}

/// A lower threshold finds every pair that a higher one finds.
pub proof fn law_lower_threshold_finds_more(
    keys: Seq<Seq<char>>,
    meta: TransactionStatusMeta,
    watched: Seq<Seq<char>>,
    low_native: u64,
    high_native: u64,
    low_token: u64,
    high_token: u64,
    p: (Seq<char>, Seq<char>),
)
    requires
        low_native <= high_native,
        low_token <= high_token,
        transfer_pairs(keys, meta, watched, high_native, high_token).contains(p),
    ensures
        transfer_pairs(keys, meta, watched, low_native, low_token).contains(p),
{
    let deltas = lamport_deltas(meta);
    let pre = meta.pre_token_balances@;
    let post = meta.post_token_balances@;
    law_transfer_pairs(keys, meta, watched, high_native, high_token, p);
    law_transfer_pairs(keys, meta, watched, low_native, low_token, p);
    law_sol_pairs(keys, deltas, watched, high_native, p);
    law_sol_pairs(keys, deltas, watched, low_native, p);
    if sol_pairs(keys, deltas, watched, high_native).contains(p) {
        let (i, j) = choose|i: int, j: int|
            is_sender(keys, deltas, watched, high_native, i) && #[trigger] is_receiver(
                deltas,
                high_native,
                i,
                j,
            ) && p == (keys[i], keys[j]);
        assert(is_sender(keys, deltas, watched, low_native, i));
        assert(is_receiver(deltas, low_native, i, j));
    } else {
        let mint = choose|mint: Seq<char>|
            #![trigger is_token_receiver(pre, post, mint, p.1)]
            is_token_sender(pre, post, mint, p.0, high_token) && is_token_receiver(
                pre,
                post,
                mint,
                p.1,
            );
        assert(is_token_sender(pre, post, mint, p.0, low_token));
        assert(is_token_receiver(pre, post, mint, p.1));
    }
}

/// A watched account that lost at least the threshold is paired with every
/// other account that gained at least half of it, wherever the two stand.
pub proof fn law_native_transfer_is_found(
    keys: Seq<Seq<char>>,
    deltas: Seq<i128>,
    watched: Seq<Seq<char>>,
    min: u64,
    i: int,
    j: int,
)
    requires
        0 <= i < keys.len(),
        0 <= i < deltas.len(),
        0 <= j < deltas.len(),
        i != j,
        watched.contains(keys[i]),
        deltas[i] < 0,
        -deltas[i] >= min,
        deltas[j] > 0,
        deltas[j] >= min / 2,
    ensures
        sol_pairs(keys, deltas, watched, min).contains((keys[i], keys[j])),
{
    law_sol_pairs(keys, deltas, watched, min, (keys[i], keys[j]));
    assert(is_sender(keys, deltas, watched, min, i));
    assert(is_receiver(deltas, min, i, j));
}

proof fn lemma_places_of_sender(
    keys: Seq<Seq<char>>,
    deltas: Seq<i128>,
    min: u64,
    i: int,
    n: nat,
) -> (at: Seq<(int, int)>)
    ensures
        at.len() == sol_pairs_of(keys, deltas, min, i, n).len(),
        forall|k: int|
            0 <= k < at.len() ==> (#[trigger] at[k]).0 == i && at[k].1 < n && is_receiver(
                deltas,
                min,
                i,
                at[k].1,
            ) && sol_pairs_of(keys, deltas, min, i, n)[k] == (keys[i], keys[at[k].1]),
        forall|k: int, m: int|
            0 <= k < m < at.len() ==> (#[trigger] at[k]).1 < (#[trigger] at[m]).1,
        forall|j: int| j < n && is_receiver(deltas, min, i, j) ==> #[trigger] at.contains((i, j)),
    decreases n,
{
    if n == 0 {
        Seq::empty()
    } else {
        let rest = lemma_places_of_sender(keys, deltas, min, i, (n - 1) as nat);
        if is_receiver(deltas, min, i, n - 1) {
            let at = rest.push((i, n - 1));
            assert forall|j: int| j < n && is_receiver(deltas, min, i, j) implies (
            #[trigger] at.contains((i, j))) by {
                if j < n - 1 {
                    assert(rest.contains((i, j)));
                    let k = choose|k: int| 0 <= k < rest.len() && rest[k] == (i, j);
                    assert(at[k] == (i, j));
                } else {
                    assert(at[rest.len() as int] == (i, j));
                }
            }
            at
        } else {
            rest
        }
    }
}

proof fn lemma_places_below(
    keys: Seq<Seq<char>>,
    deltas: Seq<i128>,
    watched: Seq<Seq<char>>,
    min: u64,
    n: nat,
) -> (at: Seq<(int, int)>)
    ensures
        at.len() == sol_pairs_below(keys, deltas, watched, min, n).len(),
        forall|k: int|
            0 <= k < at.len() ==> (#[trigger] at[k]).0 < n && is_sender(
                keys,
                deltas,
                watched,
                min,
                at[k].0,
            ) && is_receiver(deltas, min, at[k].0, at[k].1) && sol_pairs_below(
                keys,
                deltas,
                watched,
                min,
                n,
            )[k] == (keys[at[k].0], keys[at[k].1]),
        forall|k: int, m: int|
            0 <= k < m < at.len() ==> (#[trigger] at[k]).0 < (#[trigger] at[m]).0 || (at[k].0
                == at[m].0 && at[k].1 < at[m].1),
        forall|i: int, j: int|
            i < n && is_sender(keys, deltas, watched, min, i) && is_receiver(deltas, min, i, j)
                ==> #[trigger] at.contains((i, j)),
    decreases n,
{
    if n == 0 {
        Seq::empty()
    } else {
        let rest = lemma_places_below(keys, deltas, watched, min, (n - 1) as nat);
        if is_sender(keys, deltas, watched, min, n - 1) {
            let row = lemma_places_of_sender(keys, deltas, min, n - 1, deltas.len());
            let at = rest + row;
            assert forall|i: int, j: int|
                i < n && is_sender(keys, deltas, watched, min, i) && is_receiver(
                    deltas,
                    min,
                    i,
                    j,
                ) implies #[trigger] at.contains((i, j)) by {
                lemma_contains_of_joined(rest, row, (i, j));
                if i < n - 1 {
                    assert(rest.contains((i, j)));
                } else {
                    assert(row.contains((i, j)));
                }
            }
            at
        } else {
            rest
        }
    }
}

/// The native pairs stand for pairs of places in the account list: `at` has
/// the place of the sender and that of the receiver for each of them. Places
/// come in ascending order and none twice, and they are exactly those of a
/// watched account that lost at least the threshold with another account that
/// gained at least half of it.
pub proof fn law_native_pairs_by_place(
    keys: Seq<Seq<char>>,
    deltas: Seq<i128>,
    watched: Seq<Seq<char>>,
    min: u64,
) -> (at: Seq<(int, int)>)
    ensures
        at.len() == sol_pairs(keys, deltas, watched, min).len(),
        forall|k: int|
            0 <= k < at.len() ==> {
                let (i, j) = #[trigger] at[k];
                &&& sol_pairs(keys, deltas, watched, min)[k] == (keys[i], keys[j])
                &&& 0 <= i < keys.len()
                &&& i < deltas.len()
                &&& 0 <= j < deltas.len()
                &&& i != j
                &&& watched.contains(keys[i])
                &&& deltas[i] < 0
                &&& -deltas[i] >= min
                &&& deltas[j] > 0
                &&& deltas[j] >= min / 2
            },
        forall|k: int, m: int|
            0 <= k < m < at.len() ==> (#[trigger] at[k]).0 < (#[trigger] at[m]).0 || (at[k].0
                == at[m].0 && at[k].1 < at[m].1),
        forall|i: int, j: int|
            0 <= i < keys.len() && i < deltas.len() && 0 <= j < deltas.len() && i != j
                && watched.contains(keys[i]) && deltas[i] < 0 && -deltas[i] >= min && deltas[j] > 0
                && deltas[j] >= min / 2 ==> #[trigger] at.contains((i, j)),
{
    let at = lemma_places_below(keys, deltas, watched, min, keys.len());
    assert forall|i: int, j: int|
        0 <= i < keys.len() && i < deltas.len() && 0 <= j < deltas.len() && i != j
            && watched.contains(keys[i]) && deltas[i] < 0 && -deltas[i] >= min && deltas[j] > 0
            && deltas[j] >= min / 2 implies #[trigger] at.contains((i, j)) by {
        assert(is_sender(keys, deltas, watched, min, i));
        assert(is_receiver(deltas, min, i, j));
    }
    at
}

/// All receivers have keys exactly where no account beyond the list of keys
/// gained half the threshold while a watched one lost all of it. So they do
/// wherever there are no more changes than keys.
pub proof fn law_receivers_have_keys(
    keys: Seq<Seq<char>>,
    deltas: Seq<i128>,
    watched: Seq<Seq<char>>,
    min: u64,
)
    ensures
        receivers_have_keys(keys, deltas, watched, min) <==> forall|i: int, j: int|
            #![trigger deltas[i], deltas[j]]
            0 <= i < keys.len() && i < deltas.len() && keys.len() <= j < deltas.len()
                && watched.contains(keys[i]) && deltas[i] < 0 && -deltas[i] >= min ==> deltas[j]
                <= 0 || deltas[j] < min / 2,
        deltas.len() <= keys.len() ==> receivers_have_keys(keys, deltas, watched, min),
{
    if receivers_have_keys(keys, deltas, watched, min) {
        assert forall|i: int, j: int|
            #![trigger deltas[i], deltas[j]]
            0 <= i < keys.len() && i < deltas.len() && keys.len() <= j < deltas.len()
                && watched.contains(keys[i]) && deltas[i] < 0 && -deltas[i] >= min implies deltas[j]
            <= 0 || deltas[j] < min / 2 by {
            assert(is_sender(keys, deltas, watched, min, i));
            if deltas[j] > 0 && deltas[j] >= min / 2 {
                assert(is_receiver(deltas, min, i, j));
            }
        }
    }
    if forall|i: int, j: int|
        #![trigger deltas[i], deltas[j]]
        0 <= i < keys.len() && i < deltas.len() && keys.len() <= j < deltas.len()
            && watched.contains(keys[i]) && deltas[i] < 0 && -deltas[i] >= min ==> deltas[j] <= 0
            || deltas[j] < min / 2 {
        assert forall|i: int, j: int|
            #![trigger is_receiver(deltas, min, i, j)]
            is_sender(keys, deltas, watched, min, i) && is_receiver(
                deltas,
                min,
                i,
                j,
            ) implies j < keys.len() by {
            if j >= keys.len() {
                assert(deltas[i] < 0 && deltas[j] > 0);
            }
        }
    }
}

/// What an owner holds of a token adds up balance by balance. One more balance
/// raises it by the amount of that balance where mint and owner agree and the
/// owner is not missing, whatever account the balance is of.
pub proof fn law_owner_total_of_one_more(
    balances: Seq<TokenBalance>,
    balance: TokenBalance,
    mint: Seq<char>,
    owner: Seq<char>,
)
    ensures
        owner_total(Seq::empty(), mint, owner) == 0,
        owner_total(balances.push(balance), mint, owner) == owner_total(balances, mint, owner) + (
        if balance.mint@ == mint && balance.owner@ == owner && owner.len() > 0 {
            raw_amount(balance) as int
        } else {
            0int
        }),
{
    assert(balances.push(balance).drop_last() =~= balances);
}

/// What an owner holds of a token in two lists together is what it holds in
/// the one and in the other.
pub proof fn law_owner_total_of_joined(
    a: Seq<TokenBalance>,
    b: Seq<TokenBalance>,
    mint: Seq<char>,
    owner: Seq<char>,
)
    ensures
        owner_total(a + b, mint, owner) == owner_total(a, mint, owner) + owner_total(
            b,
            mint,
            owner,
        ),
    decreases b.len(),
{
    if b.len() == 0 {
        assert(a + b =~= a);
    } else {
        law_owner_total_of_joined(a, b.drop_last(), mint, owner);
        assert((a + b).drop_last() =~= a + b.drop_last());
    }
}

/// Which accounts the balances are of makes no difference to what an owner
/// holds: only mints, owners and amounts do.
pub proof fn law_owner_total_ignores_accounts(
    a: Seq<TokenBalance>,
    b: Seq<TokenBalance>,
    mint: Seq<char>,
    owner: Seq<char>,
)
    requires
        a.len() == b.len(),
        forall|i: int|
            0 <= i < a.len() ==> (#[trigger] a[i]).mint@ == b[i].mint@ && a[i].owner@ == b[i].owner@
                && a[i].ui_token_amount == b[i].ui_token_amount,
    ensures
        owner_total(a, mint, owner) == owner_total(b, mint, owner),
    decreases a.len(),
{
    if a.len() > 0 {
        assert(a[a.len() - 1].mint@ == b[b.len() - 1].mint@);
        assert forall|i: int| 0 <= i < a.len() - 1 implies (#[trigger] a.drop_last()[i]).mint@
            == b.drop_last()[i].mint@ && a.drop_last()[i].owner@ == b.drop_last()[i].owner@
            && a.drop_last()[i].ui_token_amount == b.drop_last()[i].ui_token_amount by {
            assert(a[i].mint@ == b[i].mint@);
        }
        law_owner_total_ignores_accounts(a.drop_last(), b.drop_last(), mint, owner);
    }
}

/// The totals fit exactly where that of each balance's own mint and owner
/// does.
pub proof fn law_totals_fit(balances: Seq<TokenBalance>)
    ensures
        totals_fit(balances) <==> forall|k: int|
            0 <= k < balances.len() ==> owner_total(
                balances,
                (#[trigger] balances[k]).mint@,
                balances[k].owner@,
            ) <= u64::MAX,
{
    if forall|k: int|
        0 <= k < balances.len() ==> owner_total(
            balances,
            (#[trigger] balances[k]).mint@,
            balances[k].owner@,
        ) <= u64::MAX {
        assert forall|mint: Seq<char>, owner: Seq<char>| #[trigger]
            owner_total(balances, mint, owner) <= u64::MAX by {
            if owner_total(balances, mint, owner) > 0 {
                let k = lemma_owner_total_has_entry(balances, mint, owner);
                assert(balances[k].mint@ == mint);
            }
        }
    }
}

/// A watched owner whose holding of a token fell by at least the threshold is
/// paired with every other owner whose holding of it rose.
pub proof fn law_token_transfer_is_found(
    pre: Seq<TokenBalance>,
    post: Seq<TokenBalance>,
    watch: Seq<char>,
    min: u64,
    mint: Seq<char>,
    owner: Seq<char>,
)
    requires
        owner != watch,
        owner_total(pre, mint, watch) > owner_total(post, mint, watch),
        owner_total(pre, mint, watch) - owner_total(post, mint, watch) >= min,
        owner_total(post, mint, owner) > owner_total(pre, mint, owner),
    ensures
        spl_pairs(pre, post, watch, min).contains((watch, owner)),
{
    law_spl_pairs(pre, post, watch, min);
    assert(is_token_sender(pre, post, mint, watch, min));
    assert(is_token_receiver(pre, post, mint, owner));
    assert(is_token_counterparty(pre, post, watch, min, owner));
    let p = (watch, owner);
    assert(spl_pairs(pre, post, watch, min).contains(p) <==> p.0 == watch
        && is_token_counterparty(pre, post, watch, min, p.1));
}

/// Each token pair starts with the watched owner and has a token behind it, of
/// which the watched owner's holding fell by at least the threshold and the
/// other owner's rose. The other owners come in the order of their texts, each
/// once.
pub proof fn law_token_pair_has_cause(
    pre: Seq<TokenBalance>,
    post: Seq<TokenBalance>,
    watch: Seq<char>,
    min: u64,
    k: int,
) -> (mint: Seq<char>)
    requires
        0 <= k < spl_pairs(pre, post, watch, min).len(),
    ensures
        spl_pairs(pre, post, watch, min)[k].0 == watch,
        spl_pairs(pre, post, watch, min)[k].1 != watch,
        owner_total(pre, mint, watch) > owner_total(post, mint, watch),
        owner_total(pre, mint, watch) - owner_total(post, mint, watch) >= min,
        owner_total(post, mint, spl_pairs(pre, post, watch, min)[k].1) > owner_total(
            pre,
            mint,
            spl_pairs(pre, post, watch, min)[k].1,
        ),
        forall|m: int|
            0 <= m < k ==> text_lt(
                (#[trigger] spl_pairs(pre, post, watch, min)[m]).1,
                spl_pairs(pre, post, watch, min)[k].1,
            ),
{
    law_spl_pairs(pre, post, watch, min);
    let p = spl_pairs(pre, post, watch, min)[k];
    assert(spl_pairs(pre, post, watch, min).contains(p));
    choose|mint: Seq<char>|
        #![trigger is_token_receiver(pre, post, mint, p.1)]
        is_token_sender(pre, post, mint, watch, min) && is_token_receiver(pre, post, mint, p.1)
}

proof fn lemma_token_pairs_of_first(
    pre: Seq<TokenBalance>,
    post: Seq<TokenBalance>,
    watched: Seq<Seq<char>>,
    more: Seq<char>,
    min: u64,
    n: nat,
)
    requires
        n <= watched.len(),
    ensures
        spl_pairs_of_all(pre, post, watched.push(more), min, n) == spl_pairs_of_all(
            pre,
            post,
            watched,
            min,
            n,
        ),
    decreases n,
{
    if n > 0 {
        lemma_token_pairs_of_first(pre, post, watched, more, min, (n - 1) as nat);
    }
}

/// The token pairs of one more watched owner come behind those of the others.
pub proof fn law_token_pairs_of_one_more(
    pre: Seq<TokenBalance>,
    post: Seq<TokenBalance>,
    watched: Seq<Seq<char>>,
    more: Seq<char>,
    min: u64,
)
    ensures
        spl_pairs_of_all(pre, post, Seq::empty(), min, 0).len() == 0,
        spl_pairs_of_all(pre, post, watched.push(more), min, watched.push(more).len())
            == spl_pairs_of_all(pre, post, watched, min, watched.len()) + spl_pairs(
            pre,
            post,
            more,
            min,
        ),
{
    lemma_token_pairs_of_first(pre, post, watched, more, min, watched.len());
}

/// What is reported is the native pairs and behind them the token pairs, put
/// in order and without repetitions. The native ones compare the balances
/// before and after the transaction, and the token ones the token balances.
pub proof fn law_report_joins_native_and_token_pairs(
    keys: Seq<Seq<char>>,
    meta: TransactionStatusMeta,
    watched: Seq<Seq<char>>,
    min_native: u64,
    min_token: u64,
    deltas: Seq<i128>,
)
    requires
        deltas.len() == if meta.pre_balances@.len() <= meta.post_balances@.len() {
            meta.pre_balances@.len()
        } else {
            meta.post_balances@.len()
        },
        forall|i: int|
            0 <= i < deltas.len() ==> #[trigger] deltas[i] == meta.post_balances@[i]
                - meta.pre_balances@[i],
    ensures
        transfer_pairs(keys, meta, watched, min_native, min_token) == dedup_pairs(
            sort_pairs(
                sol_pairs(keys, deltas, watched, min_native) + spl_pairs_of_all(
                    meta.pre_token_balances@,
                    meta.post_token_balances@,
                    watched,
                    min_token,
                    watched.len(),
                ),
            ),
        ),
{
    assert(deltas =~= lamport_deltas(meta));
}

/// A watched account whose lamports fell by at least the threshold is reported
/// with every other account whose lamports rose by at least half of it.
pub proof fn law_native_transfer_is_reported(
    keys: Seq<Seq<char>>,
    meta: TransactionStatusMeta,
    watched: Seq<Seq<char>>,
    min_native: u64,
    min_token: u64,
    i: int,
    j: int,
)
    requires
        meta.pre_balances@.len() == keys.len(),
        meta.post_balances@.len() == keys.len(),
        0 <= i < keys.len(),
        0 <= j < keys.len(),
        i != j,
        watched.contains(keys[i]),
        meta.pre_balances@[i] > meta.post_balances@[i],
        meta.pre_balances@[i] - meta.post_balances@[i] >= min_native,
        meta.post_balances@[j] > meta.pre_balances@[j],
        meta.post_balances@[j] - meta.pre_balances@[j] >= min_native / 2,
    ensures
        transfer_pairs(keys, meta, watched, min_native, min_token).contains((keys[i], keys[j])),
{
    let deltas = lamport_deltas(meta);
    law_lamport_deltas(meta, i);
    law_lamport_deltas(meta, j);
    law_native_transfer_is_found(keys, deltas, watched, min_native, i, j);
    law_transfer_pairs(keys, meta, watched, min_native, min_token, (keys[i], keys[j]));
}

/// A watched owner whose holding of a token fell by at least the threshold is
/// reported with every other owner whose holding of it rose.
pub proof fn law_token_transfer_is_reported(
    keys: Seq<Seq<char>>,
    meta: TransactionStatusMeta,
    watched: Seq<Seq<char>>,
    min_native: u64,
    min_token: u64,
    w: int,
    mint: Seq<char>,
    owner: Seq<char>,
)
    requires
        0 <= w < watched.len(),
        owner != watched[w],
        owner_total(meta.pre_token_balances@, mint, watched[w]) > owner_total(
            meta.post_token_balances@,
            mint,
            watched[w],
        ),
        owner_total(meta.pre_token_balances@, mint, watched[w]) - owner_total(
            meta.post_token_balances@,
            mint,
            watched[w],
        ) >= min_token,
        owner_total(meta.post_token_balances@, mint, owner) > owner_total(
            meta.pre_token_balances@,
            mint,
            owner,
        ),
    ensures
        transfer_pairs(keys, meta, watched, min_native, min_token).contains((watched[w], owner)),
{
    let pre = meta.pre_token_balances@;
    let post = meta.post_token_balances@;
    assert(is_token_sender(pre, post, mint, watched[w], min_token));
    assert(is_token_receiver(pre, post, mint, owner));
    assert(is_token_counterparty(pre, post, watched[w], min_token, owner));
    assert(watched.contains(watched[w]));
    law_transfer_pairs(keys, meta, watched, min_native, min_token, (watched[w], owner));
}

/// A pair is reported for a reason only: a watched account whose lamports fell
/// far enough and another whose lamports rose far enough, or a token of which
/// a watched owner's holding fell far enough and another owner's rose. The
/// second texts are in order, and no pair equals the one before it.
pub proof fn law_reported_pair_has_cause(
    keys: Seq<Seq<char>>,
    meta: TransactionStatusMeta,
    watched: Seq<Seq<char>>,
    min_native: u64,
    min_token: u64,
    k: int,
) -> (cause: (int, int, Seq<char>))
    requires
        meta.pre_balances@.len() == keys.len(),
        meta.post_balances@.len() == keys.len(),
        0 <= k < transfer_pairs(keys, meta, watched, min_native, min_token).len(),
    ensures
        ({
            let (i, j, mint) = cause;
            let p = transfer_pairs(keys, meta, watched, min_native, min_token)[k];
            let pre = meta.pre_token_balances@;
            let post = meta.post_token_balances@;
            &&& watched.contains(p.0)
            &&& {
                ||| {
                    &&& 0 <= i < keys.len()
                    &&& 0 <= j < keys.len()
                    &&& i != j
                    &&& p == (keys[i], keys[j])
                    &&& meta.pre_balances@[i] > meta.post_balances@[i]
                    &&& meta.pre_balances@[i] - meta.post_balances@[i] >= min_native
                    &&& meta.post_balances@[j] > meta.pre_balances@[j]
                    &&& meta.post_balances@[j] - meta.pre_balances@[j] >= min_native / 2
                }
                ||| {
                    &&& p.0 != p.1
                    &&& owner_total(pre, mint, p.0) > owner_total(post, mint, p.0)
                    &&& owner_total(pre, mint, p.0) - owner_total(post, mint, p.0) >= min_token
                    &&& owner_total(post, mint, p.1) > owner_total(pre, mint, p.1)
                }
            }
        }),
        forall|m: int|
            0 <= m < k ==> !text_lt(
                transfer_pairs(keys, meta, watched, min_native, min_token)[k].1,
                (#[trigger] transfer_pairs(keys, meta, watched, min_native, min_token)[m]).1,
            ),
        k > 0 ==> transfer_pairs(keys, meta, watched, min_native, min_token)[k - 1]
            != transfer_pairs(keys, meta, watched, min_native, min_token)[k],
{
    let list = transfer_pairs(keys, meta, watched, min_native, min_token);
    let p = list[k];
    let pre = meta.pre_token_balances@;
    let post = meta.post_token_balances@;
    let deltas = lamport_deltas(meta);
    assert(list.contains(p));
    law_transfer_pairs(keys, meta, watched, min_native, min_token, p);
    if sol_pairs(keys, deltas, watched, min_native).contains(p) {
        let at = law_native_pairs_by_place(keys, deltas, watched, min_native);
        let native = sol_pairs(keys, deltas, watched, min_native);
        let m = choose|m: int| 0 <= m < native.len() && native[m] == p;
        let (i, j) = at[m];
        law_lamport_deltas(meta, i);
        law_lamport_deltas(meta, j);
        (i, j, Seq::empty())
    } else {
        let mint = choose|mint: Seq<char>|
            #![trigger is_token_receiver(pre, post, mint, p.1)]
            is_token_sender(pre, post, mint, p.0, min_token) && is_token_receiver(
                pre,
                post,
                mint,
                p.1,
            );
        (0, 0, mint)
    }
}

/// There is something to report on exactly where the transaction has a
/// message, every listed and loaded account has 32 bytes, and there is one
/// balance before and one after for each listed and each loaded account. What
/// else the transaction did makes no difference.
pub proof fn law_transaction_is_reported_on(tx: Transaction, meta: TransactionStatusMeta)
    ensures
        balances_match(account_count(tx, meta), meta) <==> {
            &&& tx.message is Some
            &&& forall|i: int|
                0 <= i < (tx.message->0).account_keys@.len() ==> (
                #[trigger] (tx.message->0).account_keys@[i])@.len() == 32
            &&& forall|i: int|
                0 <= i < meta.loaded_writable_addresses@.len() ==> (
                #[trigger] meta.loaded_writable_addresses@[i])@.len() == 32
            &&& forall|i: int|
                0 <= i < meta.loaded_readonly_addresses@.len() ==> (
                #[trigger] meta.loaded_readonly_addresses@[i])@.len() == 32
            &&& meta.pre_balances@.len() == (tx.message->0).account_keys@.len()
                + meta.loaded_writable_addresses@.len() + meta.loaded_readonly_addresses@.len()
            &&& meta.post_balances@.len() == (tx.message->0).account_keys@.len()
                + meta.loaded_writable_addresses@.len() + meta.loaded_readonly_addresses@.len()
        },
        forall|n: nat| #[trigger]
            balances_match(Some(n), meta) <==> meta.pre_balances@.len() == n
                && meta.post_balances@.len() == n,
{
    law_accounts_of_a_transaction(tx, meta);
}

}
