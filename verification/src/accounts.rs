//! The accounts that a transaction names, as keys and as texts.

use std::sync::Arc;

use vstd::prelude::*;

use crate::keys::{Pubkey, key_from_slice, pubkey_bytes_to_bs58, read_pubkey_fast};
use crate::keys::{base58_text, default_key, key_of, read_key};
use crate::keys::{law_default_key_is_zero, law_key_of_bytes, law_read_key};
use crate::transaction::{Transaction, TransactionStatusMeta};

verus! {

/// The accounts that the message of a transaction lists itself, in order.
pub open spec fn static_keys(tx: Option<Transaction>) -> Seq<Pubkey> {
    match tx {
        Some(Transaction { message: Some(message) }) => message.account_keys@.map_values(
            |bytes: Vec<u8>| read_key(bytes@),
        ),
        _ => Seq::empty(),
    }
}

/// The account that pays for a transaction: the first that its message lists.
pub open spec fn fee_payer_of(tx: Option<Transaction>) -> Pubkey {
    if static_keys(tx).len() > 0 {
        static_keys(tx)[0]
    } else {
        default_key()
    }
}

/// The listed accounts are those of the message, one for each byte string and
/// in the same order. A byte string that is not 32 bytes long reads as zeros.
pub proof fn law_static_keys(tx: Option<Transaction>)
    ensures
        match tx {
            Some(t) => match t.message {
                Some(message) => {
                    &&& static_keys(tx).len() == message.account_keys@.len()
                    &&& forall|i: int|
                        0 <= i < message.account_keys@.len() ==> (#[trigger] static_keys(
                            tx,
                        )[i]).bytes@ == if message.account_keys@[i]@.len() == 32 {
                            message.account_keys@[i]@
                        } else {
                            Seq::new(32, |b: int| 0u8)
                        }
                },
                None => static_keys(tx).len() == 0,
            },
            None => static_keys(tx).len() == 0,
        },
{
    if let Some(t) = tx {
        if let Some(message) = t.message {
            assert forall|i: int| 0 <= i < message.account_keys@.len() implies (
            #[trigger] static_keys(tx)[i]).bytes@ == if message.account_keys@[i]@.len() == 32 {
                message.account_keys@[i]@
            } else {
                Seq::new(32, |b: int| 0u8)
            } by {
                law_read_key(message.account_keys@[i]@);
            }
        }
    }
}

/// The payer is the first account that the message lists, where that has 32
/// bytes, and the key of zeros everywhere else.
pub proof fn law_fee_payer(tx: Option<Transaction>)
    ensures
        fee_payer_of(tx).bytes@ == match tx {
            Some(t) => match t.message {
                Some(message) => if message.account_keys@.len() > 0
                    && message.account_keys@[0]@.len() == 32 {
                    message.account_keys@[0]@
                } else {
                    Seq::new(32, |b: int| 0u8)
                },
                None => Seq::new(32, |b: int| 0u8),
            },
            None => Seq::new(32, |b: int| 0u8),
        },
{
    law_default_key_is_zero();
    law_static_keys(tx);
    if let Some(t) = tx {
        if let Some(message) = t.message {
            if message.account_keys@.len() > 0 {
                assert(static_keys(tx)[0] == fee_payer_of(tx));
            }
        }
    }
}

/// Calls `From<Vec<T>>` of std's `Arc<[T]>`, which moves the items of the
/// vector into a shared slice.
#[verifier::external_body]
fn share_keys(keys: Vec<Pubkey>) -> (r: Arc<[Pubkey]>)
    ensures
        r@ == keys@,
{
    Arc::from(keys)
}

/// The keys of a list of byte strings.
pub fn read_keys(list: &[Vec<u8>]) -> (r: Vec<Pubkey>)
    ensures
        r@ == list@.map_values(|bytes: Vec<u8>| read_key(bytes@)),
{
    let mut keys: Vec<Pubkey> = Vec::new();
    let mut i: usize = 0;
    while i < list.len()
        invariant
            i <= list@.len(),
            keys@.len() == i,
            forall|j: int| 0 <= j < i ==> #[trigger] keys@[j] == read_key(list@[j]@),
        decreases list@.len() - i,
    {
        keys.push(read_pubkey_fast(list[i].as_slice()));
        i = i + 1;
    }
    assert(keys@ =~= list@.map_values(|bytes: Vec<u8>| read_key(bytes@)));
    keys
}

/// The accounts that the message of a transaction lists itself. Accounts
/// loaded from lookup tables are not among them.
pub fn yellowstone_static_account_keys_arc(tx: &Option<Transaction>) -> (r: Arc<[Pubkey]>)
    ensures
        r@ == static_keys(*tx),
        match tx {
            Some(t) => match t.message {
                Some(message) => {
                    &&& r@.len() == message.account_keys@.len()
                    &&& forall|i: int|
                        0 <= i < message.account_keys@.len() ==> (#[trigger] r@[i]).bytes@
                            == if message.account_keys@[i]@.len() == 32 {
                            message.account_keys@[i]@
                        } else {
                            Seq::new(32, |b: int| 0u8)
                        }
                },
                None => r@.len() == 0,
            },
            None => r@.len() == 0,
        },
{
    proof {
        law_static_keys(*tx);
    }
    match tx {
        Some(t) => match &t.message {
            Some(message) => share_keys(read_keys(message.account_keys.as_slice())),
            None => share_keys(Vec::new()),
        },
        None => share_keys(Vec::new()),
    }
}

/// The account that pays for a transaction, or the default key where its
/// message lists no account.
pub fn yellowstone_fee_payer(tx: &Option<Transaction>) -> (r: Pubkey)
    ensures
        r == fee_payer_of(*tx),
{
    match tx {
        Some(t) => match &t.message {
            Some(message) => if message.account_keys.len() > 0 {
                read_pubkey_fast(message.account_keys[0].as_slice())
            } else {
                Pubkey::default()
            },
            None => Pubkey::default(),
        },
        None => Pubkey::default(),
    }
}

/// The texts of a list of strings, some of which may be missing.
pub open spec fn optional_texts(list: Seq<Option<String>>) -> Seq<Option<Seq<char>>> {
    list.map_values(
        |s: Option<String>|
            match s {
                Some(text) => Some(text@),
                None => None,
            },
    )
}

/// The texts of a list of strings.
pub open spec fn texts(list: Seq<String>) -> Seq<Seq<char>> {
    list.map_values(|s: String| s@)
}

/// The texts of a list are those of its strings, each at its place.
pub proof fn law_texts_keep_places(list: Seq<String>, optional: Seq<Option<String>>)
    ensures
        texts(list).len() == list.len(),
        forall|i: int| 0 <= i < list.len() ==> #[trigger] texts(list)[i] == list[i]@,
        optional_texts(optional).len() == optional.len(),
        forall|i: int|
            0 <= i < optional.len() ==> #[trigger] optional_texts(optional)[i]
                == match optional[i] {
                Some(text) => Some(text@),
                None => None,
            },
{
}

/// Whether no text of a list is missing.
pub open spec fn all_present(list: Seq<Option<Seq<char>>>) -> bool {
    forall|i: int| 0 <= i < list.len() ==> (#[trigger] list[i]) is Some
}

/// The text of a 32-byte key, and nothing for any other length.
pub open spec fn key_text(bytes: Seq<u8>) -> Option<Seq<char>> {
    if bytes.len() == 32 {
        Some(base58_text(bytes))
    } else {
        None
    }
}

/// The texts of a list of byte strings.
pub open spec fn key_texts(list: Seq<Vec<u8>>) -> Seq<Option<Seq<char>>> {
    list.map_values(|bytes: Vec<u8>| key_text(bytes@))
}

/// The account list of a transaction: the texts of the keys of its message and
/// then those of the loaded ones, none of which may be missing.
pub open spec fn account_list(
    listed: Seq<Option<Seq<char>>>,
    writable: Seq<Option<Seq<char>>>,
    readonly: Seq<Option<Seq<char>>>,
) -> Option<Seq<Seq<char>>> {
    if all_present(listed) && all_present(writable) && all_present(readonly) {
        Some((listed + writable + readonly).map_values(|text: Option<Seq<char>>| text->0))
    } else {
        None
    }
}

/// The byte strings of all accounts of a transaction, in the order in which
/// its status lists their balances.
pub open spec fn account_bytes(tx: Transaction, meta: TransactionStatusMeta) -> Seq<Vec<u8>> {
    match tx.message {
        Some(message) => message.account_keys@ + meta.loaded_writable_addresses@
            + meta.loaded_readonly_addresses@,
        None => Seq::empty(),
    }
}

/// Whether a transaction has a message and each of its accounts is a key.
pub open spec fn accounts_are_keys(tx: Transaction, meta: TransactionStatusMeta) -> bool {
    tx.message is Some && forall|i: int|
        0 <= i < account_bytes(tx, meta).len() ==> (#[trigger] account_bytes(tx, meta)[i])@.len()
            == 32
}

/// How many accounts a transaction has, unless it has no message or one of
/// them is not a key.
pub open spec fn account_count(tx: Transaction, meta: TransactionStatusMeta) -> Option<nat> {
    if accounts_are_keys(tx, meta) {
        Some(account_bytes(tx, meta).len())
    } else {
        None
    }
}

/// The texts of all accounts of a transaction, unless it has no message or
/// one of them is not a key.
pub open spec fn account_texts(tx: Transaction, meta: TransactionStatusMeta) -> Option<
    Seq<Seq<char>>,
> {
    if accounts_are_keys(tx, meta) {
        Some(account_bytes(tx, meta).map_values(|bytes: Vec<u8>| base58_text(bytes@)))
    } else {
        None
    }
}

/// The keys of all accounts of a transaction, unless it has no message or
/// one of them is not a key.
pub open spec fn account_pubkeys(tx: Option<Transaction>, meta: TransactionStatusMeta) -> Option<
    Seq<Pubkey>,
> {
    match tx {
        Some(t) => if accounts_are_keys(t, meta) {
            Some(account_bytes(t, meta).map_values(|bytes: Vec<u8>| key_of(bytes@)))
        } else {
            None
        },
        None => None,
    }
}

proof fn lemma_account_list(tx: Transaction, meta: TransactionStatusMeta)
    requires
        tx.message is Some,
    ensures
        account_list(
            key_texts(tx.message->0.account_keys@),
            key_texts(meta.loaded_writable_addresses@),
            key_texts(meta.loaded_readonly_addresses@),
        ) == account_texts(tx, meta),
{
    let all = account_bytes(tx, meta);
    let first = tx.message->0.account_keys@;
    let second = meta.loaded_writable_addresses@;
    let third = meta.loaded_readonly_addresses@;
    let joined = key_texts(first) + key_texts(second) + key_texts(third);
    assert(joined =~= key_texts(all));
    if all_present(key_texts(first)) && all_present(key_texts(second)) && all_present(
        key_texts(third),
    ) {
        assert forall|i: int| 0 <= i < all.len() implies (#[trigger] all[i])@.len() == 32 by {
            assert(joined[i] is Some);
            assert(key_texts(all)[i] is Some);
        }
        assert(joined.map_values(|text: Option<Seq<char>>| text->0) =~= all.map_values(
            |bytes: Vec<u8>| base58_text(bytes@),
        ));
    }
    if accounts_are_keys(tx, meta) {
        assert forall|i: int| 0 <= i < first.len() implies (#[trigger] key_texts(
            first,
        )[i]) is Some by {
            assert(all[i]@.len() == 32);
        }
        assert forall|i: int| 0 <= i < second.len() implies (#[trigger] key_texts(
            second,
        )[i]) is Some by {
            assert(all[first.len() + i]@.len() == 32);
        }
        assert forall|i: int| 0 <= i < third.len() implies (#[trigger] key_texts(
            third,
        )[i]) is Some by {
            assert(all[first.len() + second.len() + i]@.len() == 32);
        }
    }
}

/// The accounts of a transaction are those of its message, then the writable
/// and then the readonly ones that were loaded.
pub proof fn law_account_order(tx: Transaction, meta: TransactionStatusMeta)
    ensures
        match tx.message {
            Some(message) => {
                let listed = message.account_keys@;
                let writable = meta.loaded_writable_addresses@;
                let readonly = meta.loaded_readonly_addresses@;
                let all = account_bytes(tx, meta);
                &&& all.len() == listed.len() + writable.len() + readonly.len()
                &&& forall|i: int| 0 <= i < listed.len() ==> all[i] == #[trigger] listed[i]
                &&& forall|i: int|
                    0 <= i < writable.len() ==> all[listed.len() + i] == #[trigger] writable[i]
                &&& forall|i: int|
                    0 <= i < readonly.len() ==> all[listed.len() + writable.len() + i]
                        == #[trigger] readonly[i]
            },
            None => account_bytes(tx, meta).len() == 0,
        },
{
}

/// A transaction has its accounts counted, as texts and as keys exactly where
/// it has a message and every listed and loaded account has 32 bytes. The keys
/// are then those bytes.
pub proof fn law_accounts_of_a_transaction(tx: Transaction, meta: TransactionStatusMeta)
    ensures
        match tx.message {
            Some(message) => {
                let whole = {
                    &&& forall|i: int|
                        0 <= i < message.account_keys@.len() ==> (
                        #[trigger] message.account_keys@[i])@.len() == 32
                    &&& forall|i: int|
                        0 <= i < meta.loaded_writable_addresses@.len() ==> (
                        #[trigger] meta.loaded_writable_addresses@[i])@.len() == 32
                    &&& forall|i: int|
                        0 <= i < meta.loaded_readonly_addresses@.len() ==> (
                        #[trigger] meta.loaded_readonly_addresses@[i])@.len() == 32
                };
                &&& account_count(tx, meta) is Some <==> whole
                &&& account_texts(tx, meta) is Some <==> whole
                &&& account_pubkeys(Some(tx), meta) is Some <==> whole
                &&& whole ==> account_count(tx, meta) == Some(
                    message.account_keys@.len() + meta.loaded_writable_addresses@.len()
                        + meta.loaded_readonly_addresses@.len(),
                )
                &&& account_pubkeys(Some(tx), meta) matches Some(keys) ==> keys.len()
                    == account_bytes(tx, meta).len() && forall|i: int|
                    0 <= i < keys.len() ==> (#[trigger] keys[i]).bytes@ == account_bytes(
                        tx,
                        meta,
                    )[i]@
            },
            None => account_count(tx, meta) is None && account_texts(tx, meta) is None
                && account_pubkeys(Some(tx), meta) is None,
        },
        account_pubkeys(None, meta) is None,
{
    if let Some(message) = tx.message {
        let all = account_bytes(tx, meta);
        let listed = message.account_keys@;
        let writable = meta.loaded_writable_addresses@;
        let readonly = meta.loaded_readonly_addresses@;
        law_account_order(tx, meta);
        if accounts_are_keys(tx, meta) {
            assert forall|i: int| 0 <= i < listed.len() implies (#[trigger] listed[i])@.len()
                == 32 by {
                assert(all[i]@.len() == 32);
            }
            assert forall|i: int| 0 <= i < writable.len() implies (#[trigger] writable[i])@.len()
                == 32 by {
                assert(all[listed.len() + i]@.len() == 32);
            }
            assert forall|i: int| 0 <= i < readonly.len() implies (#[trigger] readonly[i])@.len()
                == 32 by {
                assert(all[listed.len() + writable.len() + i]@.len() == 32);
            }
            let keys = account_pubkeys(Some(tx), meta)->0;
            assert forall|i: int| 0 <= i < keys.len() implies (#[trigger] keys[i]).bytes@
                == all[i]@ by {
                assert(all[i]@.len() == 32);
                law_key_of_bytes(all[i]@);
            }
        }
        if (forall|i: int| 0 <= i < listed.len() ==> (#[trigger] listed[i])@.len() == 32) && (
        forall|i: int| 0 <= i < writable.len() ==> (#[trigger] writable[i])@.len() == 32) && (
        forall|i: int| 0 <= i < readonly.len() ==> (#[trigger] readonly[i])@.len() == 32) {
            assert forall|i: int| 0 <= i < all.len() implies (#[trigger] all[i])@.len() == 32 by {
                if i < listed.len() {
                    assert(all[i] == listed[i]);
                } else if i < listed.len() + writable.len() {
                    assert(all[i] == writable[i - listed.len()]);
                } else {
                    assert(all[i] == readonly[i - listed.len() - writable.len()]);
                }
            }
        }
    }
}

/// The account list of a transaction has one text for each account, in the
/// order in which its status lists their balances. There is none where the
/// message is missing or an account is not a key.
pub proof fn law_account_list_matches_balances(tx: Transaction, meta: TransactionStatusMeta)
    ensures
        match account_texts(tx, meta) {
            Some(keys) => {
                &&& tx.message is Some
                &&& account_count(tx, meta) == Some(keys.len())
                &&& keys.len() == account_bytes(tx, meta).len()
                &&& forall|i: int|
                    0 <= i < keys.len() ==> account_bytes(tx, meta)[i]@.len() == 32
                        && #[trigger] keys[i] == base58_text(account_bytes(tx, meta)[i]@)
            },
            None => {
                &&& account_count(tx, meta) is None
                &&& tx.message is None || exists|i: int|
                    0 <= i < account_bytes(tx, meta).len() && (#[trigger] account_bytes(
                        tx,
                        meta,
                    )[i])@.len() != 32
            },
        },
{
}

/// The keys and the texts of a transaction exist together. They stand for the
/// same accounts in the same order, and those that its message lists come
/// first.
pub proof fn law_keys_and_texts_agree(tx: Transaction, meta: TransactionStatusMeta)
    ensures
        account_texts(tx, meta) is Some <==> account_pubkeys(Some(tx), meta) is Some,
        account_pubkeys(Some(tx), meta) matches Some(keys) ==> {
            &&& (account_texts(tx, meta)->0).len() == keys.len()
            &&& forall|i: int|
                0 <= i < keys.len() ==> #[trigger] (account_texts(tx, meta)->0)[i] == base58_text(
                    keys[i]@,
                )
            &&& static_keys(Some(tx)).is_prefix_of(keys)
        },
{
    if let Some(keys) = account_pubkeys(Some(tx), meta) {
        let all = account_bytes(tx, meta);
        assert forall|i: int| 0 <= i < all.len() implies keys[i]@ == #[trigger] all[i]@ && keys[i]
            == read_key(all[i]@) by {
            assert(all[i]@.len() == 32);
            law_key_of_bytes(all[i]@);
        }
        assert forall|i: int| 0 <= i < keys.len() implies #[trigger] (account_texts(tx, meta)->0)[i]
            == base58_text(keys[i]@) by {
            assert(keys[i]@ == all[i]@);
        }
        let listed = static_keys(Some(tx));
        assert(listed =~= keys.take(listed.len() as int)) by {
            assert forall|i: int| 0 <= i < listed.len() implies listed[i] == keys[i] by {
                assert(all[i] == tx.message->0.account_keys@[i]);
            }
        }
    }
}

/// The text of each key of a list, where it is a key.
pub fn encode_keys(list: &[Vec<u8>]) -> (r: Vec<Option<String>>)
    ensures
        optional_texts(r@) == key_texts(list@),
        r@.len() == list@.len(),
        forall|i: int|
            0 <= i < list@.len() ==> match #[trigger] r@[i] {
                Some(text) => list@[i]@.len() == 32 && text@ == base58_text(list@[i]@),
                None => list@[i]@.len() != 32,
            },
{
    let mut out: Vec<Option<String>> = Vec::new();
    let mut i: usize = 0;
    while i < list.len()
        invariant
            i <= list@.len(),
            out@.len() == i,
            forall|k: int| 0 <= k < i ==> #[trigger] optional_texts(out@)[k] == key_text(list@[k]@),
        decreases list@.len() - i,
    {
        let ghost so_far = out@;
        out.push(pubkey_bytes_to_bs58(list[i].as_slice()));
        assert forall|k: int| 0 <= k < i + 1 implies #[trigger] optional_texts(out@)[k]
            == key_text(list@[k]@) by {
            if k < i {
                assert(optional_texts(so_far)[k] == key_text(list@[k]@));
            }
        }
        i = i + 1;
    }
    assert(optional_texts(out@) =~= key_texts(list@));
    assert forall|k: int| 0 <= k < list@.len() implies match #[trigger] out@[k] {
        Some(text) => list@[k]@.len() == 32 && text@ == base58_text(list@[k]@),
        None => list@[k]@.len() != 32,
    } by {
        assert(optional_texts(out@)[k] == key_text(list@[k]@));
    }
    out
}

/// The texts of a list, unless one is missing.
fn all_texts(list: &[Option<String>]) -> (r: Option<Vec<String>>)
    ensures
        r is Some <==> all_present(optional_texts(list@)),
        r is Some <==> forall|i: int| 0 <= i < list@.len() ==> (#[trigger] list@[i]) is Some,
        r matches Some(out) ==> {
            &&& out@.len() == list@.len()
            &&& forall|i: int|
                0 <= i < list@.len() ==> list@[i] is Some && (#[trigger] out@[i])@ == (
                list@[i]->0)@
            &&& forall|i: int|
                0 <= i < list@.len() ==> optional_texts(list@)[i] == Some((#[trigger] out@[i])@)
        },
{
    let ghost wanted = optional_texts(list@);
    let mut out: Vec<String> = Vec::new();
    let mut i: usize = 0;
    while i < list.len()
        invariant
            i <= list@.len(),
            wanted == optional_texts(list@),
            out@.len() == i,
            forall|k: int| 0 <= k < i ==> wanted[k] == Some((#[trigger] out@[k])@),
        decreases list@.len() - i,
    {
        match &list[i] {
            Some(text) => {
                assert(wanted[i as int] == Some(text@));
                out.push(text.clone());
            },
            None => {
                assert(wanted[i as int] is None);
                return None;
            },
        }
        i = i + 1;
    }
    assert forall|k: int| 0 <= k < wanted.len() implies (#[trigger] wanted[k]) is Some by {
        assert(wanted[k] == Some(out@[k]@));
    }
    assert forall|k: int| 0 <= k < list@.len() implies (#[trigger] list@[k]) is Some by {
        assert(wanted[k] == Some(out@[k]@));
    }
    assert forall|k: int| 0 <= k < list@.len() implies list@[k] is Some && (#[trigger] out@[k])@
        == (list@[k]->0)@ by {
        assert(wanted[k] == Some(out@[k]@));
    }
    Some(out)
}

/// Joins the account texts of a transaction: those of its message and those
/// of the loaded accounts. None may be missing.
pub fn join_account_keys(
    listed: &[Option<String>],
    writable: &[Option<String>],
    readonly: &[Option<String>],
) -> (r: Option<Vec<String>>)
    ensures
        match r {
            Some(keys) => account_list(
                optional_texts(listed@),
                optional_texts(writable@),
                optional_texts(readonly@),
            ) == Some(texts(keys@)),
            None => account_list(
                optional_texts(listed@),
                optional_texts(writable@),
                optional_texts(readonly@),
            ) is None,
        },
        r is Some <==> (forall|i: int| 0 <= i < listed@.len() ==> (#[trigger] listed@[i]) is Some)
            && (forall|i: int| 0 <= i < writable@.len() ==> (#[trigger] writable@[i]) is Some) && (
        forall|i: int| 0 <= i < readonly@.len() ==> (#[trigger] readonly@[i]) is Some),
        r matches Some(keys) ==> {
            &&& keys@.len() == listed@.len() + writable@.len() + readonly@.len()
            &&& forall|i: int|
                0 <= i < keys@.len() ==> (#[trigger] keys@[i])@ == ((listed@ + writable@
                    + readonly@)[i]->0)@
        },
{
    match (all_texts(listed), all_texts(writable), all_texts(readonly)) {
        (Some(mut keys), Some(mut second), Some(mut third)) => {
            keys.append(&mut second);
            keys.append(&mut third);
            assert(texts(keys@) =~= account_list(
                optional_texts(listed@),
                optional_texts(writable@),
                optional_texts(readonly@),
            )->0);
            Some(keys)
        },
        _ => None,
    }
}

/// The texts of the accounts of a transaction: the keys of its message, and
/// then the writable and the readonly ones loaded from lookup tables. This is
/// the order in which its status lists their balances.
///
/// A key that is not 32 bytes long fails the whole list, since the texts behind
/// it would no longer stand at the places of their balances. A missing message
/// fails it too.
pub fn collect_account_keys_bs58(tx: &Transaction, meta: &TransactionStatusMeta) -> (r: Option<
    Vec<String>,
>)
    ensures
        match r {
            Some(keys) => {
                &&& tx.message is Some
                &&& keys@.len() == account_bytes(*tx, *meta).len()
                &&& forall|i: int|
                    0 <= i < keys@.len() ==> account_bytes(*tx, *meta)[i]@.len() == 32
                        && #[trigger] keys@[i]@ == base58_text(account_bytes(*tx, *meta)[i]@)
                &&& account_texts(*tx, *meta) == Some(texts(keys@))
            },
            None => {
                &&& tx.message is None || exists|i: int|
                    0 <= i < account_bytes(*tx, *meta).len() && (#[trigger] account_bytes(
                        *tx,
                        *meta,
                    )[i])@.len() != 32
                &&& account_texts(*tx, *meta) is None
            },
        },
{
    match &tx.message {
        Some(message) => {
            let listed = encode_keys(message.account_keys.as_slice());
            let writable = encode_keys(meta.loaded_writable_addresses.as_slice());
            let readonly = encode_keys(meta.loaded_readonly_addresses.as_slice());
            let r = join_account_keys(
                listed.as_slice(),
                writable.as_slice(),
                readonly.as_slice(),
            );
            proof {
                lemma_account_list(*tx, *meta);
                law_account_list_matches_balances(*tx, *meta);
                if let Some(keys) = &r {
                    assert forall|i: int| 0 <= i < keys@.len() implies account_bytes(
                        *tx,
                        *meta,
                    )[i]@.len() == 32 && #[trigger] keys@[i]@ == base58_text(
                        account_bytes(*tx, *meta)[i]@,
                    ) by {
                        assert((account_texts(*tx, *meta)->0)[i] == texts(keys@)[i]);
                    }
                }
            }
            r
        },
        None => None,
    }
}

/// The keys of a list, unless one of its byte strings is not 32 bytes long.
fn all_pubkeys(list: &[Vec<u8>]) -> (r: Option<Vec<Pubkey>>)
    ensures
        r is Some <==> forall|i: int| 0 <= i < list@.len() ==> (#[trigger] list@[i])@.len() == 32,
        r matches Some(keys) ==> keys@ == list@.map_values(|bytes: Vec<u8>| key_of(bytes@)),
{
    let mut keys: Vec<Pubkey> = Vec::new();
    let mut i: usize = 0;
    while i < list.len()
        invariant
            i <= list@.len(),
            keys@ =~= list@.take(i as int).map_values(|bytes: Vec<u8>| key_of(bytes@)),
            forall|k: int| 0 <= k < i ==> (#[trigger] list@[k])@.len() == 32,
        decreases list@.len() - i,
    {
        match key_from_slice(list[i].as_slice()) {
            Some(key) => keys.push(key),
            None => {
                return None;
            },
        }
        i = i + 1;
    }
    assert(list@.take(i as int) =~= list@);
    Some(keys)
}

/// The keys of all accounts of a transaction, unless it has no message or one
/// of them is not 32 bytes long.
pub fn collect_account_keys_pubkeys(
    tx: &Option<Transaction>,
    meta: &TransactionStatusMeta,
) -> (r: Option<Vec<Pubkey>>)
    ensures
        match r {
            Some(keys) => {
                &&& account_pubkeys(*tx, *meta) == Some(keys@)
                &&& tx is Some
                &&& keys@.len() == account_bytes(tx->0, *meta).len()
                &&& forall|i: int|
                    0 <= i < keys@.len() ==> (#[trigger] keys@[i]).bytes@ == account_bytes(
                        tx->0,
                        *meta,
                    )[i]@
            },
            None => account_pubkeys(*tx, *meta) is None,
        },
{
    proof {
        if let Some(t) = tx {
            law_accounts_of_a_transaction(*t, *meta);
        }
    }
    match tx {
        Some(t) => match &t.message {
            Some(message) => {
                let ghost all = account_bytes(*t, *meta);
                let ghost first = message.account_keys@;
                let ghost second = meta.loaded_writable_addresses@;
                let ghost third = meta.loaded_readonly_addresses@;
                proof {
                    assert(all == first + second + third);
                    assert forall|i: int| 0 <= i < first.len() implies (#[trigger] first[i])
                        == all[i] by {}
                    assert forall|i: int| 0 <= i < second.len() implies (#[trigger] second[i])
                        == all[first.len() + i] by {}
                    assert forall|i: int| 0 <= i < third.len() implies (#[trigger] third[i])
                        == all[first.len() + second.len() + i] by {}
                }
                match (
                    all_pubkeys(message.account_keys.as_slice()),
                    all_pubkeys(meta.loaded_writable_addresses.as_slice()),
                    all_pubkeys(meta.loaded_readonly_addresses.as_slice()),
                ) {
                    (Some(mut keys), Some(mut writable), Some(mut readonly)) => {
                        keys.append(&mut writable);
                        keys.append(&mut readonly);
                        assert(keys@ =~= all.map_values(|bytes: Vec<u8>| key_of(bytes@)));
                        Some(keys)
                    },
                    _ => None,
                }
            },
            None => None,
        },
        None => None,
    }
}

}
