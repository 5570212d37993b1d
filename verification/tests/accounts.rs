use transaction_meta::accounts::{encode_keys, join_account_keys};
use transaction_meta::{
    collect_account_keys_bs58, collect_account_keys_pubkeys, pubkey_bytes_to_bs58,
    yellowstone_fee_payer, yellowstone_static_account_keys_arc, Message, Pubkey, Transaction,
    TransactionStatusMeta,
};

fn key(n: u8) -> Vec<u8> {
    vec![n; 32]
}

fn text(n: u8) -> String {
    pubkey_bytes_to_bs58(&[n; 32]).unwrap()
}

fn transaction(keys: Vec<Vec<u8>>) -> Transaction {
    Transaction { message: Some(Message { account_keys: keys, ..Default::default() }) }
}

fn loaded(writable: Vec<Vec<u8>>, readonly: Vec<Vec<u8>>) -> TransactionStatusMeta {
    TransactionStatusMeta {
        loaded_writable_addresses: writable,
        loaded_readonly_addresses: readonly,
        ..Default::default()
    }
}

#[test]
fn account_list_is_in_balance_order() {
    let tx = transaction(vec![key(1), key(2)]);
    let meta = loaded(vec![key(3)], vec![key(4), key(5)]);
    assert_eq!(
        collect_account_keys_bs58(&tx, &meta),
        Some(vec![text(1), text(2), text(3), text(4), text(5)])
    );
    let keys = collect_account_keys_pubkeys(&Some(tx), &meta).unwrap();
    let expected: Vec<Pubkey> = (1..=5u8).map(|n| Pubkey { bytes: [n; 32] }).collect();
    assert_eq!(keys, expected);
}

#[test]
fn malformed_listed_key_fails_the_list() {
    let meta = loaded(vec![key(3)], vec![]);
    for listed in [
        vec![key(1), vec![9u8; 31], key(2)],
        vec![vec![9u8; 31], key(2)],
        vec![key(1), key(2), vec![9u8; 33]],
        vec![key(1), vec![]],
    ] {
        let tx = transaction(listed);
        assert_eq!(collect_account_keys_bs58(&tx, &meta), None);
        assert_eq!(collect_account_keys_pubkeys(&Some(tx), &meta), None);
    }
}

#[test]
fn malformed_loaded_key_fails_the_list() {
    let tx = transaction(vec![key(1)]);
    let writable = loaded(vec![key(3), vec![]], vec![key(4)]);
    let readonly = loaded(vec![key(3)], vec![vec![0u8; 33]]);
    assert_eq!(collect_account_keys_bs58(&tx, &writable), None);
    assert_eq!(collect_account_keys_bs58(&tx, &readonly), None);
    assert_eq!(collect_account_keys_pubkeys(&Some(tx.clone()), &writable), None);
    assert_eq!(collect_account_keys_pubkeys(&Some(tx), &readonly), None);
}

#[test]
fn without_a_message_there_is_no_account_list() {
    let meta = loaded(vec![key(3)], vec![]);
    let tx = Transaction { message: None };
    assert_eq!(collect_account_keys_bs58(&tx, &meta), None);
    assert_eq!(collect_account_keys_pubkeys(&Some(tx), &meta), None);
    assert_eq!(collect_account_keys_pubkeys(&None, &meta), None);
}

#[test]
fn joining_texts_fails_where_one_is_missing() {
    let some = |s: &str| Some(s.to_string());
    let joined = join_account_keys(
        &[some("a"), some("b")],
        &[some("c")],
        &[some("d"), some("e")],
    );
    let expected: Vec<String> = ["a", "b", "c", "d", "e"].iter().map(|s| s.to_string()).collect();
    assert_eq!(joined, Some(expected));
    assert_eq!(join_account_keys(&[some("a"), None, some("b")], &[some("c")], &[some("d")]), None);
    assert_eq!(join_account_keys(&[some("a")], &[None], &[]), None);
    assert_eq!(join_account_keys(&[some("a")], &[], &[some("b"), None]), None);
    assert_eq!(join_account_keys(&[], &[], &[]), Some(vec![]));
}

#[test]
fn encoding_keeps_the_places_of_malformed_keys() {
    assert_eq!(encode_keys(&[key(1), vec![1], key(2)]), vec![Some(text(1)), None, Some(text(2))]);
}

#[test]
fn static_keys_leave_out_loaded_accounts() {
    let tx = Some(transaction(vec![key(1), vec![1, 2, 3], key(2)]));
    let keys = yellowstone_static_account_keys_arc(&tx);
    assert_eq!(
        keys.to_vec(),
        vec![Pubkey { bytes: [1; 32] }, Pubkey::default(), Pubkey { bytes: [2; 32] }]
    );
    assert_eq!(keys[0], yellowstone_fee_payer(&tx));
}

#[test]
fn static_keys_are_empty_without_a_message() {
    assert_eq!(yellowstone_static_account_keys_arc(&None).len(), 0);
    assert_eq!(yellowstone_static_account_keys_arc(&Some(Transaction { message: None })).len(), 0);
}

#[test]
fn fee_payer_is_the_first_listed_account() {
    let tx = Some(transaction(vec![key(6), key(7)]));
    assert_eq!(yellowstone_fee_payer(&tx), Pubkey { bytes: [6; 32] });
    assert_eq!(yellowstone_fee_payer(&Some(transaction(vec![]))), Pubkey::default());
    assert_eq!(yellowstone_fee_payer(&Some(transaction(vec![vec![1]]))), Pubkey::default());
    assert_eq!(yellowstone_fee_payer(&Some(Transaction { message: None })), Pubkey::default());
    assert_eq!(yellowstone_fee_payer(&None), Pubkey::default());
}
