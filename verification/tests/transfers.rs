use transaction_meta::transfers::{
    check_receivers_have_keys, checked_owner_total, token_totals_fit, transfer_pairs_for_keys,
};
use transaction_meta::{
    collect_watch_transfer_counterparty_pairs, heuristic_sol_counterparties_for_watched_keys,
    lamport_balance_deltas, pubkey_bytes_to_bs58, spl_token_counterparty_by_owner,
    token_balance_raw_amount, Message, TokenBalance, Transaction, TransactionStatusMeta,
    UiTokenAmount,
};

fn strings(list: &[&str]) -> Vec<String> {
    list.iter().map(|s| s.to_string()).collect()
}

fn pairs(list: &[(&str, &str)]) -> Vec<(String, String)> {
    list.iter().map(|(a, b)| (a.to_string(), b.to_string())).collect()
}

fn balance(mint: &str, owner: &str, amount: &str) -> TokenBalance {
    TokenBalance {
        mint: mint.to_string(),
        owner: owner.to_string(),
        ui_token_amount: Some(UiTokenAmount { amount: amount.to_string() }),
        ..Default::default()
    }
}

fn tokens(pre: Vec<TokenBalance>, post: Vec<TokenBalance>) -> TransactionStatusMeta {
    TransactionStatusMeta {
        pre_token_balances: pre,
        post_token_balances: post,
        ..Default::default()
    }
}

#[test]
fn raw_amount_reads_decimal_text() {
    assert_eq!(token_balance_raw_amount(&balance("m", "o", "0")), 0);
    assert_eq!(token_balance_raw_amount(&balance("m", "o", "1500")), 1500);
    assert_eq!(token_balance_raw_amount(&balance("m", "o", "+42")), 42);
    assert_eq!(token_balance_raw_amount(&balance("m", "o", "007")), 7);
    assert_eq!(token_balance_raw_amount(&balance("m", "o", "18446744073709551615")), u64::MAX);
}

#[test]
fn raw_amount_of_anything_else_is_zero() {
    for text in [
        "", "+", "-1", "1.5", " 1", "1 ", "1_000", "++1", "abc", "1a", "18446744073709551616",
        "99999999999999999999999",
    ] {
        assert_eq!(token_balance_raw_amount(&balance("m", "o", text)), 0, "{text:?}");
    }
    assert_eq!(token_balance_raw_amount(&TokenBalance::default()), 0);
}

#[test]
fn deltas_are_post_minus_pre() {
    let meta = TransactionStatusMeta {
        pre_balances: vec![10, 0, u64::MAX, 5],
        post_balances: vec![3, u64::MAX, 0],
        ..Default::default()
    };
    assert_eq!(lamport_balance_deltas(&meta), vec![-7, u64::MAX as i128, -(u64::MAX as i128)]);
    assert!(lamport_balance_deltas(&TransactionStatusMeta::default()).is_empty());
}

#[test]
fn native_sender_is_paired_with_each_receiver() {
    let keys = strings(&["a", "b", "c", "d"]);
    let found = heuristic_sol_counterparties_for_watched_keys(
        &keys,
        &[-1000, 600, 400, 300],
        &strings(&["a"]),
        700,
    );
    assert_eq!(found, pairs(&[("a", "b"), ("a", "c")]));
}

#[test]
fn native_thresholds_are_inclusive() {
    let keys = strings(&["a", "b", "c"]);
    let watched = strings(&["a"]);
    let at = heuristic_sol_counterparties_for_watched_keys(&keys, &[-100, 50, 49], &watched, 100);
    assert_eq!(at, pairs(&[("a", "b")]));
    let below = heuristic_sol_counterparties_for_watched_keys(&keys, &[-99, 50, 49], &watched, 100);
    assert!(below.is_empty());
    let odd = heuristic_sol_counterparties_for_watched_keys(&keys, &[-5, 2, 1], &watched, 5);
    assert_eq!(odd, pairs(&[("a", "b")]));
}

#[test]
fn native_pairs_need_a_movement_at_threshold_zero() {
    let keys = strings(&["a", "b", "c"]);
    let watched = strings(&["a", "c"]);
    let found = heuristic_sol_counterparties_for_watched_keys(&keys, &[-1, 1, 0], &watched, 0);
    assert_eq!(found, pairs(&[("a", "b")]));
}

#[test]
fn native_sender_that_is_not_watched_is_ignored() {
    let keys = strings(&["a", "b"]);
    let found =
        heuristic_sol_counterparties_for_watched_keys(&keys, &[-10, 10], &strings(&["b", "x"]), 1);
    assert!(found.is_empty());
    assert!(heuristic_sol_counterparties_for_watched_keys(&keys, &[-10, 10], &[], 1).is_empty());
}

#[test]
fn native_account_without_a_delta_sends_nothing() {
    let keys = strings(&["a", "b", "c"]);
    let found = heuristic_sol_counterparties_for_watched_keys(
        &keys,
        &[-10, 10],
        &strings(&["a", "c"]),
        0,
    );
    assert_eq!(found, pairs(&[("a", "b")]));
}

#[test]
fn receivers_need_keys_only_where_someone_sends() {
    let keys = strings(&["a"]);
    assert!(check_receivers_have_keys(&keys, &[5, 10], &strings(&["a"]), 1));
    assert!(check_receivers_have_keys(&keys, &[-5, 0], &strings(&["a"]), 1));
    assert!(check_receivers_have_keys(&keys, &[-5, 10], &strings(&["b"]), 1));
    assert!(!check_receivers_have_keys(&keys, &[-5, 10], &strings(&["a"]), 1));
}

#[test]
fn token_sender_is_paired_with_receivers_of_the_same_token() {
    let meta = tokens(
        vec![balance("m", "w", "100"), balance("m", "b", "5"), balance("n", "c", "1")],
        vec![
            balance("m", "w", "40"),
            balance("m", "d", "20"),
            balance("m", "b", "45"),
            balance("n", "c", "9"),
        ],
    );
    let found = spl_token_counterparty_by_owner(&meta, "w", 60);
    assert_eq!(found, pairs(&[("w", "b"), ("w", "d")]));
    assert!(spl_token_counterparty_by_owner(&meta, "w", 61).is_empty());
    assert!(spl_token_counterparty_by_owner(&meta, "b", 0).is_empty());
}

#[test]
fn token_counterparty_of_two_tokens_is_named_once() {
    let meta = tokens(
        vec![balance("m", "w", "10"), balance("n", "w", "10")],
        vec![balance("m", "b", "10"), balance("n", "b", "10"), balance("n", "a", "1")],
    );
    assert_eq!(spl_token_counterparty_by_owner(&meta, "w", 1), pairs(&[("w", "a"), ("w", "b")]));
}

#[test]
fn token_accounts_of_one_owner_are_added_up() {
    let meta = tokens(
        vec![balance("m", "w", "10"), balance("m", "w", "20"), balance("m", "b", "7")],
        vec![balance("m", "w", "15"), balance("m", "b", "3"), balance("m", "b", "4")],
    );
    assert!(spl_token_counterparty_by_owner(&meta, "w", 15).is_empty());
    let total = checked_owner_total(&meta.pre_token_balances, &"m".to_string(), &"w".to_string());
    assert_eq!(total, Some(30));
}

#[test]
fn token_threshold_zero_still_needs_a_decrease() {
    let meta = tokens(vec![balance("m", "w", "10")], vec![
        balance("m", "w", "10"),
        balance("m", "b", "10"),
    ]);
    assert!(spl_token_counterparty_by_owner(&meta, "w", 0).is_empty());
    let sent = tokens(vec![balance("m", "w", "10")], vec![
        balance("m", "w", "9"),
        balance("m", "b", "1"),
    ]);
    assert_eq!(spl_token_counterparty_by_owner(&sent, "w", 0), pairs(&[("w", "b")]));
}

#[test]
fn token_balances_without_an_owner_are_ignored() {
    let meta = tokens(vec![balance("m", "w", "10"), balance("m", "", "3")], vec![
        balance("m", "", "13"),
    ]);
    assert!(spl_token_counterparty_by_owner(&meta, "w", 1).is_empty());
    assert!(spl_token_counterparty_by_owner(&meta, "", 1).is_empty());
    let total = checked_owner_total(&meta.pre_token_balances, &"m".to_string(), &String::new());
    assert_eq!(total, Some(0));
}

#[test]
fn totals_above_64_bits_are_noticed() {
    let max = u64::MAX.to_string();
    assert!(token_totals_fit(&[balance("m", "a", &max), balance("m", "b", "1")]));
    assert!(token_totals_fit(&[balance("m", "", &max), balance("m", "", "1")]));
    assert!(!token_totals_fit(&[balance("m", "a", &max), balance("m", "a", "1")]));
    let over = [balance("m", "a", &max), balance("m", "a", "1")];
    assert_eq!(checked_owner_total(&over, &"m".to_string(), &"a".to_string()), None);
}

#[test]
fn transfer_pairs_are_ordered_by_counterparty() {
    let mut meta = tokens(vec![balance("m", "a", "10"), balance("m", "b", "10")], vec![
        balance("m", "c", "5"),
        balance("m", "x", "15"),
    ]);
    meta.pre_balances = vec![100, 0, 0];
    meta.post_balances = vec![0, 60, 40];
    let found = transfer_pairs_for_keys(
        &strings(&["a", "z", "c"]),
        &meta,
        &strings(&["b", "a"]),
        10,
        1,
    );
    assert_eq!(
        found,
        Some(pairs(&[("a", "c"), ("b", "c"), ("a", "c"), ("b", "x"), ("a", "x"), ("a", "z")]))
    );
}

#[test]
fn repeated_pairs_are_merged_where_they_meet() {
    let mut meta = tokens(vec![balance("m", "a", "10")], vec![balance("m", "c", "10")]);
    meta.pre_balances = vec![100, 0];
    meta.post_balances = vec![0, 100];
    let found =
        transfer_pairs_for_keys(&strings(&["a", "c"]), &meta, &strings(&["a", "a"]), 10, 1);
    assert_eq!(found, Some(pairs(&[("a", "c")])));
}

#[test]
fn balances_must_match_the_accounts() {
    let mut meta = TransactionStatusMeta::default();
    meta.pre_balances = vec![1, 2];
    meta.post_balances = vec![1];
    assert_eq!(transfer_pairs_for_keys(&strings(&["a"]), &meta, &strings(&["a"]), 1, 1), None);
    assert_eq!(transfer_pairs_for_keys(&strings(&["a", "b"]), &meta, &[], 1, 1), None);
}

#[test]
fn lower_threshold_finds_every_pair_of_a_higher_one() {
    let mut meta = tokens(vec![balance("m", "a", "10"), balance("n", "a", "4")], vec![
        balance("m", "c", "10"),
        balance("n", "d", "4"),
    ]);
    meta.pre_balances = vec![100, 0, 0];
    meta.post_balances = vec![0, 80, 20];
    let keys = strings(&["a", "b", "c"]);
    let watched = strings(&["a"]);
    let high = transfer_pairs_for_keys(&keys, &meta, &watched, 100, 5).unwrap();
    let low = transfer_pairs_for_keys(&keys, &meta, &watched, 10, 1).unwrap();
    assert_eq!(high, pairs(&[("a", "b"), ("a", "c")]));
    assert_eq!(low, pairs(&[("a", "b"), ("a", "c"), ("a", "d")]));
    assert!(high.iter().all(|p| low.contains(p)));
}

#[test]
fn watched_transfers_of_a_whole_transaction() {
    let text = |n: u8| pubkey_bytes_to_bs58(&[n; 32]).unwrap();
    let tx = Transaction {
        message: Some(Message {
            account_keys: vec![vec![1; 32], vec![2; 32]],
            ..Default::default()
        }),
    };
    let mut meta = tokens(
        vec![balance("m", &text(2), "10")],
        vec![balance("m", &text(1), "10")],
    );
    meta.loaded_readonly_addresses = vec![vec![3; 32]];
    meta.pre_balances = vec![100, 0, 0];
    meta.post_balances = vec![0, 0, 90];
    let found =
        collect_watch_transfer_counterparty_pairs(&tx, &meta, &[text(1), text(2)], 100, 10);
    let mut expected = vec![(text(1), text(3)), (text(2), text(1))];
    expected.sort_by(|a, b| a.1.cmp(&b.1));
    assert_eq!(found, Some(expected));
    meta.post_balances.pop();
    let missing =
        collect_watch_transfer_counterparty_pairs(&tx, &meta, &[text(1), text(2)], 100, 10);
    assert_eq!(missing, None);
    let no_message = Transaction { message: None };
    assert_eq!(collect_watch_transfer_counterparty_pairs(&no_message, &meta, &[], 1, 1), None);
}

#[test]
fn malformed_account_is_not_skipped_over() {
    let text = |n: u8| pubkey_bytes_to_bs58(&[n; 32]).unwrap();
    let tx = Transaction {
        message: Some(Message {
            account_keys: vec![vec![9; 31], vec![1; 32], vec![2; 32]],
            ..Default::default()
        }),
    };
    let mut meta = tokens(vec![], vec![]);
    meta.pre_balances = vec![0, 100];
    meta.post_balances = vec![100, 0];
    assert_eq!(collect_watch_transfer_counterparty_pairs(&tx, &meta, &[text(2)], 100, 1), None);
    meta.pre_balances = vec![0, 0, 100];
    meta.post_balances = vec![0, 100, 0];
    assert_eq!(collect_watch_transfer_counterparty_pairs(&tx, &meta, &[text(2)], 100, 1), None);
}
