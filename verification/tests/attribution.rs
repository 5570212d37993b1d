use transaction_meta::attribution::{
    collect_signer_keys, find_sole_seller, set_users_to_account_owners, set_users_to_sole_sellers,
    sum_sales,
};
use transaction_meta::holdings::{read_holdings, sum_held, TokenHolding};
use transaction_meta::{
    fill_pumpfun_instruction_users_from_token_balances,
    fill_pumpfun_routed_sell_users_from_signer_token_deltas, fill_pumpfun_transaction_fee_payer,
    pubkey_bytes_to_bs58, DexEvent, Message, MessageHeader, Pubkey, PumpFunTradeEvent,
    TokenBalance, Transaction, TransactionStatusMeta, UiTokenAmount,
};

fn unique() -> Pubkey {
    Pubkey { bytes: solana_sdk::pubkey::Pubkey::new_unique().to_bytes() }
}

fn key(n: u8) -> Pubkey {
    Pubkey { bytes: [n; 32] }
}

fn text(key: Pubkey) -> String {
    pubkey_bytes_to_bs58(&key.bytes).unwrap()
}

fn token_balance(account_index: u32, mint: Pubkey, owner: Pubkey, amount: u64) -> TokenBalance {
    TokenBalance {
        account_index,
        mint: text(mint),
        owner: text(owner),
        ui_token_amount: Some(UiTokenAmount { amount: amount.to_string() }),
    }
}

fn transaction(required: u32, keys: &[Pubkey]) -> Option<Transaction> {
    Some(Transaction {
        message: Some(Message {
            header: Some(MessageHeader { num_required_signatures: required }),
            account_keys: keys.iter().map(|k| k.bytes.to_vec()).collect(),
        }),
    })
}

fn trade(event: &DexEvent) -> PumpFunTradeEvent {
    *event.trade().expect("a trade")
}

#[test]
fn fills_outer_fee_payer_without_overwriting_pumpfun_user() {
    let fee_payer = unique();
    let inner_user = unique();
    let tx = Some(Transaction {
        message: Some(Message {
            account_keys: vec![fee_payer.bytes.to_vec()],
            ..Default::default()
        }),
    });
    let mut events: Vec<DexEvent> = vec![DexEvent::PumpFunTrade(PumpFunTradeEvent {
        user: inner_user,
        ..Default::default()
    })];

    fill_pumpfun_transaction_fee_payer(&mut events, &tx);

    let DexEvent::PumpFunTrade(event) = &events[0] else {
        panic!("expected PumpFunTrade");
    };
    assert_eq!(event.user, inner_user);
    assert_eq!(event.transaction_fee_payer, fee_payer);
}

#[test]
fn restores_distinct_users_for_batched_pumpfun_trades() {
    let fee_payer = unique();
    let mint = unique();
    let ata_a = unique();
    let ata_b = unique();
    let owner_a = unique();
    let owner_b = unique();
    let tx = Some(Transaction {
        message: Some(Message {
            account_keys: vec![
                fee_payer.bytes.to_vec(),
                ata_a.bytes.to_vec(),
                ata_b.bytes.to_vec(),
            ],
            ..Default::default()
        }),
    });
    let token_balance = |account_index, owner: Pubkey| TokenBalance {
        account_index,
        mint: text(mint),
        owner: text(owner),
        ..Default::default()
    };
    let meta = TransactionStatusMeta {
        pre_token_balances: vec![token_balance(1, owner_a), token_balance(2, owner_b)],
        ..Default::default()
    };
    let wrong_outer_user = fee_payer;
    let mut events: Vec<DexEvent> = vec![
        DexEvent::PumpFunSell(PumpFunTradeEvent {
            mint,
            user: wrong_outer_user,
            associated_user: ata_a,
            is_buy: false,
            ..Default::default()
        }),
        DexEvent::PumpFunSell(PumpFunTradeEvent {
            mint,
            user: wrong_outer_user,
            associated_user: ata_b,
            is_buy: false,
            ..Default::default()
        }),
    ];

    fill_pumpfun_instruction_users_from_token_balances(&mut events, &tx, &meta);

    let users: Vec<Pubkey> = events
        .iter()
        .map(|event| match event {
            DexEvent::PumpFunSell(e) => e.user,
            _ => panic!("expected PumpFunSell"),
        })
        .collect();
    assert_eq!(users, vec![owner_a, owner_b]);
}

#[test]
fn restores_routed_sell_user_from_unique_signer_token_decrease() {
    let fee_payer = unique();
    let leader = unique();
    let router = unique();
    let leader_ata = unique();
    let router_ata = unique();
    let mint = unique();
    let tx = transaction(2, &[fee_payer, leader, leader_ata, router_ata]);
    let meta = TransactionStatusMeta {
        pre_token_balances: vec![
            token_balance(2, mint, leader, 1_000),
            token_balance(3, mint, router, 0),
        ],
        post_token_balances: vec![
            token_balance(2, mint, leader, 500),
            token_balance(3, mint, router, 0),
        ],
        ..Default::default()
    };
    let mut events: Vec<DexEvent> = vec![DexEvent::PumpFunSell(PumpFunTradeEvent {
        mint,
        user: router,
        associated_user: router_ata,
        token_amount: 500,
        is_buy: false,
        ..Default::default()
    })];

    fill_pumpfun_routed_sell_users_from_signer_token_deltas(&mut events, &tx, &meta);

    let DexEvent::PumpFunSell(event) = &events[0] else {
        panic!("expected PumpFunSell");
    };
    assert_eq!(event.user, leader);
}

#[test]
fn routed_sell_attribution_keeps_user_when_decreasing_owner_is_not_signer() {
    let fee_payer = unique();
    let leader = unique();
    let router = unique();
    let router_ata = unique();
    let mint = unique();
    let tx = transaction(1, &[fee_payer, router_ata]);
    let meta = TransactionStatusMeta {
        pre_token_balances: vec![token_balance(1, mint, leader, 1_000)],
        post_token_balances: vec![token_balance(1, mint, leader, 500)],
        ..Default::default()
    };
    let mut events: Vec<DexEvent> = vec![DexEvent::PumpFunSell(PumpFunTradeEvent {
        mint,
        user: router,
        associated_user: router_ata,
        token_amount: 500,
        is_buy: false,
        ..Default::default()
    })];

    fill_pumpfun_routed_sell_users_from_signer_token_deltas(&mut events, &tx, &meta);

    let DexEvent::PumpFunSell(event) = &events[0] else {
        panic!("expected PumpFunSell");
    };
    assert_eq!(event.user, router);
}

#[test]
fn routed_sell_attribution_keeps_user_when_multiple_signers_are_ambiguous() {
    let signer_a = unique();
    let signer_b = unique();
    let router = unique();
    let ata_a = unique();
    let ata_b = unique();
    let mint = unique();
    let tx = transaction(2, &[signer_a, signer_b, ata_a, ata_b]);
    let meta = TransactionStatusMeta {
        pre_token_balances: vec![
            token_balance(2, mint, signer_a, 1_000),
            token_balance(3, mint, signer_b, 1_000),
        ],
        post_token_balances: vec![
            token_balance(2, mint, signer_a, 500),
            token_balance(3, mint, signer_b, 500),
        ],
        ..Default::default()
    };
    let mut events: Vec<DexEvent> = vec![DexEvent::PumpFunSell(PumpFunTradeEvent {
        mint,
        user: router,
        token_amount: 500,
        is_buy: false,
        ..Default::default()
    })];

    fill_pumpfun_routed_sell_users_from_signer_token_deltas(&mut events, &tx, &meta);

    let DexEvent::PumpFunSell(event) = &events[0] else {
        panic!("expected PumpFunSell");
    };
    assert_eq!(event.user, router);
}

#[test]
fn fee_payer_is_set_in_every_kind_of_trade_and_nowhere_else() {
    let e = PumpFunTradeEvent { user: key(1), token_amount: 7, ..Default::default() };
    let mut events: Vec<DexEvent<u8>> = vec![
        DexEvent::PumpFunTrade(e),
        DexEvent::PumpFunBuy(e),
        DexEvent::Other(9),
        DexEvent::PumpFunSell(e),
        DexEvent::PumpFunBuyExactSolIn(e),
    ];
    fill_pumpfun_transaction_fee_payer(&mut events, &transaction(1, &[key(5)]));
    let payers: Vec<Option<Pubkey>> =
        events.iter().map(|event| event.trade().map(|t| t.transaction_fee_payer)).collect();
    assert_eq!(payers, vec![Some(key(5)), Some(key(5)), None, Some(key(5)), Some(key(5))]);
    assert!(matches!(events[2], DexEvent::Other(9)));
    assert!(matches!(events[1], DexEvent::PumpFunBuy(_)));
    assert!(events.iter().all(|e| e.trade().map_or(true, |t| t.user == key(1))));
    let again = events.clone();
    fill_pumpfun_transaction_fee_payer(&mut events, &transaction(1, &[key(5)]));
    assert_eq!(format!("{events:?}"), format!("{again:?}"));
}

#[test]
fn unknown_fee_payer_changes_nothing() {
    let e = PumpFunTradeEvent { transaction_fee_payer: key(3), ..Default::default() };
    let mut events: Vec<DexEvent> = vec![DexEvent::PumpFunTrade(e)];
    fill_pumpfun_transaction_fee_payer(&mut events, &None);
    fill_pumpfun_transaction_fee_payer(&mut events, &transaction(1, &[Pubkey::default()]));
    assert_eq!(trade(&events[0]).transaction_fee_payer, key(3));
}

#[test]
fn last_balance_decides_the_owner() {
    let tx = transaction(1, &[key(1), key(2)]);
    let meta = TransactionStatusMeta {
        pre_token_balances: vec![token_balance(1, key(9), key(5), 0)],
        post_token_balances: vec![
            token_balance(1, key(9), key(6), 0),
            token_balance(1, key(8), key(7), 0),
        ],
        ..Default::default()
    };
    let e = PumpFunTradeEvent { mint: key(9), associated_user: key(2), ..Default::default() };
    let mut events: Vec<DexEvent> = vec![DexEvent::PumpFunBuy(e)];
    fill_pumpfun_instruction_users_from_token_balances(&mut events, &tx, &meta);
    assert_eq!(trade(&events[0]).user, key(6));
}

#[test]
fn unreadable_balances_name_no_owner() {
    let tx = transaction(1, &[key(1), key(2)]);
    let mut bad_owner = token_balance(1, key(9), key(5), 0);
    bad_owner.owner = "?".to_string();
    let mut bad_mint = token_balance(1, key(9), key(5), 0);
    bad_mint.mint = String::new();
    let meta = TransactionStatusMeta {
        pre_token_balances: vec![token_balance(1, key(9), key(4), 0)],
        post_token_balances: vec![
            bad_owner,
            bad_mint,
            token_balance(2, key(9), key(5), 0),
            token_balance(1, key(9), Pubkey::default(), 0),
        ],
        ..Default::default()
    };
    let e = PumpFunTradeEvent { mint: key(9), associated_user: key(2), ..Default::default() };
    let mut events: Vec<DexEvent> = vec![DexEvent::PumpFunBuy(e)];
    fill_pumpfun_instruction_users_from_token_balances(&mut events, &tx, &meta);
    assert_eq!(trade(&events[0]).user, key(4));
}

#[test]
fn trade_without_a_token_account_keeps_its_user() {
    let holdings = [TokenHolding {
        account_index: 0,
        mint: Some(key(9)),
        owner: Some(key(5)),
        amount: 0,
    }];
    let e = PumpFunTradeEvent { mint: key(9), user: key(1), ..Default::default() };
    let mut events: Vec<DexEvent> = vec![DexEvent::PumpFunBuy(e)];
    set_users_to_account_owners(&mut events, &[Pubkey::default()], &holdings);
    assert_eq!(trade(&events[0]).user, key(1));
}

#[test]
fn users_stay_where_an_account_is_malformed() {
    let mut tx = transaction(1, &[key(1), key(2)]);
    let meta = TransactionStatusMeta {
        pre_token_balances: vec![token_balance(1, key(9), key(5), 0)],
        ..Default::default()
    };
    let e = PumpFunTradeEvent { mint: key(9), associated_user: key(2), ..Default::default() };
    let mut events: Vec<DexEvent> = vec![DexEvent::PumpFunBuy(e)];
    tx.as_mut().unwrap().message.as_mut().unwrap().account_keys.push(vec![1; 5]);
    fill_pumpfun_instruction_users_from_token_balances(&mut events, &tx, &meta);
    assert_eq!(trade(&events[0]).user, Pubkey::default());
    fill_pumpfun_instruction_users_from_token_balances(&mut events, &None, &meta);
    assert_eq!(trade(&events[0]).user, Pubkey::default());
}

#[test]
fn signers_are_the_first_listed_accounts() {
    assert_eq!(collect_signer_keys(&transaction(2, &[key(1), key(2), key(3)])), [key(1), key(2)]);
    assert_eq!(collect_signer_keys(&transaction(9, &[key(1), key(2)])), [key(1), key(2)]);
    assert!(collect_signer_keys(&transaction(0, &[key(1)])).is_empty());
    assert!(collect_signer_keys(&None).is_empty());
    assert!(collect_signer_keys(&Some(Transaction::default())).is_empty());
    let headless = Transaction {
        message: Some(Message { header: None, account_keys: vec![vec![1; 32]] }),
    };
    assert!(collect_signer_keys(&Some(headless)).is_empty());
}

fn holding(owner: Pubkey, amount: u64) -> TokenHolding {
    TokenHolding { account_index: 0, mint: Some(key(9)), owner: Some(owner), amount }
}

#[test]
fn sole_seller_must_cover_the_whole_amount() {
    let pre = [holding(key(1), 10), holding(key(1), 5), holding(key(2), 3)];
    let post = [holding(key(1), 1)];
    let signers = [key(1), key(2), key(1)];
    assert_eq!(find_sole_seller(&signers, &pre, &post, &key(9), 14), Some(key(1)));
    assert_eq!(find_sole_seller(&signers, &pre, &post, &key(9), 15), None);
    assert_eq!(find_sole_seller(&signers, &pre, &post, &key(9), 3), None);
    assert_eq!(find_sole_seller(&signers, &pre, &post, &key(9), 0), None);
    assert_eq!(find_sole_seller(&signers, &pre, &post, &key(8), 1), None);
    assert_eq!(find_sole_seller(&[], &pre, &post, &key(9), 3), None);
    let unknown = [holding(Pubkey::default(), 10)];
    assert_eq!(find_sole_seller(&[Pubkey::default()], &unknown, &[], &key(9), 1), None);
    assert_eq!(sum_held(&pre, &key(1), &key(9)), 15);
}

#[test]
fn all_sales_of_a_token_are_covered_together() {
    let sale = |amount, is_buy, mint| PumpFunTradeEvent {
        mint,
        user: key(7),
        token_amount: amount,
        is_buy,
        ..Default::default()
    };
    let mut events: Vec<DexEvent> = vec![
        DexEvent::PumpFunSell(sale(6, false, key(9))),
        DexEvent::PumpFunBuy(sale(50, true, key(9))),
        DexEvent::PumpFunTrade(sale(4, false, key(9))),
        DexEvent::PumpFunTrade(sale(0, false, key(9))),
        DexEvent::PumpFunTrade(sale(1, false, key(8))),
        DexEvent::Other(()),
    ];
    assert_eq!(sum_sales(&events, &key(9)), 10);
    set_users_to_sole_sellers(&mut events, &[key(1)], &[holding(key(1), 9)], &[]);
    assert!(events.iter().all(|e| e.trade().map_or(true, |t| t.user == key(7))));
    set_users_to_sole_sellers(&mut events, &[key(1)], &[holding(key(1), 10)], &[]);
    let users: Vec<Option<Pubkey>> = events.iter().map(|e| e.trade().map(|t| t.user)).collect();
    assert_eq!(
        users,
        vec![Some(key(1)), Some(key(7)), Some(key(1)), Some(key(1)), Some(key(7)), None]
    );
    let again = events.clone();
    set_users_to_sole_sellers(&mut events, &[key(1)], &[holding(key(1), 10)], &[]);
    assert_eq!(format!("{events:?}"), format!("{again:?}"));
}

#[test]
fn payer_and_users_can_be_set_in_either_order() {
    let tx = transaction(1, &[key(1), key(2)]);
    let meta = TransactionStatusMeta {
        pre_token_balances: vec![token_balance(1, key(9), key(5), 0)],
        ..Default::default()
    };
    let e = PumpFunTradeEvent { mint: key(9), associated_user: key(2), ..Default::default() };
    let mut first: Vec<DexEvent> = vec![DexEvent::PumpFunBuy(e), DexEvent::Other(())];
    let mut second = first.clone();
    fill_pumpfun_transaction_fee_payer(&mut first, &tx);
    fill_pumpfun_instruction_users_from_token_balances(&mut first, &tx, &meta);
    fill_pumpfun_instruction_users_from_token_balances(&mut second, &tx, &meta);
    fill_pumpfun_transaction_fee_payer(&mut second, &tx);
    assert_eq!(format!("{first:?}"), format!("{second:?}"));
    assert_eq!(trade(&first[0]).user, key(5));
    assert_eq!(trade(&first[0]).transaction_fee_payer, key(1));
}

#[test]
fn holdings_have_their_keys_and_amounts_read() {
    let mut unreadable = token_balance(4, key(9), key(5), 12);
    unreadable.owner = "nobody".to_string();
    let holdings = read_holdings(&[token_balance(3, key(9), key(5), 11), unreadable]);
    assert_eq!(holdings.len(), 2);
    assert_eq!(holdings[0].account_index, 3);
    assert_eq!(holdings[0].mint, Some(key(9)));
    assert_eq!(holdings[0].owner, Some(key(5)));
    assert_eq!(holdings[0].amount, 11);
    assert_eq!(holdings[1].account_index, 4);
    assert_eq!(holdings[1].owner, None);
    assert_eq!(holdings[1].amount, 12);
}
