//! The parts of a transaction and of its status that the analysis reads.

use vstd::prelude::*;

verus! {

/// The signature counts of a message.
#[derive(Clone, Debug, Default)]
pub struct MessageHeader {
    pub num_required_signatures: u32,
}

/// A transaction message with the accounts that it lists itself.
#[derive(Clone, Debug, Default)]
pub struct Message {
    pub header: Option<MessageHeader>,
    pub account_keys: Vec<Vec<u8>>,
}

/// A transaction.
#[derive(Clone, Debug, Default)]
pub struct Transaction {
    pub message: Option<Message>,
}

/// A token amount in base units, as decimal text.
#[derive(Clone, Debug, Default)]
pub struct UiTokenAmount {
    pub amount: String,
}

/// What one token account held before or after a transaction.
#[derive(Clone, Debug, Default)]
pub struct TokenBalance {
    pub account_index: u32,
    pub mint: String,
    pub ui_token_amount: Option<UiTokenAmount>,
    pub owner: String,
}

/// What executing a transaction changed.
#[derive(Clone, Debug, Default)]
pub struct TransactionStatusMeta {
    pub pre_balances: Vec<u64>,
    pub post_balances: Vec<u64>,
    pub pre_token_balances: Vec<TokenBalance>,
    pub post_token_balances: Vec<TokenBalance>,
    pub loaded_writable_addresses: Vec<Vec<u8>>,
    pub loaded_readonly_addresses: Vec<Vec<u8>>,
}

/// The number that a string of decimal digits stands for.
pub open spec fn decimal_value(digits: Seq<char>) -> nat
    decreases digits.len(),
{
    if digits.len() == 0 {
        0
    } else {
        10 * decimal_value(digits.drop_last()) + (digits.last() as nat - '0' as nat) as nat
    }
}

/// Whether a text consists of decimal digits.
pub open spec fn all_digits(text: Seq<char>) -> bool {
    forall|i: int| 0 <= i < text.len() ==> '0' <= #[trigger] text[i] <= '9'
}

/// A text without the plus sign that it may start with.
pub open spec fn without_plus(text: Seq<char>) -> Seq<char> {
    if text.len() > 0 && text[0] == '+' {
        text.skip(1)
    } else {
        text
    }
}

/// The `u64` that a text writes in decimal: one or more digits, which a plus
/// sign may precede.
pub open spec fn decimal_u64(text: Seq<char>) -> Option<u64> {
    let digits = without_plus(text);
    if digits.len() > 0 && all_digits(digits) && decimal_value(digits) <= u64::MAX {
        Some(decimal_value(digits) as u64)
    } else {
        None
    }
}

proof fn lemma_decimal_value_grows(front: Seq<char>, rest: Seq<char>)
    ensures
        decimal_value(front) <= decimal_value(front + rest),
    decreases rest.len(),
{
    if rest.len() == 0 {
        assert(front + rest =~= front);
    } else {
        assert((front + rest).drop_last() =~= front + rest.drop_last());
        lemma_decimal_value_grows(front, rest.drop_last());
    }
}

/// Reading a decimal text is settled digit by digit. One more digit makes the
/// number ten times as large and adds the digit, a number that is too large
/// stays unread, and so does whatever ends in anything but a digit.
pub proof fn law_decimal_text(text: Seq<char>, c: char)
    ensures
        decimal_u64(Seq::empty()) is None,
        !('0' <= c <= '9') ==> decimal_u64(text.push(c)) is None,
        '0' <= c <= '9' && (text.len() == 0 || text == seq!['+']) ==> decimal_u64(text.push(c))
            == Some((c as int - '0' as int) as u64),
        '0' <= c <= '9' && text.len() > 0 && text != seq!['+'] ==> decimal_u64(text.push(c))
            == match decimal_u64(text) {
            Some(n) => if 10 * n + (c as int - '0' as int) <= u64::MAX {
                Some((10 * n + (c as int - '0' as int)) as u64)
            } else {
                None
            },
            None => None,
        },
{
    let longer = text.push(c);
    let digits = without_plus(text);
    let more = without_plus(longer);
    if text.len() == 0 {
        if c == '+' {
            assert(more.len() == 0);
        } else {
            assert(more =~= seq![c]);
            assert(more.drop_last() =~= Seq::empty());
            assert(decimal_value(Seq::<char>::empty()) == 0);
            assert(more[0] == c);
        }
    } else {
        assert(longer[0] == text[0]);
        assert(more =~= digits.push(c));
        assert(more.drop_last() =~= digits);
        assert(more[digits.len() as int] == c);
        if text == seq!['+'] {
            assert(digits =~= Seq::empty());
            assert(decimal_value(Seq::<char>::empty()) == 0);
        } else {
            if digits.len() == 0 {
                assert(text =~= seq!['+']);
            }
            if all_digits(digits) && '0' <= c <= '9' {
                assert(all_digits(more));
            }
            if all_digits(more) {
                assert(all_digits(digits)) by {
                    assert forall|i: int| 0 <= i < digits.len() implies '0' <= #[trigger] digits[i]
                        <= '9' by {
                        assert(more[i] == digits[i]);
                    }
                }
            }
        }
    }
}

/// The `u64` that a text writes in decimal: one or more digits, which a plus
/// sign may precede.
fn parse_u64(text: &str) -> (r: Option<u64>)
    ensures
        r == decimal_u64(text@),
{
    let ghost digits = without_plus(text@);
    let ghost mut front: Seq<char> = Seq::empty();
    let mut first = text.chars();
    let mut rest = text.chars();
    if let Some(c) = first.next() {
        if c == '+' {
            rest.next();
        }
    }
    let mut empty = true;
    let mut value: u64 = 0;
    assert(front + vstd::std_specs::iter::IteratorSpec::remaining(&rest) =~= digits);
    loop
        invariant
            digits == without_plus(text@),
            vstd::std_specs::iter::IteratorSpec::decrease(&rest) is Some,
            front + vstd::std_specs::iter::IteratorSpec::remaining(&rest) == digits,
            empty <==> front.len() == 0,
            all_digits(front),
            value == decimal_value(front),
        decreases vstd::std_specs::iter::IteratorSpec::decrease(&rest)->0,
    {
        match rest.next() {
            None => {
                assert(front =~= digits);
                return if empty {
                    None
                } else {
                    Some(value)
                };
            },
            Some(c) => {
                assert(digits[front.len() as int] == c);
                if c < '0' || c > '9' {
                    return None;
                }
                let ghost longer = front.push(c);
                proof {
                    assert(longer.drop_last() =~= front);
                    assert(longer + vstd::std_specs::iter::IteratorSpec::remaining(&rest)
                        =~= digits);
                    lemma_decimal_value_grows(
                        longer,
                        vstd::std_specs::iter::IteratorSpec::remaining(&rest),
                    );
                }
                let digit: u64 = c as u64 - '0' as u64;
                value = match value.checked_mul(10) {
                    Some(shifted) => match shifted.checked_add(digit) {
                        Some(sum) => sum,
                        None => {
                            return None;
                        },
                    },
                    None => {
                        return None;
                    },
                };
                empty = false;
                proof {
                    front = longer;
                }
            },
        }
    }
}

/// The amount of a token balance in base units, which is zero where the
/// balance has no amount or an unreadable one.
pub open spec fn raw_amount(balance: TokenBalance) -> u64 {
    match balance.ui_token_amount {
        Some(amount) => match decimal_u64(amount.amount@) {
            Some(n) => n,
            None => 0,
        },
        None => 0,
    }
}

/// The amount of a token balance in base units, which is zero where the
/// balance has no amount or an unreadable one.
pub fn token_balance_raw_amount(t: &TokenBalance) -> (r: u64)
    ensures
        r == raw_amount(*t),
        t.ui_token_amount is None ==> r == 0,
        t.ui_token_amount matches Some(amount) ==> r == match decimal_u64(amount.amount@) {
            Some(n) => n,
            None => 0,
        },
{
    match &t.ui_token_amount {
        Some(amount) => match parse_u64(amount.amount.as_str()) {
            Some(n) => n,
            None => 0,
        },
        None => 0,
    }
}

/// The amount of a token balance is the number that its amount text writes,
/// and nothing else of the balance matters to it.
pub proof fn law_raw_amount(balance: TokenBalance)
    ensures
        balance.ui_token_amount is None ==> raw_amount(balance) == 0,
        balance.ui_token_amount matches Some(amount) ==> {
            &&& decimal_u64(amount.amount@) is None ==> raw_amount(balance) == 0
            &&& decimal_u64(amount.amount@) matches Some(n) ==> raw_amount(balance) == n
        },
{
}

/// The change of lamports of each account, as far as both lists reach.
pub open spec fn lamport_deltas(meta: TransactionStatusMeta) -> Seq<i128> {
    let pre = meta.pre_balances@;
    let post = meta.post_balances@;
    Seq::new(
        if pre.len() <= post.len() {
            pre.len()
        } else {
            post.len()
        },
        |i: int| (post[i] - pre[i]) as i128,
    )
}

/// An account has a change of lamports exactly where there is a balance before
/// and one after, and the change leads from the one to the other.
pub proof fn law_lamport_deltas(meta: TransactionStatusMeta, i: int)
    ensures
        0 <= i < lamport_deltas(meta).len() <==> 0 <= i < meta.pre_balances@.len() && i
            < meta.post_balances@.len(),
        0 <= i < lamport_deltas(meta).len() ==> meta.pre_balances@[i] + lamport_deltas(meta)[i]
            == meta.post_balances@[i],
{
}

/// The change of lamports of each account, as far as both lists reach.
pub fn lamport_balance_deltas(meta: &TransactionStatusMeta) -> (r: Vec<i128>)
    ensures
        r@ == lamport_deltas(*meta),
        r@.len() == if meta.pre_balances@.len() <= meta.post_balances@.len() {
            meta.pre_balances@.len()
        } else {
            meta.post_balances@.len()
        },
        forall|i: int|
            0 <= i < r@.len() ==> #[trigger] r@[i] == meta.post_balances@[i]
                - meta.pre_balances@[i],
{
    let mut deltas: Vec<i128> = Vec::new();
    let mut i: usize = 0;
    while i < meta.pre_balances.len() && i < meta.post_balances.len()
        invariant
            i <= meta.pre_balances@.len(),
            i <= meta.post_balances@.len(),
            deltas@.len() == i,
            forall|j: int|
                0 <= j < i ==> #[trigger] deltas@[j] == meta.post_balances@[j]
                    - meta.pre_balances@[j],
        decreases meta.pre_balances@.len() - i,
    {
        deltas.push(meta.post_balances[i] as i128 - meta.pre_balances[i] as i128);
        i = i + 1;
    }
    assert(deltas@ =~= lamport_deltas(*meta));
    deltas
}

}
