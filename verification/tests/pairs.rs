use transaction_meta::pairs::{dedup_adjacent, sort_by_counterparty, text_before};

fn pairs(list: &[(&str, &str)]) -> Vec<(String, String)> {
    list.iter().map(|(a, b)| (a.to_string(), b.to_string())).collect()
}

#[test]
fn texts_are_ordered_as_std_orders_them() {
    let texts = ["", "A", "Ab", "B", "a", "aa", "ab", "b", "z", "\u{e9}", "\u{ffff}", "\u{10000}"];
    for a in texts {
        for b in texts {
            assert_eq!(text_before(a, b), a < b, "{a:?} {b:?}");
        }
    }
}

#[test]
fn sorting_is_by_second_text_and_stable() {
    let mut list = pairs(&[("x", "c"), ("b", "a"), ("a", "c"), ("a", "a"), ("m", "b")]);
    let mut expected = list.clone();
    expected.sort_by(|a, b| a.1.cmp(&b.1));
    sort_by_counterparty(&mut list);
    assert_eq!(list, expected);
    assert_eq!(list, pairs(&[("b", "a"), ("a", "a"), ("m", "b"), ("x", "c"), ("a", "c")]));
}

#[test]
fn sorting_an_empty_list_keeps_it_empty() {
    let mut list = pairs(&[]);
    sort_by_counterparty(&mut list);
    dedup_adjacent(&mut list);
    assert!(list.is_empty());
}

#[test]
fn only_equal_neighbours_are_removed() {
    let mut list = pairs(&[("a", "x"), ("a", "x"), ("b", "x"), ("a", "x"), ("a", "x"), ("a", "y")]);
    let mut expected = list.clone();
    expected.dedup_by(|a, b| a.0 == b.0 && a.1 == b.1);
    dedup_adjacent(&mut list);
    assert_eq!(list, expected);
    assert_eq!(list, pairs(&[("a", "x"), ("b", "x"), ("a", "x"), ("a", "y")]));
}
