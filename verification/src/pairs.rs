//! Ordered lists of text pairs.

use vstd::prelude::*;

verus! {

/// Whether one text stands before another in the order of their code points.
pub open spec fn text_lt(a: Seq<char>, b: Seq<char>) -> bool
    decreases a.len(),
{
    if b.len() == 0 {
        false
    } else if a.len() == 0 {
        true
    } else if a[0] != b[0] {
        a[0] < b[0]
    } else {
        text_lt(a.drop_first(), b.drop_first())
    }
}

/// Whether one text stands before another in the order of their code points.
pub fn text_before(a: &str, b: &str) -> (r: bool)
    ensures
        r == text_lt(a@, b@),
{
    let mut rest_a = a.chars();
    let mut rest_b = b.chars();
    loop
        invariant
            vstd::std_specs::iter::IteratorSpec::decrease(&rest_a) is Some,
            text_lt(a@, b@) == text_lt(
                vstd::std_specs::iter::IteratorSpec::remaining(&rest_a),
                vstd::std_specs::iter::IteratorSpec::remaining(&rest_b),
            ),
        decreases vstd::std_specs::iter::IteratorSpec::decrease(&rest_a)->0,
    {
        match (rest_a.next(), rest_b.next()) {
            (_, None) => {
                return false;
            },
            (None, Some(_)) => {
                return true;
            },
            (Some(c), Some(d)) => {
                if c != d {
                    return c < d;
                }
            },
        }
    }
}

/// Of two texts one stands before the other, unless they are equal, and never
/// both do.
pub proof fn law_text_order_is_total(a: Seq<char>, b: Seq<char>)
    ensures
        text_lt(a, b) || a == b || text_lt(b, a),
        !(text_lt(a, b) && text_lt(b, a)),
        a == b ==> !text_lt(a, b),
    decreases a.len(),
{
    if a.len() > 0 && b.len() > 0 {
        law_text_order_is_total(a.drop_first(), b.drop_first());
        if a[0] == b[0] && a.drop_first() == b.drop_first() {
            assert(a =~= seq![a[0]] + a.drop_first());
            assert(b =~= seq![b[0]] + b.drop_first());
        }
    } else if a.len() == b.len() {
        assert(a =~= b);
    }
}

/// The order of texts is transitive.
pub proof fn law_text_order_is_transitive(a: Seq<char>, b: Seq<char>, c: Seq<char>)
    requires
        text_lt(a, b),
        text_lt(b, c),
    ensures
        text_lt(a, c),
    decreases a.len(),
{
    if a.len() > 0 && a[0] == b[0] && b[0] == c[0] {
        law_text_order_is_transitive(a.drop_first(), b.drop_first(), c.drop_first());
    }
}

/// One text stands before another exactly where the two agree up to some
/// place, and there the first one ends or has the smaller character.
pub proof fn law_text_order_is_lexicographic(a: Seq<char>, b: Seq<char>)
    ensures
        text_lt(a, b) <==> exists|k: int|
            0 <= k <= a.len() && k < b.len() && #[trigger] a.take(k) == b.take(k) && (k == a.len()
                || a[k] < b[k]),
    decreases a.len(),
{
    if text_lt(a, b) {
        if a.len() > 0 && a[0] == b[0] {
            let tail = a.drop_first();
            let other = b.drop_first();
            law_text_order_is_lexicographic(tail, other);
            let k = choose|k: int|
                0 <= k <= tail.len() && k < other.len() && #[trigger] tail.take(k) == other.take(k)
                    && (k == tail.len() || tail[k] < other[k]);
            assert(a.take(k + 1) =~= seq![a[0]] + tail.take(k));
            assert(b.take(k + 1) =~= seq![b[0]] + other.take(k));
        } else {
            assert(a.take(0) =~= b.take(0));
        }
    }
    if exists|k: int|
        0 <= k <= a.len() && k < b.len() && #[trigger] a.take(k) == b.take(k) && (k == a.len()
            || a[k] < b[k]) {
        let k = choose|k: int|
            0 <= k <= a.len() && k < b.len() && #[trigger] a.take(k) == b.take(k) && (k == a.len()
                || a[k] < b[k]);
        if k > 0 {
            let tail = a.drop_first();
            let other = b.drop_first();
            assert(a.take(k)[0] == b.take(k)[0]);
            assert(tail.take(k - 1) =~= a.take(k).drop_first());
            assert(other.take(k - 1) =~= b.take(k).drop_first());
            law_text_order_is_lexicographic(tail, other);
        }
    }
}

/// The texts of a list of pairs.
pub open spec fn pair_texts(pairs: Seq<(String, String)>) -> Seq<(Seq<char>, Seq<char>)> {
    pairs.map_values(|p: (String, String)| (p.0@, p.1@))
}

/// The texts of a list of pairs are those of its pairs, each at its place.
pub proof fn law_pair_texts_keep_places(pairs: Seq<(String, String)>)
    ensures
        pair_texts(pairs).len() == pairs.len(),
        forall|i: int|
            0 <= i < pairs.len() ==> #[trigger] pair_texts(pairs)[i] == (pairs[i].0@, pairs[i].1@),
{
}

/// A list with one more pair, which goes behind the last pair whose second
/// text does not stand after its own.
pub open spec fn insert_pair(
    list: Seq<(Seq<char>, Seq<char>)>,
    pair: (Seq<char>, Seq<char>),
) -> Seq<(Seq<char>, Seq<char>)>
    decreases list.len(),
{
    if list.len() == 0 || !text_lt(pair.1, list.last().1) {
        list.push(pair)
    } else {
        insert_pair(list.drop_last(), pair).push(list.last())
    }
}

/// A list of pairs, sorted by the second text. Pairs with the same second
/// text keep their order.
pub open spec fn sort_pairs(list: Seq<(Seq<char>, Seq<char>)>) -> Seq<(Seq<char>, Seq<char>)>
    decreases list.len(),
{
    if list.len() == 0 {
        list
    } else {
        insert_pair(sort_pairs(list.drop_last()), list.last())
    }
}

/// A list of pairs without those that equal the pair just before them.
pub open spec fn dedup_pairs(list: Seq<(Seq<char>, Seq<char>)>) -> Seq<(Seq<char>, Seq<char>)>
    decreases list.len(),
{
    if list.len() <= 1 {
        list
    } else if list.last() == list[list.len() - 2] {
        dedup_pairs(list.drop_last())
    } else {
        dedup_pairs(list.drop_last()).push(list.last())
    }
}

proof fn lemma_insert_position(
    list: Seq<(Seq<char>, Seq<char>)>,
    pair: (Seq<char>, Seq<char>),
    at: int,
)
    requires
        0 <= at <= list.len(),
        at == 0 || !text_lt(pair.1, list[at - 1].1),
        forall|k: int| at <= k < list.len() ==> text_lt(pair.1, (#[trigger] list[k]).1),
    ensures
        insert_pair(list, pair) == list.insert(at, pair),
    decreases list.len(),
{
    if at == list.len() {
        assert(list.insert(at, pair) =~= list.push(pair));
    } else {
        let front = list.drop_last();
        lemma_insert_position(front, pair, at);
        assert(list.insert(at, pair) =~= front.insert(at, pair).push(list.last()));
    }
}

/// Sorts a list of pairs by their second text. Pairs with the same second
/// text keep their order.
pub fn sort_by_counterparty(pairs: &mut Vec<(String, String)>)
    ensures
        pair_texts(final(pairs)@) == sort_pairs(pair_texts(old(pairs)@)),
{
    let ghost before = pairs@;
    let n: usize = pairs.len();
    let mut i: usize = 0;
    assert(pair_texts(pairs@.take(0)) =~= Seq::empty());
    assert(pair_texts(before.take(0)) =~= Seq::empty());
    while i < n
        invariant
            i <= n,
            n == before.len(),
            pairs@.len() == n,
            pair_texts(pairs@.take(i as int)) == sort_pairs(pair_texts(before.take(i as int))),
            forall|k: int| i <= k < n ==> pairs@[k] == before[k],
        decreases n - i,
    {
        let ghost at_start = pairs@;
        let ghost sorted = pair_texts(at_start.take(i as int));
        let ghost next = (before[i as int].0@, before[i as int].1@);
        let mut j: usize = i;
        while j > 0 && text_before(pairs[i].1.as_str(), pairs[j - 1].1.as_str())
            invariant
                j <= i < n,
                pairs@ == at_start,
                at_start.len() == n,
                next == (at_start[i as int].0@, at_start[i as int].1@),
                sorted == pair_texts(at_start.take(i as int)),
                forall|k: int| j <= k < i ==> text_lt(next.1, (#[trigger] sorted[k]).1),
            ensures
                j == 0 || !text_lt(next.1, sorted[j - 1].1),
            decreases j,
        {
            j = j - 1;
        }
        let pair = pairs.remove(i);
        pairs.insert(j, pair);
        proof {
            lemma_insert_position(sorted, next, j as int);
            assert(pair_texts(pairs@.take(i + 1)) =~= sorted.insert(j as int, next));
            let shorter = pair_texts(before.take(i as int));
            let longer = pair_texts(before.take(i + 1));
            assert(longer.drop_last() =~= shorter);
            assert(longer.last() == next);
        }
        i = i + 1;
    }
    assert(pairs@.take(n as int) =~= pairs@);
    assert(before.take(n as int) =~= before);
}

/// Removes each pair that equals the pair just before it.
pub fn dedup_adjacent(pairs: &mut Vec<(String, String)>)
    ensures
        pair_texts(final(pairs)@) == dedup_pairs(pair_texts(old(pairs)@)),
{
    let ghost before = pairs@;
    let ghost mut read: int = 1;
    if pairs.len() == 0 {
        return;
    }
    let mut i: usize = 1;
    assert(pairs@.take(1) =~= before.take(1));
    assert(pairs@.skip(1) =~= before.skip(1));
    while i < pairs.len()
        invariant
            1 <= i <= pairs@.len(),
            1 <= read <= before.len(),
            pair_texts(pairs@.take(i as int)) == dedup_pairs(pair_texts(before.take(read))),
            pair_texts(pairs@)[i - 1] == pair_texts(before)[read - 1],
            pairs@.skip(i as int) == before.skip(read),
        decreases pairs@.len() - i,
    {
        let ghost at_start = pairs@;
        proof {
            assert(at_start.skip(i as int).len() == before.skip(read).len());
            assert(at_start.skip(i as int)[0] == before.skip(read)[0]);
            assert(at_start.skip(i as int).skip(1) =~= at_start.skip(i + 1));
            assert(before.skip(read).skip(1) =~= before.skip(read + 1));
            let longer = pair_texts(before.take(read + 1));
            assert(longer.drop_last() =~= pair_texts(before.take(read)));
        }
        if pairs[i].0 == pairs[i - 1].0 && pairs[i].1 == pairs[i - 1].1 {
            let _ = pairs.remove(i);
            proof {
                assert(pairs@.take(i as int) =~= at_start.take(i as int));
                assert(pairs@.skip(i as int) =~= at_start.skip(i + 1));
            }
        } else {
            proof {
                assert(pair_texts(at_start.take(i + 1)) =~= pair_texts(
                    at_start.take(i as int),
                ).push(pair_texts(at_start)[i as int]));
            }
            i = i + 1;
        }
        proof {
            read = read + 1;
        }
    }
    assert(before.skip(read).len() == 0);
    assert(pairs@.take(i as int) =~= pairs@);
    assert(before.take(read) =~= before);
}

/// Whether the second texts of a list never step back in the order of texts.
pub open spec fn ascending(list: Seq<(Seq<char>, Seq<char>)>) -> bool {
    forall|i: int, j: int|
        0 <= i <= j < list.len() ==> !text_lt((#[trigger] list[j]).1, (#[trigger] list[i]).1)
}

/// Whether each second text of a list stands before all that follow it.
pub open spec fn strictly_ascending(list: Seq<(Seq<char>, Seq<char>)>) -> bool {
    forall|i: int, j: int|
        0 <= i < j < list.len() ==> text_lt((#[trigger] list[i]).1, (#[trigger] list[j]).1)
}

/// The pairs of a list that have a given second text, in order.
pub open spec fn pairs_to(
    list: Seq<(Seq<char>, Seq<char>)>,
    counterparty: Seq<char>,
) -> Seq<(Seq<char>, Seq<char>)> {
    list.filter(|p: (Seq<char>, Seq<char>)| p.1 == counterparty)
}

proof fn lemma_insert_keeps_order(
    list: Seq<(Seq<char>, Seq<char>)>,
    pair: (Seq<char>, Seq<char>),
)
    requires
        ascending(list),
    ensures
        ascending(insert_pair(list, pair)),
        insert_pair(list, pair).len() == list.len() + 1,
        forall|p: (Seq<char>, Seq<char>)|
            #[trigger] insert_pair(list, pair).contains(p) <==> list.contains(p) || p == pair,
    decreases list.len(),
{
    let grown = insert_pair(list, pair);
    if list.len() == 0 || !text_lt(pair.1, list.last().1) {
        assert forall|i: int, j: int| 0 <= i <= j < grown.len() implies !text_lt(
            (#[trigger] grown[j]).1,
            (#[trigger] grown[i]).1,
        ) by {
            law_text_order_is_total(grown[i].1, grown[j].1);
            if j == list.len() && i < j {
                assert(!text_lt(list.last().1, list[i].1));
                law_text_order_is_total(list[i].1, list.last().1);
                law_text_order_is_total(list.last().1, pair.1);
                if text_lt(pair.1, list[i].1) {
                    if text_lt(list[i].1, list.last().1) {
                        law_text_order_is_transitive(pair.1, list[i].1, list.last().1);
                    }
                }
            }
        }
        assert forall|p: (Seq<char>, Seq<char>)| #[trigger]
            grown.contains(p) <==> list.contains(p) || p == pair by {
            if list.contains(p) {
                let k = choose|k: int| 0 <= k < list.len() && list[k] == p;
                assert(grown[k] == p);
            }
            assert(grown[list.len() as int] == pair);
        }
    } else {
        let front = list.drop_last();
        assert(ascending(front));
        lemma_insert_keeps_order(front, pair);
        let inner = insert_pair(front, pair);
        assert forall|i: int, j: int| 0 <= i <= j < grown.len() implies !text_lt(
            (#[trigger] grown[j]).1,
            (#[trigger] grown[i]).1,
        ) by {
            law_text_order_is_total(grown[i].1, grown[j].1);
            if j == inner.len() && i < j {
                assert(inner.contains(inner[i]));
                if inner[i] == pair {
                    law_text_order_is_total(pair.1, list.last().1);
                } else {
                    let k = choose|k: int| 0 <= k < front.len() && front[k] == inner[i];
                    assert(list[k] == inner[i]);
                }
            } else if j < inner.len() {
                assert(inner[i] == grown[i] && inner[j] == grown[j]);
            }
        }
        assert forall|p: (Seq<char>, Seq<char>)| #[trigger]
            grown.contains(p) <==> list.contains(p) || p == pair by {
            assert(grown[inner.len() as int] == list.last());
            assert(list[list.len() - 1] == list.last());
            if inner.contains(p) {
                let k = choose|k: int| 0 <= k < inner.len() && inner[k] == p;
                assert(grown[k] == p);
                if front.contains(p) {
                    let m = choose|m: int| 0 <= m < front.len() && front[m] == p;
                    assert(list[m] == p);
                }
            }
            if grown.contains(p) {
                let k = choose|k: int| 0 <= k < grown.len() && grown[k] == p;
                if k < inner.len() {
                    assert(inner[k] == p);
                }
            }
            if list.contains(p) && p != list.last() {
                let k = choose|k: int| 0 <= k < list.len() && list[k] == p;
                assert(front[k] == p);
            }
        }
    }
}

proof fn lemma_pairs_to_push(
    list: Seq<(Seq<char>, Seq<char>)>,
    pair: (Seq<char>, Seq<char>),
    counterparty: Seq<char>,
)
    ensures
        pairs_to(list.push(pair), counterparty) == if pair.1 == counterparty {
            pairs_to(list, counterparty).push(pair)
        } else {
            pairs_to(list, counterparty)
        },
{
    reveal(Seq::filter);
    assert(list.push(pair).drop_last() =~= list);
}

proof fn lemma_insert_is_stable(
    list: Seq<(Seq<char>, Seq<char>)>,
    pair: (Seq<char>, Seq<char>),
    counterparty: Seq<char>,
)
    ensures
        pairs_to(insert_pair(list, pair), counterparty) == pairs_to(list.push(pair), counterparty),
    decreases list.len(),
{
    if list.len() > 0 && text_lt(pair.1, list.last().1) {
        let front = list.drop_last();
        lemma_insert_is_stable(front, pair, counterparty);
        law_text_order_is_total(pair.1, list.last().1);
        assert(front.push(list.last()) =~= list);
        lemma_pairs_to_push(insert_pair(front, pair), list.last(), counterparty);
        lemma_pairs_to_push(front, pair, counterparty);
        lemma_pairs_to_push(front, list.last(), counterparty);
        lemma_pairs_to_push(list, pair, counterparty);
    }
}

/// Sorting puts the pairs in the order of their second texts, keeps exactly
/// the pairs there are, and keeps the order of those with the same second
/// text.
pub proof fn law_sort_is_stable(list: Seq<(Seq<char>, Seq<char>)>)
    ensures
        ascending(sort_pairs(list)),
        sort_pairs(list).len() == list.len(),
        forall|p: (Seq<char>, Seq<char>)| #[trigger]
            sort_pairs(list).contains(p) <==> list.contains(p),
        forall|counterparty: Seq<char>| #[trigger]
            pairs_to(sort_pairs(list), counterparty) == pairs_to(list, counterparty),
    decreases list.len(),
{
    if list.len() > 0 {
        let front = list.drop_last();
        law_sort_is_stable(front);
        let inner = sort_pairs(front);
        lemma_insert_keeps_order(inner, list.last());
        assert forall|p: (Seq<char>, Seq<char>)| #[trigger]
            sort_pairs(list).contains(p) <==> list.contains(p) by {
            assert(list[list.len() - 1] == list.last());
            if front.contains(p) {
                let k = choose|k: int| 0 <= k < front.len() && front[k] == p;
                assert(list[k] == p);
            }
            if list.contains(p) && p != list.last() {
                let k = choose|k: int| 0 <= k < list.len() && list[k] == p;
                assert(front[k] == p);
            }
        }
        assert forall|counterparty: Seq<char>| #[trigger]
            pairs_to(sort_pairs(list), counterparty) == pairs_to(list, counterparty) by {
            lemma_insert_is_stable(inner, list.last(), counterparty);
            assert(pairs_to(inner, counterparty) == pairs_to(front, counterparty));
            lemma_pairs_to_push(inner, list.last(), counterparty);
            lemma_pairs_to_push(front, list.last(), counterparty);
            assert(front.push(list.last()) =~= list);
        }
    }
}

proof fn lemma_pairs_to_of_member(list: Seq<(Seq<char>, Seq<char>)>, counterparty: Seq<char>)
    ensures
        pairs_to(list, counterparty).len() > 0 <==> exists|k: int|
            0 <= k < list.len() && (#[trigger] list[k]).1 == counterparty,
    decreases list.len(),
{
    reveal(Seq::filter);
    if list.len() > 0 {
        let front = list.drop_last();
        lemma_pairs_to_of_member(front, counterparty);
        lemma_pairs_to_push(front, list.last(), counterparty);
        assert(front.push(list.last()) =~= list);
        assert(list[list.len() - 1] == list.last());
        if pairs_to(front, counterparty).len() > 0 {
            let k = choose|k: int|
                0 <= k < front.len() && (#[trigger] front[k]).1 == counterparty;
            assert(list[k].1 == counterparty);
        }
        if exists|k: int| 0 <= k < list.len() && (#[trigger] list[k]).1 == counterparty {
            let k = choose|k: int| 0 <= k < list.len() && (#[trigger] list[k]).1 == counterparty;
            if k < front.len() {
                assert(front[k].1 == counterparty);
            }
        }
    }
}

/// There is only one way to order a list by the second texts such that pairs
/// with the same second text keep their order.
pub proof fn law_stable_order_is_unique(
    a: Seq<(Seq<char>, Seq<char>)>,
    b: Seq<(Seq<char>, Seq<char>)>,
)
    requires
        ascending(a),
        ascending(b),
        forall|counterparty: Seq<char>| #[trigger]
            pairs_to(a, counterparty) == pairs_to(b, counterparty),
    ensures
        a == b,
    decreases a.len() + b.len(),
{
    if a.len() == 0 && b.len() == 0 {
        assert(a =~= b);
    } else if a.len() == 0 {
        assert(pairs_to(a, b.last().1) == pairs_to(b, b.last().1));
        lemma_pairs_to_of_member(a, b.last().1);
        lemma_pairs_to_of_member(b, b.last().1);
        assert(b[b.len() - 1].1 == b.last().1);
    } else {
        let c = a.last().1;
        let front = a.drop_last();
        assert(pairs_to(a, c) == pairs_to(b, c));
        lemma_pairs_to_of_member(a, c);
        lemma_pairs_to_of_member(b, c);
        assert(a[a.len() - 1].1 == c);
        let k = choose|k: int| 0 <= k < b.len() && (#[trigger] b[k]).1 == c;
        assert(b[k].1 == c);
        let d = b.last().1;
        let back = b.drop_last();
        assert(pairs_to(a, d) == pairs_to(b, d));
        lemma_pairs_to_of_member(a, d);
        lemma_pairs_to_of_member(b, d);
        assert(b[b.len() - 1].1 == d);
        let m = choose|m: int| 0 <= m < a.len() && (#[trigger] a[m]).1 == d;
        assert(a[m].1 == d);
        assert(!text_lt(a[a.len() - 1].1, a[m].1));
        assert(!text_lt(b[b.len() - 1].1, b[k].1));
        law_text_order_is_total(c, d);
        assert(c == d);
        assert(front.push(a.last()) =~= a);
        assert(back.push(b.last()) =~= b);
        lemma_pairs_to_push(front, a.last(), c);
        lemma_pairs_to_push(back, b.last(), c);
        assert(pairs_to(a, c).last() == a.last());
        assert(pairs_to(b, c).last() == b.last());
        assert(ascending(front)) by {
            assert forall|i: int, j: int| 0 <= i <= j < front.len() implies !text_lt(
                (#[trigger] front[j]).1,
                (#[trigger] front[i]).1,
            ) by {
                assert(!text_lt(a[j].1, a[i].1));
            }
        }
        assert(ascending(back)) by {
            assert forall|i: int, j: int| 0 <= i <= j < back.len() implies !text_lt(
                (#[trigger] back[j]).1,
                (#[trigger] back[i]).1,
            ) by {
                assert(!text_lt(b[j].1, b[i].1));
            }
        }
        assert forall|counterparty: Seq<char>| #[trigger]
            pairs_to(front, counterparty) == pairs_to(back, counterparty) by {
            assert(pairs_to(a, counterparty) == pairs_to(b, counterparty));
            lemma_pairs_to_push(front, a.last(), counterparty);
            lemma_pairs_to_push(back, b.last(), counterparty);
            if counterparty == c {
                assert(pairs_to(a, c).drop_last() =~= pairs_to(front, c));
                assert(pairs_to(b, c).drop_last() =~= pairs_to(back, c));
            }
        }
        law_stable_order_is_unique(front, back);
    }
}

/// Removing repetitions keeps every pair that occurs, leaves no two equal
/// neighbours, and keeps the order.
pub proof fn law_dedup_leaves_no_equal_neighbours(list: Seq<(Seq<char>, Seq<char>)>)
    ensures
        forall|i: int|
            0 < i < dedup_pairs(list).len() ==> #[trigger] dedup_pairs(list)[i] != dedup_pairs(
                list,
            )[i - 1],
        forall|p: (Seq<char>, Seq<char>)| #[trigger]
            dedup_pairs(list).contains(p) <==> list.contains(p),
        dedup_pairs(list).len() <= list.len(),
        list.len() > 0 ==> dedup_pairs(list).len() > 0 && dedup_pairs(list).last() == list.last(),
        ascending(list) ==> ascending(dedup_pairs(list)),
    decreases list.len(),
{
    let kept = dedup_pairs(list);
    if list.len() > 1 {
        let front = list.drop_last();
        law_dedup_leaves_no_equal_neighbours(front);
        let inner = dedup_pairs(front);
        assert(front.last() == list[list.len() - 2]);
        assert forall|p: (Seq<char>, Seq<char>)| #[trigger]
            kept.contains(p) <==> list.contains(p) by {
            assert(inner.contains(p) <==> front.contains(p));
            assert(list[list.len() - 1] == list.last());
            assert(inner[inner.len() - 1] == front.last());
            if front.contains(p) {
                let k = choose|k: int| 0 <= k < front.len() && front[k] == p;
                assert(list[k] == p);
            }
            if inner.contains(p) {
                let k = choose|k: int| 0 <= k < inner.len() && inner[k] == p;
                assert(kept[k] == p);
            }
            if kept.contains(p) && p != list.last() {
                let k = choose|k: int| 0 <= k < kept.len() && kept[k] == p;
                assert(inner[k] == p);
            }
            if list.contains(p) && p != list.last() {
                let k = choose|k: int| 0 <= k < list.len() && list[k] == p;
                assert(front[k] == p);
            }
            assert(kept.last() == list.last());
            assert(kept[kept.len() - 1] == list.last());
        }
        if ascending(list) {
            assert(ascending(front)) by {
                assert forall|i: int, j: int| 0 <= i <= j < front.len() implies !text_lt(
                    (#[trigger] front[j]).1,
                    (#[trigger] front[i]).1,
                ) by {
                    assert(list[i] == front[i] && list[j] == front[j]);
                }
            }
            assert forall|i: int, j: int| 0 <= i <= j < kept.len() implies !text_lt(
                (#[trigger] kept[j]).1,
                (#[trigger] kept[i]).1,
            ) by {
                law_text_order_is_total(kept[i].1, kept[j].1);
                if j < inner.len() {
                    assert(kept[i] == inner[i] && kept[j] == inner[j]);
                } else if i < inner.len() {
                    assert(kept[i] == inner[i]);
                    assert(inner.contains(inner[i]));
                    let k = choose|k: int| 0 <= k < front.len() && front[k] == inner[i];
                    assert(list[k] == inner[i]);
                    assert(!text_lt(list[list.len() - 1].1, list[k].1));
                }
            }
        }
    }
}

/// A list whose pairs share their first text has each pair once, in strictly
/// ascending order, when it is sorted and its repetitions are removed.
pub proof fn law_sorted_without_repetitions(
    list: Seq<(Seq<char>, Seq<char>)>,
    first: Seq<char>,
)
    requires
        forall|i: int| 0 <= i < list.len() ==> (#[trigger] list[i]).0 == first,
    ensures
        strictly_ascending(dedup_pairs(sort_pairs(list))),
        forall|p: (Seq<char>, Seq<char>)| #[trigger]
            dedup_pairs(sort_pairs(list)).contains(p) <==> list.contains(p),
{
    let sorted = sort_pairs(list);
    let kept = dedup_pairs(sorted);
    law_sort_is_stable(list);
    law_dedup_leaves_no_equal_neighbours(sorted);
    assert forall|p: (Seq<char>, Seq<char>)| #[trigger]
        kept.contains(p) <==> list.contains(p) by {
        assert(kept.contains(p) <==> sorted.contains(p));
        assert(sorted.contains(p) <==> list.contains(p));
    }
    assert forall|i: int| 0 <= i < kept.len() implies (#[trigger] kept[i]).0 == first by {
        assert(kept.contains(kept[i]));
        let k = choose|k: int| 0 <= k < list.len() && list[k] == kept[i];
    }
    assert forall|i: int, j: int| 0 <= i < j < kept.len() implies text_lt(
        (#[trigger] kept[i]).1,
        (#[trigger] kept[j]).1,
    ) by {
        lemma_ascending_neighbours(kept, i, j);
    }
}

proof fn lemma_ascending_neighbours(kept: Seq<(Seq<char>, Seq<char>)>, i: int, j: int)
    requires
        ascending(kept),
        forall|k: int| 0 < k < kept.len() ==> #[trigger] kept[k] != kept[k - 1],
        forall|k: int| 0 <= k < kept.len() ==> (#[trigger] kept[k]).0 == kept[0].0,
        0 <= i < j < kept.len(),
    ensures
        text_lt(kept[i].1, kept[j].1),
    decreases j - i,
{
    law_text_order_is_total(kept[j - 1].1, kept[j].1);
    assert(!text_lt(kept[j].1, kept[j - 1].1));
    assert(kept[j] != kept[j - 1]);
    assert(kept[j].1 != kept[j - 1].1);
    if i < j - 1 {
        lemma_ascending_neighbours(kept, i, j - 1);
        law_text_order_is_transitive(kept[i].1, kept[j - 1].1, kept[j].1);
    }
}

/// The pairs with a given second text are picked pair by pair: one more pair
/// joins them exactly where it has that text.
pub proof fn law_pairs_to_of_one_more(
    list: Seq<(Seq<char>, Seq<char>)>,
    pair: (Seq<char>, Seq<char>),
    counterparty: Seq<char>,
)
    ensures
        pairs_to(Seq::empty(), counterparty).len() == 0,
        pair.1 == counterparty ==> pairs_to(list.push(pair), counterparty) == pairs_to(
            list,
            counterparty,
        ).push(pair),
        pair.1 != counterparty ==> pairs_to(list.push(pair), counterparty) == pairs_to(
            list,
            counterparty,
        ),
{
    reveal(Seq::filter);
    lemma_pairs_to_push(list, pair, counterparty);
}

/// A sorted list has the second texts in order, and to each second text it has
/// the same pairs as before, in the same order. No other list does.
pub proof fn law_sorted_list(
    list: Seq<(Seq<char>, Seq<char>)>,
    other: Seq<(Seq<char>, Seq<char>)>,
)
    ensures
        forall|i: int, j: int|
            0 <= i <= j < sort_pairs(list).len() ==> !text_lt(
                (#[trigger] sort_pairs(list)[j]).1,
                (#[trigger] sort_pairs(list)[i]).1,
            ),
        forall|c: Seq<char>| #[trigger] pairs_to(sort_pairs(list), c) == pairs_to(list, c),
        (forall|i: int, j: int|
            0 <= i <= j < other.len() ==> !text_lt(
                (#[trigger] other[j]).1,
                (#[trigger] other[i]).1,
            )) && (forall|c: Seq<char>| #[trigger] pairs_to(other, c) == pairs_to(list, c))
            ==> other == sort_pairs(list),
{
    law_sort_is_stable(list);
    let sorted = sort_pairs(list);
    if ascending(other) && forall|c: Seq<char>| #[trigger]
        pairs_to(other, c) == pairs_to(list, c) {
        assert forall|c: Seq<char>| #[trigger] pairs_to(other, c) == pairs_to(sorted, c) by {
            assert(pairs_to(sorted, c) == pairs_to(list, c));
        }
        law_stable_order_is_unique(other, sorted);
    }
}

/// Removing repetitions goes pair by pair: one more pair is kept, unless it
/// equals the one just before it.
pub proof fn law_dedup_of_one_more(
    list: Seq<(Seq<char>, Seq<char>)>,
    pair: (Seq<char>, Seq<char>),
)
    ensures
        dedup_pairs(Seq::empty()).len() == 0,
        list.len() > 0 && list.last() == pair ==> dedup_pairs(list.push(pair)) == dedup_pairs(list),
        list.len() == 0 || list.last() != pair ==> dedup_pairs(list.push(pair)) == dedup_pairs(
            list,
        ).push(pair),
{
    assert(list.push(pair).drop_last() =~= list);
    if list.len() == 0 {
        assert(list.push(pair) =~= dedup_pairs(list).push(pair));
    }
}

}
