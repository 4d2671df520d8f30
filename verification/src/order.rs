//! Stable ordering, by descending number or by ascending text.
use crate::text::{less, lex_is_linear, lex_less, views};
use vstd::prelude::*;
use vstd::relations::sorted_by;
use vstd::relations::total_ordering;
use vstd::seq_lib::lemma_sorted_unique;
use vstd::seq_lib::to_multiset_insert;

verus! {

// ---------------------------------------------------------------------------
// Any order
// ---------------------------------------------------------------------------

/// The numbers `0..n` in order.
pub open spec fn upto(n: nat) -> Seq<int> {
    Seq::new(n, |i: int| i)
}

/// `better` ranks positions: nothing is better both ways, and what is neither
/// better nor worse than a position stands on its level.
pub open spec fn ranks(better: spec_fn(int, int) -> bool) -> bool {
    &&& forall|a: int, b: int| #[trigger] better(a, b) ==> !better(b, a)
    &&& forall|a: int, b: int, c: int|
        #![trigger better(a, b), better(a, c)]
        #![trigger better(a, b), better(c, b)]
        better(a, b) ==> better(a, c) || better(c, b)
}

/// Position `a` stays in front of position `b`: it is better, or they are on a
/// level and it came first.
pub open spec fn stays(better: spec_fn(int, int) -> bool, a: int, b: int) -> bool {
    better(a, b) || (!better(b, a) && a <= b)
}

/// `order` lists the positions `0..n` once each, better ones first, ties in order.
pub open spec fn is_order(n: nat, better: spec_fn(int, int) -> bool, order: Seq<int>) -> bool {
    &&& order.to_multiset() == upto(n).to_multiset()
    &&& sorted_by(order, |a: int, b: int| stays(better, a, b))
}

proof fn lemma_stays(better: spec_fn(int, int) -> bool)
    requires
        ranks(better),
    ensures
        total_ordering(|a: int, b: int| stays(better, a, b)),
{
    let leq = |a: int, b: int| stays(better, a, b);
    assert forall|x: int, y: int, z: int| #[trigger] leq(x, y) && #[trigger] leq(y, z) implies leq(x, z) by {
        if better(x, y) {
            assert(better(x, z) || better(z, y));
        } else if better(y, z) {
            assert(better(y, x) || better(x, z));
        } else if better(z, x) {
            assert(better(z, y) || better(y, x));
        }
    }
}

/// Positions have one order only.
proof fn order_is_unique(n: nat, better: spec_fn(int, int) -> bool, a: Seq<int>, b: Seq<int>)
    requires
        ranks(better),
        is_order(n, better, a),
        is_order(n, better, b),
    ensures
        a == b,
{
    lemma_stays(better);
    lemma_sorted_unique(a, b, |x: int, y: int| stays(better, x, y));
}

/// An order is a permutation of the positions, and sorted.
proof fn lemma_order(n: nat, better: spec_fn(int, int) -> bool, order: Seq<int>)
    requires
        is_order(n, better, order),
    ensures
        order.len() == n,
        order.no_duplicates(),
        forall|i: int| 0 <= i < order.len() ==> 0 <= #[trigger] order[i] < n,
        forall|x: int| 0 <= x < n ==> #[trigger] order.contains(x),
        forall|i: int, j: int|
            0 <= i < j < order.len() ==> stays(better, #[trigger] order[i], #[trigger] order[j]),
{
    let all = upto(n);
    order.to_multiset_ensures();
    all.to_multiset_ensures();
    assert forall|i: int| 0 <= i < order.len() implies 0 <= #[trigger] order[i] < n by {
        assert(order.contains(order[i]));
        assert(order.to_multiset().count(order[i]) > 0);
        assert(all.contains(order[i]));
    }
    assert forall|x: int| 0 <= x < n implies #[trigger] order.contains(x) by {
        assert(all[x] == x);
        assert(all.contains(x));
        assert(all.to_multiset().count(x) > 0);
    }
    assert(all.no_duplicates());
    all.lemma_multiset_has_no_duplicates();
    order.lemma_multiset_has_no_duplicates_conv();
    let leq = |a: int, b: int| stays(better, a, b);
    assert forall|i: int, j: int| 0 <= i < j < order.len() implies stays(
        better,
        #[trigger] order[i],
        #[trigger] order[j],
    ) by {
        assert(leq(order[i], order[j]));
    }
}

/// The next position goes behind all that are not worse.
proof fn lemma_insert(n: nat, better: spec_fn(int, int) -> bool, g: Seq<int>, p: int)
    requires
        ranks(better),
        is_order(n, better, g),
        0 <= p <= g.len(),
        p > 0 ==> !better(n as int, g[p - 1]),
        forall|k: int| p <= k < g.len() ==> better(n as int, #[trigger] g[k]),
    ensures
        is_order(n + 1, better, g.insert(p, n as int)),
{
    let i = n as int;
    let o = g.insert(p, i);
    lemma_order(n, better, g);
    to_multiset_insert(g, p, i);
    assert(upto(n + 1) =~= upto(n).push(i));
    upto(n).to_multiset_ensures();
    let leq = |a: int, b: int| stays(better, a, b);
    assert forall|a: int, b: int| 0 <= a < b < o.len() implies #[trigger] leq(o[a], o[b]) by {
        if a != p && b != p {
            let oa = if a < p {
                a
            } else {
                a - 1
            };
            let ob = if b < p {
                b
            } else {
                b - 1
            };
            assert(o[a] == g[oa] && o[b] == g[ob]);
        } else if b == p {
            assert(o[a] == g[a] && o[b] == i);
            if a < p - 1 && better(i, g[a]) {
                assert(stays(better, g[a], g[p - 1]));
                assert(better(i, g[p - 1]) || better(g[p - 1], g[a]));
            }
        } else {
            assert(o[a] == i && o[b] == g[b - 1]);
        }
    }
}

/// How many of the ordered positions stay in front of position `x`.
spec fn place_of(better: spec_fn(int, int) -> bool, g: Seq<int>, x: int) -> int
    decreases g.len(),
{
    if g.len() == 0 {
        0
    } else if better(x, g.last()) {
        place_of(better, g.drop_last(), x)
    } else {
        g.len() as int
    }
}

proof fn lemma_place_of(better: spec_fn(int, int) -> bool, g: Seq<int>, x: int)
    ensures
        0 <= place_of(better, g, x) <= g.len(),
        forall|k: int| place_of(better, g, x) <= k < g.len() ==> better(x, #[trigger] g[k]),
        place_of(better, g, x) > 0 ==> !better(x, g[place_of(better, g, x) - 1]),
    decreases g.len(),
{
    if g.len() > 0 && better(x, g.last()) {
        let d = g.drop_last();
        lemma_place_of(better, d, x);
        assert forall|k: int| place_of(better, g, x) <= k < g.len() implies better(x, #[trigger] g[k]) by {
            if k < d.len() {
                assert(d[k] == g[k]);
            }
        }
    }
}

/// Positions have an order.
proof fn order_exists(n: nat, better: spec_fn(int, int) -> bool) -> (order: Seq<int>)
    requires
        ranks(better),
    ensures
        is_order(n, better, order),
    decreases n,
{
    if n == 0 {
        assert(upto(0) =~= Seq::<int>::empty());
        Seq::empty()
    } else {
        let m = (n - 1) as nat;
        let g = order_exists(m, better);
        lemma_place_of(better, g, m as int);
        let p = place_of(better, g, m as int);
        lemma_insert(m, better, g, p);
        g.insert(p, m as int)
    }
}

/// What a list can be sorted by.
pub trait Key: Sized {
    spec fn better(self, other: Self) -> bool;

    proof fn ranks(a: Self, b: Self, c: Self)
        ensures
            a.better(b) ==> !b.better(a),
            a.better(b) ==> a.better(c) || c.better(b),
    ;

    fn is_better(&self, other: &Self) -> (r: bool)
        ensures
            r == self.better(*other),
    ;
}

/// Which of two positions holds the better key.
pub open spec fn by_key<K: Key>(keys: Seq<K>) -> spec_fn(int, int) -> bool {
    |a: int, b: int| keys[a].better(keys[b])
}

proof fn lemma_by_key<K: Key>(keys: Seq<K>)
    ensures
        ranks(by_key(keys)),
{
    let better = by_key(keys);
    assert forall|a: int, b: int| #[trigger] better(a, b) implies !better(b, a) by {
        K::ranks(keys[a], keys[b], keys[a]);
    }
    assert forall|a: int, b: int, c: int|
        #![trigger better(a, b), better(a, c)]
        #![trigger better(a, b), better(c, b)]
        better(a, b) implies better(a, c) || better(c, b) by {
        K::ranks(keys[a], keys[b], keys[c]);
    }
}

pub open spec fn positions(order: Seq<usize>) -> Seq<int> {
    order.map_values(|x: usize| x as int)
}

/// The positions of `keys` in the order of a stable sort, best first.
fn rank<K: Key>(keys: &Vec<K>) -> (order: Vec<usize>)
    ensures
        is_order(keys@.len(), by_key(keys@), positions(order@)),
        order@.len() == keys@.len(),
        forall|i: int| 0 <= i < order@.len() ==> #[trigger] order@[i] < keys@.len(),
{
    let ghost better = by_key(keys@);
    let mut order: Vec<usize> = Vec::new();
    let mut i: usize = 0;
    proof {
        lemma_by_key(keys@);
        assert(upto(0) =~= Seq::<int>::empty());
        assert(positions(order@) =~= Seq::<int>::empty());
    }
    while i < keys.len()
        invariant
            i <= keys@.len(),
            better == by_key(keys@),
            ranks(better),
            order@.len() == i,
            is_order(i as nat, better, positions(order@)),
        decreases keys@.len() - i,
    {
        let ghost g = positions(order@);
        proof {
            lemma_order(i as nat, better, g);
            assert forall|k: int| 0 <= k < i implies #[trigger] order@[k] < i by {
                assert(g[k] == order@[k]);
            }
        }
        let mut p: usize = i;
        while p > 0 && keys[i].is_better(&keys[order[p - 1]])
            invariant
                p <= i,
                i < keys@.len(),
                better == by_key(keys@),
                order@.len() == i,
                g == positions(order@),
                forall|k: int| 0 <= k < i ==> #[trigger] order@[k] < i,
                forall|k: int| p <= k < g.len() ==> better(i as int, #[trigger] g[k]),
            decreases p,
        {
            proof {
                assert(g[p - 1] == order@[p - 1]);
            }
            p -= 1;
        }
        proof {
            if p > 0 {
                assert(g[p - 1] == order@[p - 1]);
            }
            lemma_insert(i as nat, better, g, p as int);
        }
        order.insert(p, i);
        proof {
            assert(positions(order@) =~= g.insert(p as int, i as int));
        }
        i += 1;
    }
    proof {
        lemma_order(keys@.len(), better, positions(order@));
        assert forall|k: int| 0 <= k < order@.len() implies #[trigger] order@[k] < keys@.len() by {
            assert(positions(order@)[k] == order@[k]);
        }
    }
    order
}

/// The items at the listed positions.
pub open spec fn arranged<T>(items: Seq<T>, order: Seq<int>) -> Seq<T> {
    Seq::new(order.len(), |i: int| items[order[i]])
}

// ---------------------------------------------------------------------------
// Numbers
// ---------------------------------------------------------------------------

/// Item `a` stays in front of item `b`: its key is larger, or the keys tie and it came first.
pub open spec fn goes_before(keys: Seq<int>, a: int, b: int) -> bool {
    keys[a] > keys[b] || (keys[a] == keys[b] && a <= b)
}

pub open spec fn by_number(keys: Seq<int>) -> spec_fn(int, int) -> bool {
    |a: int, b: int| keys[a] > keys[b]
}

/// `order` lists every position once, by descending key, ties in input order.
pub open spec fn is_ranking(keys: Seq<int>, order: Seq<int>) -> bool {
    is_order(keys.len(), by_number(keys), order)
}

/// The order of a stable sort by descending key.
pub open spec fn ranking(keys: Seq<int>) -> Seq<int> {
    choose|order: Seq<int>| is_ranking(keys, order)
}

/// Every list of keys has a ranking.
pub proof fn ranking_exists(keys: Seq<int>)
    ensures
        is_ranking(keys, ranking(keys)),
{
    let order = order_exists(keys.len(), by_number(keys));
    assert(is_ranking(keys, order));
}

/// A list of keys has one ranking only.
pub proof fn ranking_is_unique(keys: Seq<int>, order: Seq<int>)
    requires
        is_ranking(keys, order),
    ensures
        order == ranking(keys),
{
    order_is_unique(keys.len(), by_number(keys), order, ranking(keys));
}

/// A ranking is a permutation of the positions, larger keys first.
pub proof fn ranking_is_permutation(keys: Seq<int>, order: Seq<int>)
    requires
        is_ranking(keys, order),
    ensures
        order.len() == keys.len(),
        order.no_duplicates(),
        forall|i: int| 0 <= i < order.len() ==> 0 <= #[trigger] order[i] < keys.len(),
        forall|x: int| 0 <= x < keys.len() ==> #[trigger] order.contains(x),
        forall|i: int, j: int|
            0 <= i < j < order.len() ==> goes_before(keys, #[trigger] order[i], #[trigger] order[j]),
{
    lemma_order(keys.len(), by_number(keys), order);
}

impl Key for i128 {
    open spec fn better(self, other: i128) -> bool {
        self > other
    }

    proof fn ranks(a: i128, b: i128, c: i128) {
    }

    fn is_better(&self, other: &i128) -> (r: bool) {
        *self > *other
    }
}

pub open spec fn wide(keys: Seq<i128>) -> Seq<int> {
    Seq::new(keys.len(), |i: int| keys[i] as int)
}

/// The positions of `keys` in the order of a stable sort by descending key.
pub fn rank_desc(keys: &Vec<i128>) -> (order: Vec<usize>)
    ensures
        order@.len() == keys@.len(),
        positions(order@) == ranking(wide(keys@)),
        is_ranking(wide(keys@), ranking(wide(keys@))),
        forall|i: int| 0 <= i < order@.len() ==> #[trigger] order@[i] < keys@.len(),
{
    let order = rank(keys);
    proof {
        let ks = wide(keys@);
        let leq = |a: int, b: int| stays(by_number(ks), a, b);
        lemma_order(keys@.len(), by_key(keys@), positions(order@));
        assert forall|a: int, b: int| 0 <= a < b < positions(order@).len() implies #[trigger] leq(
            positions(order@)[a],
            positions(order@)[b],
        ) by {}
        assert(is_ranking(ks, positions(order@)));
        ranking_is_unique(ks, positions(order@));
    }
    order
}

// ---------------------------------------------------------------------------
// Texts
// ---------------------------------------------------------------------------

/// Item `a` stays in front of item `b`: its text is smaller, or the texts are
/// the same and it came first.
pub open spec fn text_before(keys: Seq<Seq<char>>, a: int, b: int) -> bool {
    lex_less(keys[a], keys[b]) || (keys[a] == keys[b] && a <= b)
}

pub open spec fn by_text(keys: Seq<Seq<char>>) -> spec_fn(int, int) -> bool {
    |a: int, b: int| lex_less(keys[a], keys[b])
}

/// `order` lists every position once, by ascending text, ties in input order.
pub open spec fn is_text_ranking(keys: Seq<Seq<char>>, order: Seq<int>) -> bool {
    is_order(keys.len(), by_text(keys), order)
}

/// The order of a stable sort by ascending text.
pub open spec fn text_ranking(keys: Seq<Seq<char>>) -> Seq<int> {
    choose|order: Seq<int>| is_text_ranking(keys, order)
}

/// Code point order is transitive.
pub proof fn lex_transitive(a: Seq<char>, b: Seq<char>, c: Seq<char>)
    requires
        lex_less(a, b),
        lex_less(b, c),
    ensures
        lex_less(a, c),
    decreases a.len(),
{
    if a.len() > 0 && a[0] == b[0] && b[0] == c[0] {
        lex_transitive(a.skip(1), b.skip(1), c.skip(1));
    }
}

proof fn lemma_lex_ranks(a: Seq<char>, b: Seq<char>, c: Seq<char>)
    ensures
        lex_less(a, b) ==> !lex_less(b, a),
        lex_less(a, b) ==> lex_less(a, c) || lex_less(c, b),
{
    lex_is_linear(a, b);
    lex_is_linear(a, c);
    if lex_less(a, b) && lex_less(c, a) {
        lex_transitive(c, a, b);
    }
}

proof fn lemma_by_text(keys: Seq<Seq<char>>)
    ensures
        ranks(by_text(keys)),
{
    let better = by_text(keys);
    assert forall|a: int, b: int| #[trigger] better(a, b) implies !better(b, a) by {
        lemma_lex_ranks(keys[a], keys[b], keys[a]);
    }
    assert forall|a: int, b: int, c: int|
        #![trigger better(a, b), better(a, c)]
        #![trigger better(a, b), better(c, b)]
        better(a, b) implies better(a, c) || better(c, b) by {
        lemma_lex_ranks(keys[a], keys[b], keys[c]);
    }
}

/// Every list of texts has a ranking.
pub proof fn text_ranking_exists(keys: Seq<Seq<char>>)
    ensures
        is_text_ranking(keys, text_ranking(keys)),
{
    lemma_by_text(keys);
    let order = order_exists(keys.len(), by_text(keys));
    assert(is_text_ranking(keys, order));
}

/// A list of texts has one ranking only.
pub proof fn text_ranking_is_unique(keys: Seq<Seq<char>>, order: Seq<int>)
    requires
        is_text_ranking(keys, order),
    ensures
        order == text_ranking(keys),
{
    lemma_by_text(keys);
    order_is_unique(keys.len(), by_text(keys), order, text_ranking(keys));
}

/// A ranking by text is a permutation of the positions, smaller texts first.
pub proof fn text_ranking_is_permutation(keys: Seq<Seq<char>>, order: Seq<int>)
    requires
        is_text_ranking(keys, order),
    ensures
        order.len() == keys.len(),
        order.no_duplicates(),
        forall|i: int| 0 <= i < order.len() ==> 0 <= #[trigger] order[i] < keys.len(),
        forall|x: int| 0 <= x < keys.len() ==> #[trigger] order.contains(x),
        forall|i: int, j: int|
            0 <= i < j < order.len() ==> text_before(keys, #[trigger] order[i], #[trigger] order[j]),
{
    lemma_order(keys.len(), by_text(keys), order);
    assert forall|i: int, j: int| 0 <= i < j < order.len() implies text_before(
        keys,
        #[trigger] order[i],
        #[trigger] order[j],
    ) by {
        lex_is_linear(keys[order[i]], keys[order[j]]);
    }
}

impl Key for Vec<char> {
    open spec fn better(self, other: Vec<char>) -> bool {
        lex_less(self@, other@)
    }

    proof fn ranks(a: Vec<char>, b: Vec<char>, c: Vec<char>) {
        lemma_lex_ranks(a@, b@, c@);
    }

    fn is_better(&self, other: &Vec<char>) -> (r: bool) {
        less(self.as_slice(), other.as_slice())
    }
}

/// The positions of `keys` in the order of a stable sort by ascending text.
pub fn rank_text(keys: &Vec<Vec<char>>) -> (order: Vec<usize>)
    ensures
        order@.len() == keys@.len(),
        positions(order@) == text_ranking(views(keys@)),
        is_text_ranking(views(keys@), text_ranking(views(keys@))),
        forall|i: int| 0 <= i < order@.len() ==> #[trigger] order@[i] < keys@.len(),
{
    let order = rank(keys);
    proof {
        let ks = views(keys@);
        let leq = |a: int, b: int| stays(by_text(ks), a, b);
        lemma_order(keys@.len(), by_key(keys@), positions(order@));
        assert forall|a: int, b: int| 0 <= a < b < positions(order@).len() implies #[trigger] leq(
            positions(order@)[a],
            positions(order@)[b],
        ) by {}
        assert(is_text_ranking(ks, positions(order@)));
        text_ranking_is_unique(ks, positions(order@));
    }
    order
}

} // verus!
