//! The order in which things are listed, and the part of a list that is shown.

use vstd::prelude::*;

verus! {

/// Pairs in ascending order: by the first number, and where that is equal by
/// the second.
pub open spec fn pairs_ascend(s: Seq<(u64, u64)>) -> bool {
    forall|i: int, j: int|
        0 <= i < j < s.len() ==> (#[trigger] s[i]).0 < (#[trigger] s[j]).0 || s[i].0 == s[j].0
            && s[i].1 <= s[j].1
}

/// `slice::sort_unstable`: puts pairs of numbers in ascending order. What it
/// gives has the same pairs as often as they occurred.
#[verifier::external_body]
fn sort_pairs(v: Vec<(u64, u64)>) -> (r: Vec<(u64, u64)>)
    ensures
        pairs_ascend(r@),
        r@.to_multiset() == v@.to_multiset(),
{
    let mut v = v;
    v.sort_unstable();
    v
}

/// `order` lists the positions of `keys`, each once, by ascending keys; equal
/// keys stay in their order.
pub open spec fn orders(keys: Seq<u64>, order: Seq<usize>) -> bool {
    &&& order.len() == keys.len()
    &&& order.no_duplicates()
    &&& forall|i: int| 0 <= i < order.len() ==> (#[trigger] order[i]) < keys.len()
    &&& forall|i: int, j: int|
        0 <= i < j < order.len() ==> keys[(#[trigger] order[i]) as int] < keys[(
        #[trigger] order[j]) as int] || keys[order[i] as int] == keys[order[j] as int] && order[i]
            < order[j]
}

/// The positions of keys by ascending keys; equal keys stay in their order.
pub fn order_by(keys: &Vec<u64>) -> (r: Vec<usize>)
    ensures
        orders(keys@, r@),
{
    let mut pairs: Vec<(u64, u64)> = Vec::new();
    let n: usize = keys.len();
    for i in 0..n
        invariant
            n == keys@.len(),
            pairs@.len() == i,
            forall|j: int| 0 <= j < i ==> #[trigger] pairs@[j] == (keys@[j], j as u64),
    {
        pairs.push((keys[i], i as u64));
    }
    let ghost all = pairs@;
    let sorted = sort_pairs(pairs);
    proof {
        all.to_multiset_ensures();
        sorted@.to_multiset_ensures();
        assert(all.no_duplicates());
        all.lemma_multiset_has_no_duplicates();
        sorted@.lemma_multiset_has_no_duplicates_conv();
        assert(sorted@.len() == all.len());
        assert forall|k: int| 0 <= k < sorted@.len() implies (#[trigger] sorted@[k]).1 < n
            && sorted@[k].0 == keys@[sorted@[k].1 as int] by {
            assert(sorted@.contains(sorted@[k]));
            assert(sorted@.to_multiset().count(sorted@[k]) > 0);
            assert(all.contains(sorted@[k]));
            let j = choose|j: int| 0 <= j < all.len() && all[j] == sorted@[k];
            assert(all[j] == (keys@[j], j as u64));
        }
    }
    let mut r: Vec<usize> = Vec::new();
    for i in 0..n
        invariant
            n == sorted@.len(),
            forall|k: int| 0 <= k < n ==> (#[trigger] sorted@[k]).1 < n,
            r@.len() == i,
            forall|j: int| 0 <= j < i ==> #[trigger] r@[j] == sorted@[j].1,
    {
        r.push(sorted[i].1 as usize);
    }
    assert forall|i: int, j: int| 0 <= i < j < r@.len() implies keys@[(#[trigger] r@[i]) as int]
        < keys@[(#[trigger] r@[j]) as int] || keys@[r@[i] as int] == keys@[r@[j] as int] && r@[i]
        < r@[j] by {
        assert(sorted@[i] != sorted@[j]);
        assert(sorted@[i].0 == keys@[sorted@[i].1 as int]);
        assert(sorted@[j].0 == keys@[sorted@[j].1 as int]);
    }
    assert(r@.no_duplicates()) by {
        assert forall|i: int, j: int| 0 <= i < r@.len() && 0 <= j < r@.len() && i != j implies r@[i]
            != r@[j] by {
            assert(sorted@[i] != sorted@[j]);
            assert(sorted@[i].0 == keys@[sorted@[i].1 as int]);
            assert(sorted@[j].0 == keys@[sorted@[j].1 as int]);
        }
    }
    r
}

/// The positions of keys by descending keys; equal keys stay in their order.
pub fn order_down(keys: &Vec<u64>) -> (r: Vec<usize>)
    ensures
        orders(falling(keys@), r@),
{
    let mut turned: Vec<u64> = Vec::new();
    let n: usize = keys.len();
    for i in 0..n
        invariant
            n == keys@.len(),
            turned@.len() == i,
            forall|j: int| 0 <= j < i ==> #[trigger] turned@[j] == u64::MAX - keys@[j],
    {
        turned.push(u64::MAX - keys[i]);
    }
    assert(turned@ =~= falling(keys@));
    order_by(&turned)
}

/// Keys that ascend where others descend.
pub open spec fn falling(keys: Seq<u64>) -> Seq<u64> {
    keys.map_values(|k: u64| (u64::MAX - k) as u64)
}

spec fn key_or_zero(keys: Seq<u64>, i: usize) -> u64 {
    if i < keys.len() {
        keys[i as int]
    } else {
        0
    }
}

spec fn not_after(keys: Seq<u64>) -> spec_fn(usize, usize) -> bool {
    |a: usize, b: usize|
        key_or_zero(keys, a) < key_or_zero(keys, b) || key_or_zero(keys, a) == key_or_zero(keys, b)
            && a <= b
}

proof fn lemma_lists_all(keys: Seq<u64>, order: Seq<usize>, x: usize)
    requires
        orders(keys, order),
        keys.len() <= usize::MAX,
    ensures
        order.contains(x) <==> x < keys.len(),
{
    let all = Seq::new(keys.len(), |i: int| i as usize);
    assert(all.no_duplicates());
    assert(order.to_set().subset_of(all.to_set())) by {
        assert forall|y: usize| order.to_set().contains(y) implies all.to_set().contains(y) by {
            let i = choose|i: int| 0 <= i < order.len() && order[i] == y;
            assert(all[order[i] as int] == y);
        }
    }
    order.unique_seq_to_set();
    all.unique_seq_to_set();
    vstd::set_lib::lemma_subset_equality(order.to_set(), all.to_set());
    if x < keys.len() {
        assert(all[x as int] == x);
        assert(all.to_set().contains(x));
        assert(order.to_set().contains(x));
    }
}

/// Keys are ordered in one way only.
pub proof fn law_one_order(keys: Seq<u64>, a: Seq<usize>, b: Seq<usize>)
    requires
        orders(keys, a),
        orders(keys, b),
        keys.len() <= usize::MAX,
    ensures
        a == b,
{
    let leq = not_after(keys);
    assert(vstd::relations::sorted_by(a, leq));
    assert(vstd::relations::sorted_by(b, leq));
    assert(vstd::relations::total_ordering(leq));
    a.to_multiset_ensures();
    b.to_multiset_ensures();
    a.lemma_multiset_has_no_duplicates();
    b.lemma_multiset_has_no_duplicates();
    assert(a.to_multiset() =~= b.to_multiset()) by {
        assert forall|x: usize| a.to_multiset().count(x) == b.to_multiset().count(x) by {
            lemma_lists_all(keys, a, x);
            lemma_lists_all(keys, b, x);
        }
    }
    vstd::seq_lib::lemma_sorted_unique(a, b, leq);
}

/// The positions of keys by descending keys; equal keys stay in their order.
pub open spec fn ranking(keys: Seq<u64>) -> Seq<usize> {
    choose|order: Seq<usize>| orders(falling(keys), order)
}

/// Keys can be ordered: their ranking lists each position once, by descending
/// keys.
pub proof fn law_ranking(keys: Seq<u64>)
    requires
        keys.len() <= usize::MAX,
    ensures
        orders(falling(keys), ranking(keys)),
        forall|x: usize| #[trigger] ranking(keys).contains(x) <==> x < keys.len(),
{
    let f = falling(keys);
    let leq = not_after(f);
    let all = Seq::new(keys.len(), |i: int| i as usize);
    let order = all.sort_by(leq);
    assert(vstd::relations::total_ordering(leq));
    all.lemma_sort_by_ensures(leq);
    all.to_multiset_ensures();
    order.to_multiset_ensures();
    assert(all.no_duplicates());
    all.lemma_multiset_has_no_duplicates();
    order.lemma_multiset_has_no_duplicates_conv();
    assert forall|k: int| 0 <= k < order.len() implies (#[trigger] order[k]) < keys.len() by {
        assert(order.contains(order[k]));
        assert(order.to_multiset().count(order[k]) > 0);
        assert(all.contains(order[k]));
    }
    assert forall|i: int, j: int| 0 <= i < j < order.len() implies f[(#[trigger] order[i]) as int]
        < f[(#[trigger] order[j]) as int] || f[order[i] as int] == f[order[j] as int] && order[i]
        < order[j] by {
        assert(leq(order[i], order[j]));
        assert(order[i] != order[j]);
    }
    assert(orders(f, order));
    assert forall|x: usize| #[trigger] ranking(keys).contains(x) <==> x < keys.len() by {
        lemma_lists_all(f, ranking(keys), x);
    }
}

/// `top` are the positions of `n` weights, the heaviest first, with none left
/// out that is heavier than one of them.
pub open spec fn heaviest(weights: Seq<u64>, n: int, top: Seq<int>) -> bool {
    &&& top.len() == n
    &&& top.no_duplicates()
    &&& forall|k: int| 0 <= k < top.len() ==> 0 <= #[trigger] top[k] < weights.len()
    &&& forall|j: int, k: int|
        0 <= j < k < top.len() ==> weights[#[trigger] top[j]] >= weights[#[trigger] top[k]]
    &&& forall|i: int, k: int|
        0 <= i < weights.len() && 0 <= k < top.len() && !top.contains(i) ==> #[trigger] weights[i]
            <= weights[#[trigger] top[k]]
}

/// The first positions of a ranking are those of the heaviest.
pub proof fn law_heaviest_first(weights: Seq<u64>, n: int) -> (top: Seq<int>)
    requires
        0 <= n <= weights.len() <= usize::MAX,
    ensures
        heaviest(weights, n, top),
        forall|k: int| 0 <= k < n ==> #[trigger] top[k] == ranking(weights)[k],
{
    law_ranking(weights);
    let f = falling(weights);
    let o = ranking(weights);
    let top = Seq::new(n as nat, |k: int| o[k] as int);
    assert forall|j: int, k: int| 0 <= j < k < weights.len() implies weights[(#[trigger] o[j]) as int]
        >= weights[(#[trigger] o[k]) as int] by {
        assert(f[o[j] as int] <= f[o[k] as int]);
    }
    assert forall|j: int, k: int| 0 <= j < k < top.len() implies weights[#[trigger] top[j]]
        >= weights[#[trigger] top[k]] by {
        assert(weights[o[j] as int] >= weights[o[k] as int]);
    }
    assert forall|k: int| 0 <= k < top.len() implies 0 <= #[trigger] top[k] < weights.len() by {
        assert(o[k] < f.len());
    }
    assert forall|i: int, k: int|
        0 <= i < weights.len() && 0 <= k < top.len() && !top.contains(i) implies #[trigger] weights[i]
        <= weights[#[trigger] top[k]] by {
        assert(o.contains(i as usize));
        let m = choose|m: int| 0 <= m < o.len() && o[m] == i as usize;
        if m < n {
            assert(top[m] == i);
        }
        assert(k < m);
        assert(weights[o[k] as int] >= weights[o[m] as int]);
    }
    top
}

/// The positions of keys by descending keys; equal keys stay in their order.
pub fn rank(keys: &Vec<u64>) -> (r: Vec<usize>)
    ensures
        r@ == ranking(keys@),
        orders(falling(keys@), r@),
{
    let r = order_down(keys);
    let n: usize = keys.len();
    proof {
        assert(falling(keys@).len() == n);
        law_one_order(falling(keys@), r@, ranking(keys@));
    }
    r
}

// ---------------------------------------------------------------------------
// Windows
// ---------------------------------------------------------------------------

/// The part of a list that is shown.
#[derive(Clone, Copy, PartialEq, Eq, Structural, Debug)]
pub struct Window {
    /// The number of entries before it.
    pub skip: usize,
    /// The number of its entries.
    pub shown: usize,
    /// Whether it does not end with the last entry.
    pub scrolled: bool,
}

/// The lesser of two numbers.
pub open spec fn lesser(a: int, b: int) -> int {
    if a < b {
        a
    } else {
        b
    }
}

/// The difference of two numbers, or zero.
pub open spec fn above(a: int, b: int) -> int {
    if a > b {
        a - b
    } else {
        0
    }
}

/// How far a list is scrolled back: not beyond its first entry, and not at all
/// while it runs.
pub open spec fn scrolled_back(total: int, rows: int, paused: bool, scroll: int) -> int {
    if paused {
        lesser(scroll, above(total, rows))
    } else {
        0
    }
}

/// The part of a list that is shown in some rows. It ends as many entries
/// before the last as the list is scrolled back.
pub open spec fn window(total: usize, rows: usize, paused: bool, scroll: usize) -> Window {
    let back = scrolled_back(total as int, rows as int, paused, scroll as int);
    Window {
        skip: (above(total as int, rows as int) - back) as usize,
        shown: lesser(total as int, rows as int) as usize,
        scrolled: back > 0,
    }
}

/// The part of a list that is shown in some rows.
pub fn window_of(total: usize, rows: usize, paused: bool, scroll: usize) -> (r: Window)
    ensures
        r == window(total, rows, paused, scroll),
        r.skip + r.shown <= total,
        r.shown <= rows,
{
    let most: usize = if total > rows {
        total - rows
    } else {
        0
    };
    let back: usize = if !paused {
        0
    } else if scroll < most {
        scroll
    } else {
        most
    };
    let shown: usize = if total < rows {
        total
    } else {
        rows
    };
    Window { skip: most - back, shown, scrolled: back > 0 }
}

/// A window shows as many entries as there are rows for, if there are so many,
/// and while the list runs it shows the last.
pub proof fn law_window(total: usize, rows: usize, paused: bool, scroll: usize)
    ensures
        ({
            let w = window(total, rows, paused, scroll);
            &&& w.skip + w.shown <= total
            &&& total >= rows ==> w.shown == rows
            &&& total < rows ==> w.skip == 0 && w.shown == total
            &&& !paused ==> w.skip + w.shown == total
        }),
{
}

/// What is shown of a long list: its end while it is followed; while it is
/// scrolled, as many places further back as it was scrolled, at most to its
/// beginning.
pub proof fn law_window_follows(total: usize, rows: usize, scroll: usize)
    requires
        total >= rows,
    ensures
        window(total, rows, false, scroll).skip == total - rows,
        !window(total, rows, false, scroll).scrolled,
        scroll <= total - rows ==> window(total, rows, true, scroll).skip == total - rows - scroll,
        scroll > total - rows ==> window(total, rows, true, scroll).skip == 0,
        window(total, rows, true, scroll).shown == rows,
        window(total, rows, true, 0) == window(total, rows, false, scroll),
{
}

} // verus!
