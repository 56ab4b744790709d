//! Stable ordering by an integer key: the order a stable sort gives.
use vstd::prelude::*;

verus! {

/// Position `a` comes before position `b`: smaller key, or the same key and
/// an earlier position.
pub open spec fn key_before(keys: Seq<i64>, a: int, b: int) -> bool {
    keys[a] < keys[b] || (keys[a] == keys[b] && a < b)
}

/// `o` lists every position of `keys` once, ordered by key, equal keys in
/// their original order.
pub open spec fn is_key_order(keys: Seq<i64>, o: Seq<int>) -> bool {
    &&& o.len() == keys.len()
    &&& forall|i: int| 0 <= i < o.len() ==> 0 <= #[trigger] o[i] < keys.len()
    &&& forall|k: int| 0 <= k < keys.len() ==> #[trigger] o.contains(k)
    &&& forall|i: int, j: int| 0 <= i < j < o.len() ==> key_before(keys, #[trigger] o[i], #[trigger] o[j])
}

/// The positions of `keys` in stable key order.
pub open spec fn key_order(keys: Seq<i64>) -> Seq<int> {
    choose|o: Seq<int>| is_key_order(keys, o)
}

/// `items` stably sorted by `keys` (one key per item).
pub open spec fn sorted_by_keys<A>(items: Seq<A>, keys: Seq<i64>) -> Seq<A> {
    key_order(keys).map_values(|i: int| items[i])
}

proof fn lemma_key_order_prefix(keys: Seq<i64>, o1: Seq<int>, o2: Seq<int>, i: int)
    requires
        is_key_order(keys, o1),
        is_key_order(keys, o2),
        0 <= i < o1.len(),
    ensures
        forall|k: int| 0 <= k <= i ==> o1[k] == o2[k],
    decreases i,
{
    if i > 0 {
        lemma_key_order_prefix(keys, o1, o2, i - 1);
    }
    let a = o1[i];
    let b = o2[i];
    if a != b {
        if key_before(keys, a, b) {
            assert(o2.contains(a));
            let j = choose|j: int| 0 <= j < o2.len() && #[trigger] o2[j] == a;
            if j < i {
                assert(o1[j] == a);
                assert(key_before(keys, o1[j], o1[i]));
            } else {
                assert(key_before(keys, o2[i], o2[j]));
            }
        } else {
            assert(o1.contains(b));
            let j = choose|j: int| 0 <= j < o1.len() && #[trigger] o1[j] == b;
            if j < i {
                assert(o2[j] == b);
                assert(key_before(keys, o2[j], o2[i]));
            } else {
                assert(key_before(keys, o1[i], o1[j]));
            }
        }
    }
}

/// A stable key order is unique.
pub proof fn lemma_key_order_unique(keys: Seq<i64>, o1: Seq<int>, o2: Seq<int>)
    requires
        is_key_order(keys, o1),
        is_key_order(keys, o2),
    ensures
        o1 == o2,
{
    if o1.len() > 0 {
        lemma_key_order_prefix(keys, o1, o2, o1.len() - 1);
    }
    assert(o1 =~= o2);
}

/// How many of the first positions listed in `o`, from `p` on, have a key
/// of at most `key`, plus `p`: where a position with that key goes in.
spec fn le_prefix_end(keys: Seq<i64>, o: Seq<int>, key: i64, p: int) -> int
    decreases o.len() - p,
{
    if 0 <= p < o.len() && keys[o[p]] <= key {
        le_prefix_end(keys, o, key, p + 1)
    } else {
        p
    }
}

proof fn lemma_le_prefix_end(keys: Seq<i64>, o: Seq<int>, key: i64, p: int)
    requires
        0 <= p <= o.len(),
        forall|i: int| 0 <= i < p ==> keys[#[trigger] o[i]] <= key,
    ensures
        p <= le_prefix_end(keys, o, key, p) <= o.len(),
        forall|i: int| 0 <= i < le_prefix_end(keys, o, key, p) ==> keys[#[trigger] o[i]] <= key,
        le_prefix_end(keys, o, key, p) < o.len() ==> keys[o[le_prefix_end(keys, o, key, p)]] > key,
    decreases o.len() - p,
{
    if p < o.len() && keys[o[p]] <= key {
        lemma_le_prefix_end(keys, o, key, p + 1);
    }
}

/// Every list of keys has a stable key order.
pub proof fn lemma_key_order_exists(keys: Seq<i64>)
    ensures
        is_key_order(keys, key_order(keys)),
    decreases keys.len(),
{
    if keys.len() == 0 {
        let e = Seq::<int>::empty();
        assert(is_key_order(keys, e));
    } else {
        let m = keys.len() - 1;
        let prev = keys.drop_last();
        lemma_key_order_exists(prev);
        let o1 = key_order(prev);
        let key = keys[m];
        lemma_le_prefix_end(keys, o1, key, 0);
        let p = le_prefix_end(keys, o1, key, 0);
        let o = o1.insert(p, m);
        assert forall|i: int| 0 <= i < o1.len() implies 0 <= #[trigger] o1[i] < m && keys[o1[i]] == prev[o1[i]] by {}
        assert forall|i: int, j: int| 0 <= i < j < o1.len() implies key_before(keys, #[trigger] o1[i], #[trigger] o1[j]) by {
            assert(key_before(prev, o1[i], o1[j]));
        }
        assert forall|i: int| 0 <= i < o.len() implies 0 <= #[trigger] o[i] < keys.len() by {
            if i < p {
                assert(o[i] == o1[i]);
            } else if i > p {
                assert(o[i] == o1[i - 1]);
            }
        }
        assert forall|i: int, j: int| 0 <= i < j < o.len() implies key_before(keys, #[trigger] o[i], #[trigger] o[j]) by {
            if i < p && j < p {
                assert(o[i] == o1[i] && o[j] == o1[j]);
            } else if i < p && j == p {
                assert(o[i] == o1[i]);
            } else if i < p {
                assert(o[i] == o1[i] && o[j] == o1[j - 1]);
            } else if i == p {
                assert(o[j] == o1[j - 1]);
                assert(keys[o1[p]] > key);
                if j - 1 > p {
                    assert(key_before(keys, o1[p], o1[j - 1]));
                }
            } else {
                assert(o[i] == o1[i - 1] && o[j] == o1[j - 1]);
            }
        }
        assert forall|k: int| 0 <= k < keys.len() implies #[trigger] o.contains(k) by {
            if k == m {
                assert(o[p] == k);
            } else {
                assert(o1.contains(k));
                let i = choose|i: int| 0 <= i < o1.len() && #[trigger] o1[i] == k;
                if i < p {
                    assert(o[i] == k);
                } else {
                    assert(o[i + 1] == k);
                }
            }
        }
        assert(is_key_order(keys, o));
        lemma_key_order_unique(keys, o, key_order(keys));
    }
}

/// The positions of `keys` in stable key order (insertion sort).
pub fn stable_key_order(keys: &Vec<i64>) -> (o: Vec<usize>)
    ensures
        is_key_order(keys@, o@.map_values(|x: usize| x as int)),
        o@.map_values(|x: usize| x as int) == key_order(keys@),
{
    let ghost ks = keys@;
    let n = keys.len();
    let mut o: Vec<usize> = Vec::new();
    let mut m: usize = 0;
    while m < n
        invariant
            m <= n == ks.len(),
            ks == keys@,
            o@.len() == m,
            forall|i: int| 0 <= i < o@.len() ==> 0 <= #[trigger] o@[i] < m,
            forall|k: usize| 0 <= k < m ==> #[trigger] o@.contains(k),
            forall|i: int, j: int| 0 <= i < j < o@.len() ==> key_before(ks, #[trigger] o@[i] as int, #[trigger] o@[j] as int),
        decreases n - m,
    {
        let key = keys[m];
        let mut p: usize = 0;
        while p < o.len() && keys[o[p]] <= key
            invariant
                p <= o@.len() == m < n,
                n == ks.len(),
                ks == keys@,
                key == ks[m as int],
                forall|i: int| 0 <= i < o@.len() ==> 0 <= #[trigger] o@[i] < m,
                forall|i: int| 0 <= i < p ==> ks[#[trigger] o@[i] as int] <= key,
            decreases o@.len() - p,
        {
            p = p + 1;
        }
        let ghost before_insert = o@;
        o.insert(p, m);
        proof {
            assert forall|i: int, j: int| 0 <= i < j < o@.len() implies key_before(ks, #[trigger] o@[i] as int, #[trigger] o@[j] as int) by {
                if i < p && j < p {
                    assert(o@[i] == before_insert[i] && o@[j] == before_insert[j]);
                } else if i < p && j == p {
                    assert(ks[before_insert[i] as int] <= key);
                } else if i < p {
                    assert(o@[i] == before_insert[i] && o@[j] == before_insert[j - 1]);
                } else if i == p {
                    assert(o@[j] == before_insert[j - 1]);
                    if p < before_insert.len() {
                        assert(ks[before_insert[p as int] as int] > key);
                        if j - 1 > p {
                            assert(key_before(ks, before_insert[p as int] as int, before_insert[j - 1] as int));
                        }
                    }
                } else {
                    assert(o@[i] == before_insert[i - 1] && o@[j] == before_insert[j - 1]);
                }
            }
            assert forall|k: usize| 0 <= k < m + 1 implies #[trigger] o@.contains(k) by {
                if k == m {
                    assert(o@[p as int] == k);
                } else {
                    assert(before_insert.contains(k));
                    let i = choose|i: int| 0 <= i < before_insert.len() && #[trigger] before_insert[i] == k;
                    if i < p {
                        assert(o@[i] == k);
                    } else {
                        assert(o@[i + 1] == k);
                    }
                }
            }
        }
        m = m + 1;
    }
    proof {
        let oi = o@.map_values(|x: usize| x as int);
        assert forall|k: int| 0 <= k < ks.len() implies #[trigger] oi.contains(k) by {
            assert(o@.contains(k as usize));
            let i = choose|i: int| 0 <= i < o@.len() && #[trigger] o@[i] == k as usize;
            assert(oi[i] == k);
        }
        assert(is_key_order(ks, oi));
        lemma_key_order_unique(ks, oi, key_order(ks));
    }
    o
}

/// Lexicographic order of texts by character code (the order of `str`'s `cmp`).
pub open spec fn text_lt(a: Seq<char>, b: Seq<char>) -> bool
    decreases a.len(),
{
    if a.len() == 0 {
        b.len() > 0
    } else if b.len() == 0 {
        false
    } else if a[0] != b[0] {
        a[0] < b[0]
    } else {
        text_lt(a.drop_first(), b.drop_first())
    }
}

/// `text_lt` is irreflexive.
pub proof fn lemma_text_lt_irrefl(a: Seq<char>)
    ensures
        !text_lt(a, a),
    decreases a.len(),
{
    if a.len() > 0 {
        lemma_text_lt_irrefl(a.drop_first());
    }
}

/// `text_lt` is asymmetric and total on distinct texts.
pub proof fn lemma_text_lt_total(a: Seq<char>, b: Seq<char>)
    ensures
        text_lt(a, b) ==> !text_lt(b, a),
        a != b ==> text_lt(a, b) || text_lt(b, a),
    decreases a.len(),
{
    if a.len() > 0 && b.len() > 0 {
        if a[0] == b[0] {
            lemma_text_lt_total(a.drop_first(), b.drop_first());
            if a != b {
                if a.drop_first() == b.drop_first() {
                    assert(a =~= seq![a[0]] + a.drop_first());
                    assert(b =~= seq![b[0]] + b.drop_first());
                }
            }
        }
    } else if a.len() == 0 && b.len() == 0 {
        assert(a =~= b);
    }
}

/// `text_lt` is transitive.
pub proof fn lemma_text_lt_trans(a: Seq<char>, b: Seq<char>, c: Seq<char>)
    requires
        text_lt(a, b),
        text_lt(b, c),
    ensures
        text_lt(a, c),
    decreases a.len(),
{
    if a.len() > 0 && b.len() > 0 && c.len() > 0 && a[0] == b[0] && b[0] == c[0] {
        lemma_text_lt_trans(a.drop_first(), b.drop_first(), c.drop_first());
    }
}

/// `text_lt` is a strict total order.
pub proof fn lemma_text_lt_order(a: Seq<char>, b: Seq<char>, c: Seq<char>)
    ensures
        !text_lt(a, a),
        text_lt(a, b) ==> !text_lt(b, a),
        text_lt(a, b) && text_lt(b, c) ==> text_lt(a, c),
        a != b ==> text_lt(a, b) || text_lt(b, a),
{
    lemma_text_lt_irrefl(a);
    lemma_text_lt_total(a, b);
    if text_lt(a, b) && text_lt(b, c) {
        lemma_text_lt_trans(a, b, c);
    }
}

/// Position `a` comes before position `b`: smaller name, or the same name
/// and an earlier position.
pub open spec fn name_before(names: Seq<Seq<char>>, a: int, b: int) -> bool {
    text_lt(names[a], names[b]) || (names[a] == names[b] && a < b)
}

/// `o` lists every position of `names` once, ordered by name, equal names
/// in their original order.
pub open spec fn is_name_order(names: Seq<Seq<char>>, o: Seq<int>) -> bool {
    &&& o.len() == names.len()
    &&& forall|i: int| 0 <= i < o.len() ==> 0 <= #[trigger] o[i] < names.len()
    &&& forall|k: int| 0 <= k < names.len() ==> #[trigger] o.contains(k)
    &&& forall|i: int, j: int| 0 <= i < j < o.len() ==> name_before(names, #[trigger] o[i], #[trigger] o[j])
}

/// The positions of `names` in stable name order.
pub open spec fn name_order(names: Seq<Seq<char>>) -> Seq<int> {
    choose|o: Seq<int>| is_name_order(names, o)
}

proof fn lemma_name_before_asym(names: Seq<Seq<char>>, a: int, b: int)
    requires
        0 <= a < names.len(),
        0 <= b < names.len(),
        a != b,
    ensures
        name_before(names, a, b) != name_before(names, b, a),
{
    lemma_text_lt_order(names[a], names[b], names[b]);
}

proof fn lemma_name_order_prefix(names: Seq<Seq<char>>, o1: Seq<int>, o2: Seq<int>, i: int)
    requires
        is_name_order(names, o1),
        is_name_order(names, o2),
        0 <= i < o1.len(),
    ensures
        forall|k: int| 0 <= k <= i ==> o1[k] == o2[k],
    decreases i,
{
    if i > 0 {
        lemma_name_order_prefix(names, o1, o2, i - 1);
    }
    let a = o1[i];
    let b = o2[i];
    if a != b {
        lemma_name_before_asym(names, a, b);
        lemma_text_lt_irrefl(names[a]);
        lemma_text_lt_irrefl(names[b]);
        if name_before(names, a, b) {
            assert(o2.contains(a));
            let j = choose|j: int| 0 <= j < o2.len() && #[trigger] o2[j] == a;
            if j < i {
                assert(o1[j] == a);
                assert(name_before(names, o1[j], o1[i]));
            } else {
                assert(name_before(names, o2[i], o2[j]));
            }
        } else {
            assert(o1.contains(b));
            let j = choose|j: int| 0 <= j < o1.len() && #[trigger] o1[j] == b;
            if j < i {
                assert(o2[j] == b);
                assert(name_before(names, o2[j], o2[i]));
            } else {
                assert(name_before(names, o1[i], o1[j]));
            }
        }
    }
}

/// A stable name order is unique.
pub proof fn lemma_name_order_unique(names: Seq<Seq<char>>, o1: Seq<int>, o2: Seq<int>)
    requires
        is_name_order(names, o1),
        is_name_order(names, o2),
    ensures
        o1 == o2,
{
    if o1.len() > 0 {
        lemma_name_order_prefix(names, o1, o2, o1.len() - 1);
    }
    assert(o1 =~= o2);
}

/// Whether `a` comes before `b` in `text_lt` order.
pub fn text_less(a: &Vec<char>, b: &Vec<char>) -> (r: bool)
    ensures
        r == text_lt(a@, b@),
{
    let mut i: usize = 0;
    assert(a@.skip(0) == a@);
    assert(b@.skip(0) == b@);
    while i < a.len() && i < b.len() && a[i] == b[i]
        invariant
            i <= a@.len(),
            i <= b@.len(),
            a@.take(i as int) == b@.take(i as int),
            text_lt(a@, b@) == text_lt(a@.skip(i as int), b@.skip(i as int)),
        decreases a@.len() - i,
    {
        assert(a@.skip(i as int).drop_first() == a@.skip(i + 1));
        assert(b@.skip(i as int).drop_first() == b@.skip(i + 1));
        assert(a@.take(i + 1) == a@.take(i as int).push(a@[i as int]));
        assert(b@.take(i + 1) == b@.take(i as int).push(b@[i as int]));
        i = i + 1;
    }
    if i == a.len() {
        i < b.len()
    } else if i == b.len() {
        false
    } else {
        assert(a@.skip(i as int)[0] == a@[i as int]);
        assert(b@.skip(i as int)[0] == b@[i as int]);
        a[i] < b[i]
    }
}

/// The positions of `names` in stable name order (insertion sort).
pub fn stable_name_order(names: &Vec<Vec<char>>) -> (o: Vec<usize>)
    ensures
        is_name_order(names.deep_view(), o@.map_values(|x: usize| x as int)),
        o@.map_values(|x: usize| x as int) == name_order(names.deep_view()),
{
    let ghost ns = names.deep_view();
    let n = names.len();
    let mut o: Vec<usize> = Vec::new();
    let mut m: usize = 0;
    while m < n
        invariant
            m <= n == ns.len(),
            ns == names.deep_view(),
            o@.len() == m,
            forall|i: int| 0 <= i < o@.len() ==> 0 <= #[trigger] o@[i] < m,
            forall|k: usize| 0 <= k < m ==> #[trigger] o@.contains(k),
            forall|i: int, j: int| 0 <= i < j < o@.len() ==> name_before(ns, #[trigger] o@[i] as int, #[trigger] o@[j] as int),
        decreases n - m,
    {
        let mut p: usize = 0;
        assert(ns[m as int] == names@[m as int]@);
        while p < o.len() && !text_less(&names[m], &names[o[p]])
            invariant
                p <= o@.len() == m < n,
                n == ns.len(),
                ns == names.deep_view(),
                forall|i: int| 0 <= i < o@.len() ==> 0 <= #[trigger] o@[i] < m,
                forall|i: int| 0 <= i < p ==> !text_lt(ns[m as int], ns[#[trigger] o@[i] as int]),
            decreases o@.len() - p,
        {
            assert(ns[o@[p as int] as int] == names@[o@[p as int] as int]@);
            assert(ns[m as int] == names@[m as int]@);
            p = p + 1;
        }
        proof {
            if p < o@.len() {
                assert(ns[o@[p as int] as int] == names@[o@[p as int] as int]@);
            }
        }
        let ghost before_insert = o@;
        o.insert(p, m);
        proof {
            assert forall|i: int, j: int| 0 <= i < j < o@.len() implies name_before(ns, #[trigger] o@[i] as int, #[trigger] o@[j] as int) by {
                if i < p && j < p {
                    assert(o@[i] == before_insert[i] && o@[j] == before_insert[j]);
                } else if i < p && j == p {
                    let a = before_insert[i] as int;
                    assert(!text_lt(ns[m as int], ns[a]));
                    lemma_text_lt_order(ns[a], ns[m as int], ns[m as int]);
                } else if i < p {
                    assert(o@[i] == before_insert[i] && o@[j] == before_insert[j - 1]);
                } else if i == p {
                    assert(o@[j] == before_insert[j - 1]);
                    let b = before_insert[p as int] as int;
                    assert(text_lt(ns[m as int], ns[b]));
                    if j - 1 > p {
                        let c = before_insert[j - 1] as int;
                        assert(name_before(ns, b, c));
                        lemma_text_lt_order(ns[m as int], ns[b], ns[c]);
                    }
                } else {
                    assert(o@[i] == before_insert[i - 1] && o@[j] == before_insert[j - 1]);
                }
            }
            assert forall|k: usize| 0 <= k < m + 1 implies #[trigger] o@.contains(k) by {
                if k == m {
                    assert(o@[p as int] == k);
                } else {
                    assert(before_insert.contains(k));
                    let i = choose|i: int| 0 <= i < before_insert.len() && #[trigger] before_insert[i] == k;
                    if i < p {
                        assert(o@[i] == k);
                    } else {
                        assert(o@[i + 1] == k);
                    }
                }
            }
        }
        m = m + 1;
    }
    proof {
        let oi = o@.map_values(|x: usize| x as int);
        assert forall|k: int| 0 <= k < ns.len() implies #[trigger] oi.contains(k) by {
            assert(o@.contains(k as usize));
            let i = choose|i: int| 0 <= i < o@.len() && #[trigger] o@[i] == k as usize;
            assert(oi[i] == k);
        }
        assert(is_name_order(ns, oi));
        lemma_name_order_unique(ns, oi, name_order(ns));
    }
    o
}

} // verus!
