//! Lexicographic order on text, and sorted sets and maps keyed by text.
//!
//! `String`'s `Ord` compares UTF-8 bytes; because UTF-8 preserves the order of
//! code points, that is the lexicographic order of the characters, which is
//! what `lex_lt` states.

use vstd::prelude::*;

use crate::text::{chars_of, str_eq};

verus! {

/// Strict lexicographic order on character sequences.
pub open spec fn lex_lt(a: Seq<char>, b: Seq<char>) -> bool
    decreases a.len(),
{
    if a.len() == 0 {
        b.len() > 0
    } else if b.len() == 0 {
        false
    } else if a[0] < b[0] {
        true
    } else if a[0] == b[0] {
        lex_lt(a.drop_first(), b.drop_first())
    } else {
        false
    }
}

pub open spec fn lex_le(a: Seq<char>, b: Seq<char>) -> bool {
    a == b || lex_lt(a, b)
}

/// Every element strictly precedes the next.
pub open spec fn strictly_sorted(s: Seq<Seq<char>>) -> bool {
    forall|i: int, j: int| 0 <= i < j < s.len() ==> lex_lt(#[trigger] s[i], #[trigger] s[j])
}

/// The views of a vector of strings.
pub open spec fn views(v: Seq<String>) -> Seq<Seq<char>> {
    v.map_values(|s: String| s@)
}

pub proof fn lemma_lex_irreflexive(a: Seq<char>)
    ensures
        !lex_lt(a, a),
    decreases a.len(),
{
    if a.len() > 0 {
        lemma_lex_irreflexive(a.drop_first());
    }
}

pub proof fn lemma_lex_asymmetric(a: Seq<char>, b: Seq<char>)
    ensures
        lex_lt(a, b) ==> !lex_lt(b, a),
    decreases a.len(),
{
    if a.len() > 0 && b.len() > 0 && a[0] == b[0] {
        lemma_lex_asymmetric(a.drop_first(), b.drop_first());
    }
}

pub proof fn lemma_lex_transitive(a: Seq<char>, b: Seq<char>, c: Seq<char>)
    requires
        lex_lt(a, b),
        lex_lt(b, c),
    ensures
        lex_lt(a, c),
    decreases a.len(),
{
    if a.len() > 0 && b.len() > 0 && c.len() > 0 && a[0] == b[0] && b[0] == c[0] {
        lemma_lex_transitive(a.drop_first(), b.drop_first(), c.drop_first());
    }
}

pub proof fn lemma_lex_total(a: Seq<char>, b: Seq<char>)
    ensures
        a == b || lex_lt(a, b) || lex_lt(b, a),
    decreases a.len(),
{
    if a.len() > 0 && b.len() > 0 && a[0] == b[0] {
        lemma_lex_total(a.drop_first(), b.drop_first());
        if a.drop_first() == b.drop_first() {
            assert(a =~= seq![a[0]] + a.drop_first());
            assert(b =~= seq![b[0]] + b.drop_first());
        }
    } else if a.len() == 0 && b.len() == 0 {
        assert(a =~= b);
    }
}

/// A three-way comparison result.
#[derive(Clone, Copy, Debug, PartialEq, Eq)]
pub enum Order {
    Less,
    Equal,
    Greater,
}

/// Lexicographic comparison of two string slices.
pub fn compare_str(a: &str, b: &str) -> (r: Order)
    ensures
        r == Order::Less <==> lex_lt(a@, b@),
        r == Order::Equal <==> a@ == b@,
        r == Order::Greater <==> lex_lt(b@, a@),
{
    let x = chars_of(a);
    let y = chars_of(b);
    let mut i: usize = 0;
    while i < x.len() && i < y.len() && x[i] == y[i]
        invariant
            i <= x@.len(),
            i <= y@.len(),
            x@ == a@,
            y@ == b@,
            x@.take(i as int) == y@.take(i as int),
        decreases x@.len() - i,
    {
        assert(x@.take(i as int + 1) =~= x@.take(i as int).push(x@[i as int]));
        assert(y@.take(i as int + 1) =~= y@.take(i as int).push(y@[i as int]));
        i += 1;
    }
    proof {
        lemma_lex_common_prefix(a@, b@, i as int);
        lemma_lex_irreflexive(a@);
        lemma_lex_asymmetric(a@, b@);
        lemma_lex_total(a@, b@);
    }
    if i < x.len() && i < y.len() {
        if x[i] < y[i] {
            Order::Less
        } else {
            Order::Greater
        }
    } else if i < y.len() {
        Order::Less
    } else if i < x.len() {
        Order::Greater
    } else {
        assert(a@ =~= x@.take(i as int));
        assert(b@ =~= y@.take(i as int));
        Order::Equal
    }
}

/// Comparison after a common prefix of length `i` is decided by the rest.
pub proof fn lemma_lex_common_prefix(a: Seq<char>, b: Seq<char>, i: int)
    requires
        0 <= i <= a.len(),
        i <= b.len(),
        a.take(i) == b.take(i),
    ensures
        lex_lt(a, b) == lex_lt(a.skip(i), b.skip(i)),
    decreases i,
{
    if i > 0 {
        assert(a[0] == a.take(i)[0]);
        assert(b[0] == b.take(i)[0]);
        assert(a.drop_first().take(i - 1) =~= a.take(i).drop_first());
        assert(b.drop_first().take(i - 1) =~= b.take(i).drop_first());
        lemma_lex_common_prefix(a.drop_first(), b.drop_first(), i - 1);
        assert(a.drop_first().skip(i - 1) =~= a.skip(i));
        assert(b.drop_first().skip(i - 1) =~= b.skip(i));
    } else {
        assert(a.skip(0) =~= a);
        assert(b.skip(0) =~= b);
    }
}

/// Insertion into a strictly sorted set of texts.
pub open spec fn set_insert(s: Seq<Seq<char>>, x: Seq<char>) -> Seq<Seq<char>>
    decreases s.len(),
{
    if s.len() == 0 {
        seq![x]
    } else if s[0] == x {
        s
    } else if lex_lt(x, s[0]) {
        seq![x] + s
    } else {
        seq![s[0]] + set_insert(s.drop_first(), x)
    }
}

/// `set_insert` at the first position not preceding `x`.
pub proof fn lemma_set_insert_at(s: Seq<Seq<char>>, x: Seq<char>, i: int)
    requires
        0 <= i <= s.len(),
        forall|j: int| 0 <= j < i ==> lex_lt(#[trigger] s[j], x),
        i < s.len() ==> lex_le(x, s[i]),
    ensures
        set_insert(s, x) == if i < s.len() && s[i] == x {
            s
        } else {
            s.insert(i, x)
        },
    decreases i,
{
    if i == 0 {
        if s.len() == 0 {
            assert(s.insert(0, x) =~= seq![x]);
        } else if s[0] != x {
            assert(s.insert(0, x) =~= seq![x] + s);
        }
    } else {
        assert(lex_lt(s[0], x));
        lemma_lex_irreflexive(x);
        lemma_lex_asymmetric(s[0], x);
        let t = s.drop_first();
        assert forall|j: int| 0 <= j < i - 1 implies lex_lt(#[trigger] t[j], x) by {
            assert(t[j] == s[j + 1]);
        }
        if i < s.len() {
            assert(t[i - 1] == s[i]);
        }
        lemma_set_insert_at(t, x, i - 1);
        if i < s.len() && s[i] == x {
            assert(seq![s[0]] + t =~= s);
        } else {
            assert(seq![s[0]] + t.insert(i - 1, x) =~= s.insert(i, x));
        }
    }
}

/// Insertion into a strictly sorted sequence preserves strict sortedness.
pub proof fn lemma_insert_sorted(s: Seq<Seq<char>>, x: Seq<char>, i: int)
    requires
        strictly_sorted(s),
        0 <= i <= s.len(),
        forall|j: int| 0 <= j < i ==> lex_lt(#[trigger] s[j], x),
        forall|j: int| i <= j < s.len() ==> lex_lt(x, #[trigger] s[j]),
    ensures
        strictly_sorted(s.insert(i, x)),
{
    let nv = s.insert(i, x);
    assert forall|a: int, b: int| 0 <= a < b < nv.len() implies lex_lt(
        #[trigger] nv[a],
        #[trigger] nv[b],
    ) by {
        if b < i {
        } else if b == i {
        } else if a < i {
            assert(nv[b] == s[b - 1]);
            lemma_lex_transitive(nv[a], x, nv[b]);
        } else if a == i {
            assert(nv[b] == s[b - 1]);
        } else {
            assert(nv[a] == s[a - 1]);
            assert(nv[b] == s[b - 1]);
        }
    }
}

/// The first index whose element does not precede `x`.
pub fn sorted_position(v: &Vec<String>, x: &str) -> (r: usize)
    requires
        strictly_sorted(views(v@)),
    ensures
        r <= v@.len(),
        forall|j: int| 0 <= j < r ==> lex_lt(#[trigger] views(v@)[j], x@),
        r < v@.len() ==> lex_le(x@, views(v@)[r as int]),
{
    let mut i: usize = 0;
    while i < v.len()
        invariant
            i <= v@.len(),
            forall|j: int| 0 <= j < i ==> lex_lt(#[trigger] views(v@)[j], x@),
        decreases v@.len() - i,
    {
        match compare_str(v[i].as_str(), x) {
            Order::Less => {},
            _ => {
                return i;
            },
        }
        i += 1;
    }
    i
}

/// Inserts `x` into a strictly sorted vector of strings, keeping it strictly
/// sorted; a value already present is left in place.
pub fn sorted_insert(v: &mut Vec<String>, x: String)
    requires
        strictly_sorted(views(old(v)@)),
    ensures
        strictly_sorted(views(final(v)@)),
        views(final(v)@) == set_insert(views(old(v)@), x@),
{
    let ghost old_views = views(v@);
    let i = sorted_position(v, x.as_str());
    proof {
        lemma_set_insert_at(old_views, x@, i as int);
    }
    if i < v.len() && str_eq(v[i].as_str(), x.as_str()) {
        return;
    }
    proof {
        assert forall|j: int| i <= j < old_views.len() implies lex_lt(x@, #[trigger] old_views[j]) by {
            assert(lex_lt(x@, old_views[i as int]));
            if j > i {
                lemma_lex_transitive(x@, old_views[i as int], old_views[j]);
            }
        }
        lemma_insert_sorted(old_views, x@, i as int);
    }
    v.insert(i, x);
    assert(views(v@) =~= old_views.insert(i as int, x@));
}

/// The views of a vector of text pairs.
pub open spec fn pair_views(v: Seq<(String, String)>) -> Seq<(Seq<char>, Seq<char>)> {
    v.map_values(|p: (String, String)| (p.0@, p.1@))
}

/// The keys of a sequence of pairs.
pub open spec fn keys(s: Seq<(Seq<char>, Seq<char>)>) -> Seq<Seq<char>> {
    s.map_values(|p: (Seq<char>, Seq<char>)| p.0)
}

/// Insertion into a map held as pairs strictly sorted by key; an existing key
/// has its value replaced.
pub open spec fn kv_insert(s: Seq<(Seq<char>, Seq<char>)>, k: Seq<char>, v: Seq<char>) -> Seq<
    (Seq<char>, Seq<char>),
>
    decreases s.len(),
{
    if s.len() == 0 {
        seq![(k, v)]
    } else if s[0].0 == k {
        seq![(k, v)] + s.drop_first()
    } else if lex_lt(k, s[0].0) {
        seq![(k, v)] + s
    } else {
        seq![s[0]] + kv_insert(s.drop_first(), k, v)
    }
}

/// The value stored under `k`, if any.
pub open spec fn kv_get(s: Seq<(Seq<char>, Seq<char>)>, k: Seq<char>) -> Option<Seq<char>>
    decreases s.len(),
{
    if s.len() == 0 {
        None
    } else if s[0].0 == k {
        Some(s[0].1)
    } else {
        kv_get(s.drop_first(), k)
    }
}

pub proof fn lemma_kv_insert_at(s: Seq<(Seq<char>, Seq<char>)>, k: Seq<char>, v: Seq<char>, i: int)
    requires
        strictly_sorted(keys(s)),
        0 <= i <= s.len(),
        forall|j: int| 0 <= j < i ==> lex_lt(#[trigger] s[j].0, k),
        i < s.len() ==> lex_le(k, s[i].0),
    ensures
        kv_insert(s, k, v) == if i < s.len() && s[i].0 == k {
            s.update(i, (k, v))
        } else {
            s.insert(i, (k, v))
        },
        kv_get(s, k) == if i < s.len() && s[i].0 == k {
            Some(s[i].1)
        } else {
            None::<Seq<char>>
        },
    decreases i,
{
    if i == 0 {
        if s.len() == 0 {
            assert(s.insert(0, (k, v)) =~= seq![(k, v)]);
        } else if s[0].0 == k {
            assert(s.update(0, (k, v)) =~= seq![(k, v)] + s.drop_first());
        } else {
            assert(s.insert(0, (k, v)) =~= seq![(k, v)] + s);
            lemma_kv_get_absent(s, k);
        }
    } else {
        assert(lex_lt(s[0].0, k));
        lemma_lex_irreflexive(k);
        lemma_lex_asymmetric(s[0].0, k);
        let t = s.drop_first();
        assert forall|j: int| 0 <= j < i - 1 implies lex_lt(#[trigger] t[j].0, k) by {
            assert(t[j] == s[j + 1]);
        }
        if i < s.len() {
            assert(t[i - 1] == s[i]);
        }
        lemma_keys_drop_first(s);
        lemma_kv_insert_at(t, k, v, i - 1);
        if i < s.len() && s[i].0 == k {
            assert(seq![s[0]] + t.update(i - 1, (k, v)) =~= s.update(i, (k, v)));
        } else {
            assert(seq![s[0]] + t.insert(i - 1, (k, v)) =~= s.insert(i, (k, v)));
        }
    }
}

pub proof fn lemma_keys_drop_first(s: Seq<(Seq<char>, Seq<char>)>)
    requires
        s.len() > 0,
        strictly_sorted(keys(s)),
    ensures
        strictly_sorted(keys(s.drop_first())),
{
    let t = s.drop_first();
    assert forall|a: int, b: int| 0 <= a < b < keys(t).len() implies lex_lt(
        #[trigger] keys(t)[a],
        #[trigger] keys(t)[b],
    ) by {
        assert(keys(t)[a] == keys(s)[a + 1]);
        assert(keys(t)[b] == keys(s)[b + 1]);
    }
}

/// In a key-sorted sequence, a key smaller than the first key is absent.
pub proof fn lemma_kv_get_absent(s: Seq<(Seq<char>, Seq<char>)>, k: Seq<char>)
    requires
        s.len() > 0 ==> lex_lt(k, s[0].0),
        strictly_sorted(keys(s)),
    ensures
        kv_get(s, k) is None,
    decreases s.len(),
{
    if s.len() > 0 {
        lemma_lex_irreflexive(k);
        let t = s.drop_first();
        lemma_keys_drop_first(s);
        if t.len() > 0 {
            assert(keys(s)[0] == s[0].0);
            assert(keys(s)[1] == t[0].0);
            lemma_lex_transitive(k, s[0].0, t[0].0);
        }
        lemma_kv_get_absent(t, k);
    }
}

/// The first index whose key does not precede `k`.
pub fn key_position(v: &Vec<(String, String)>, k: &str) -> (r: usize)
    ensures
        r <= v@.len(),
        forall|j: int| 0 <= j < r ==> lex_lt(#[trigger] pair_views(v@)[j].0, k@),
        r < v@.len() ==> lex_le(k@, pair_views(v@)[r as int].0),
{
    let mut i: usize = 0;
    while i < v.len()
        invariant
            i <= v@.len(),
            forall|j: int| 0 <= j < i ==> lex_lt(#[trigger] pair_views(v@)[j].0, k@),
        decreases v@.len() - i,
    {
        match compare_str(v[i].0.as_str(), k) {
            Order::Less => {},
            _ => {
                return i;
            },
        }
        i += 1;
    }
    i
}

/// `BTreeMap::insert` on a map held as pairs strictly sorted by key: the
/// pair is placed in key order, replacing the value of an existing key,
/// whose previous value is returned.
pub fn kv_put(v: &mut Vec<(String, String)>, k: String, val: String) -> (prev: Option<String>)
    requires
        strictly_sorted(keys(pair_views(old(v)@))),
    ensures
        strictly_sorted(keys(pair_views(final(v)@))),
        pair_views(final(v)@) == kv_insert(pair_views(old(v)@), k@, val@),
        match kv_get(pair_views(old(v)@), k@) {
            Some(p) => prev matches Some(q) && q@ == p,
            None => prev is None,
        },
{
    let ghost old_pairs = pair_views(v@);
    let i = key_position(v, k.as_str());
    proof {
        lemma_kv_insert_at(old_pairs, k@, val@, i as int);
    }
    if i < v.len() && str_eq(v[i].0.as_str(), k.as_str()) {
        let (_, previous) = v.remove(i);
        v.insert(i, (k, val));
        assert(pair_views(v@) =~= old_pairs.update(i as int, (k@, val@)));
        proof {
            assert forall|a: int, b: int| 0 <= a < b < keys(pair_views(v@)).len() implies lex_lt(
                #[trigger] keys(pair_views(v@))[a],
                #[trigger] keys(pair_views(v@))[b],
            ) by {
                assert(keys(pair_views(v@))[a] == keys(old_pairs)[a]);
                assert(keys(pair_views(v@))[b] == keys(old_pairs)[b]);
            }
        }
        Some(previous)
    } else {
        proof {
            let ks = keys(old_pairs);
            assert forall|j: int| 0 <= j < i implies lex_lt(#[trigger] ks[j], k@) by {
                assert(ks[j] == old_pairs[j].0);
            }
            assert forall|j: int| i <= j < ks.len() implies lex_lt(k@, #[trigger] ks[j]) by {
                assert(ks[i as int] == old_pairs[i as int].0);
                assert(lex_lt(k@, ks[i as int]));
                if j > i {
                    lemma_lex_transitive(k@, ks[i as int], ks[j]);
                }
            }
            lemma_insert_sorted(ks, k@, i as int);
            assert(keys(old_pairs.insert(i as int, (k@, val@))) =~= ks.insert(i as int, k@));
        }
        v.insert(i, (k, val));
        assert(pair_views(v@) =~= old_pairs.insert(i as int, (k@, val@)));
        None
    }
}

/// Whether a strictly sorted vector of strings holds `x`.
pub fn sorted_contains(v: &Vec<String>, x: &str) -> (r: bool)
    ensures
        r == views(v@).contains(x@),
{
    let mut i: usize = 0;
    while i < v.len()
        invariant
            i <= v@.len(),
            forall|j: int| 0 <= j < i ==> views(v@)[j] != x@,
        decreases v@.len() - i,
    {
        if str_eq(v[i].as_str(), x) {
            assert(views(v@)[i as int] == x@);
            return true;
        }
        i += 1;
    }
    false
}

/// The strictly sorted arrangement of a finite set of texts.
pub open spec fn sorted_of(s: Set<Seq<char>>) -> Seq<Seq<char>> {
    choose|q: Seq<Seq<char>>| strictly_sorted(q) && q.to_set() == s
}

/// Every finite set of texts has a strictly sorted arrangement, and
/// `sorted_of` is one.
pub proof fn lemma_sorted_of_finite(s: Set<Seq<char>>)
    requires
        s.finite(),
    ensures
        strictly_sorted(sorted_of(s)),
        sorted_of(s).to_set() == s,
    decreases s.len(),
{
    if s.len() == 0 {
        s.lemma_len0_is_empty();
        let q = Seq::<Seq<char>>::empty();
        assert(q.to_set() =~= s);
        assert(strictly_sorted(q));
    } else {
        let x = s.choose();
        let r = s.remove(x);
        lemma_sorted_of_finite(r);
        lemma_set_insert_contents(sorted_of(r), x);
        let q = set_insert(sorted_of(r), x);
        assert(r.insert(x) =~= s);
        assert(strictly_sorted(q) && q.to_set() == s);
    }
}

/// Inserting into a sorted set adds exactly the inserted text.
pub proof fn lemma_set_insert_contents(s: Seq<Seq<char>>, x: Seq<char>)
    requires
        strictly_sorted(s),
    ensures
        set_insert(s, x).to_set() == s.to_set().insert(x),
        strictly_sorted(set_insert(s, x)),
    decreases s.len(),
{
    if s.len() == 0 {
        assert(seq![x].to_set() =~= Set::<Seq<char>>::empty().insert(x)) by {
            assert(seq![x][0] == x);
            assert(seq![x].contains(x));
            assert forall|y: Seq<char>| seq![x].contains(y) implies y == x by {
                let k = choose|k: int| 0 <= k < seq![x].len() && seq![x][k] == y;
            }
        }
        assert(s.to_set() =~= Set::<Seq<char>>::empty());
    } else if s[0] == x {
        assert(s.to_set() =~= s.to_set().insert(x)) by {
            assert(s.contains(x));
        }
    } else if lex_lt(x, s[0]) {
        let t = seq![x] + s;
        assert(t.to_set() =~= s.to_set().insert(x)) by {
            assert forall|y: Seq<char>| t.contains(y) implies s.to_set().insert(x).contains(y) by {
                let k = choose|k: int| 0 <= k < t.len() && t[k] == y;
                if k > 0 {
                    assert(s[k - 1] == y);
                }
            }
            assert forall|y: Seq<char>| s.to_set().insert(x).contains(y) implies t.contains(y) by {
                if y == x {
                    assert(t[0] == x);
                } else {
                    let k = choose|k: int| 0 <= k < s.len() && s[k] == y;
                    assert(t[k + 1] == y);
                }
            }
        }
        assert forall|i: int, j: int| 0 <= i < j < t.len() implies lex_lt(
            #[trigger] t[i],
            #[trigger] t[j],
        ) by {
            if i == 0 {
                if j > 1 {
                    lemma_lex_transitive(x, s[0], s[j - 1]);
                }
            } else {
                assert(t[i] == s[i - 1] && t[j] == s[j - 1]);
            }
        }
    } else {
        let d = s.drop_first();
        assert forall|i: int, j: int| 0 <= i < j < d.len() implies lex_lt(
            #[trigger] d[i],
            #[trigger] d[j],
        ) by {
            assert(d[i] == s[i + 1] && d[j] == s[j + 1]);
        }
        lemma_set_insert_contents(d, x);
        let r = set_insert(d, x);
        let t = seq![s[0]] + r;
        lemma_lex_total(x, s[0]);
        assert(lex_lt(s[0], x));
        assert(t.to_set() =~= s.to_set().insert(x)) by {
            assert forall|y: Seq<char>| t.contains(y) implies s.to_set().insert(x).contains(y) by {
                let k = choose|k: int| 0 <= k < t.len() && t[k] == y;
                if k == 0 {
                    assert(s[0] == y);
                } else {
                    assert(r[k - 1] == y);
                    assert(r.to_set().contains(y));
                    if y != x {
                        assert(d.to_set().contains(y));
                        let m = choose|m: int| 0 <= m < d.len() && d[m] == y;
                        assert(s[m + 1] == y);
                    }
                }
            }
            assert forall|y: Seq<char>| s.to_set().insert(x).contains(y) implies t.contains(y) by {
                if y == s[0] {
                    assert(t[0] == y);
                } else if y == x {
                    assert(r.to_set().contains(x));
                    let m = choose|m: int| 0 <= m < r.len() && r[m] == x;
                    assert(t[m + 1] == x);
                } else {
                    let k = choose|k: int| 0 <= k < s.len() && s[k] == y;
                    assert(k > 0);
                    assert(d[k - 1] == y);
                    assert(d.to_set().contains(y));
                    assert(r.to_set().contains(y));
                    let m = choose|m: int| 0 <= m < r.len() && r[m] == y;
                    assert(t[m + 1] == y);
                }
            }
        }
        assert forall|i: int, j: int| 0 <= i < j < t.len() implies lex_lt(
            #[trigger] t[i],
            #[trigger] t[j],
        ) by {
            if i == 0 {
                assert(t[j] == r[j - 1]);
                assert(r.to_set().contains(r[j - 1]));
                if r[j - 1] != x {
                    assert(d.to_set().contains(r[j - 1]));
                    let m = choose|m: int| 0 <= m < d.len() && d[m] == r[j - 1];
                    assert(s[m + 1] == r[j - 1]);
                }
            } else {
                assert(t[i] == r[i - 1] && t[j] == r[j - 1]);
            }
        }
    }
}

/// Two strictly sorted sequences with the same elements are equal.
pub proof fn lemma_sorted_set_unique(a: Seq<Seq<char>>, b: Seq<Seq<char>>)
    requires
        strictly_sorted(a),
        strictly_sorted(b),
        a.to_set() == b.to_set(),
    ensures
        a == b,
    decreases a.len(),
{
    if a.len() == 0 {
        if b.len() > 0 {
            assert(b.to_set().contains(b[0]));
            assert(!a.contains(b[0]));
        }
        assert(a =~= b);
    } else if b.len() == 0 {
        assert(a.to_set().contains(a[0]));
        assert(!b.contains(a[0]));
    } else {
        let x = a[0];
        let y = b[0];
        assert(a.to_set().contains(x));
        assert(b.contains(x));
        assert(b.to_set().contains(y));
        assert(a.contains(y));
        let j = choose|j: int| 0 <= j < b.len() && b[j] == x;
        let k = choose|k: int| 0 <= k < a.len() && a[k] == y;
        if x != y {
            assert(j > 0 && k > 0);
            assert(lex_lt(y, x));
            assert(lex_lt(x, y));
            lemma_lex_asymmetric(x, y);
        }
        let da = a.drop_first();
        let db = b.drop_first();
        assert forall|i: int, i2: int| 0 <= i < i2 < da.len() implies lex_lt(
            #[trigger] da[i],
            #[trigger] da[i2],
        ) by {
            assert(da[i] == a[i + 1] && da[i2] == a[i2 + 1]);
        }
        assert forall|i: int, i2: int| 0 <= i < i2 < db.len() implies lex_lt(
            #[trigger] db[i],
            #[trigger] db[i2],
        ) by {
            assert(db[i] == b[i + 1] && db[i2] == b[i2 + 1]);
        }
        assert(da.to_set() =~= db.to_set()) by {
            assert forall|z: Seq<char>| da.contains(z) implies db.contains(z) by {
                let m = choose|m: int| 0 <= m < da.len() && da[m] == z;
                assert(a[m + 1] == z);
                lemma_lex_irreflexive(z);
                assert(lex_lt(a[0], z));
                assert(a.to_set().contains(z));
                assert(b.contains(z));
                let n = choose|n: int| 0 <= n < b.len() && b[n] == z;
                if n == 0 {
                    lemma_lex_irreflexive(x);
                }
                assert(db[n - 1] == z);
            }
            assert forall|z: Seq<char>| db.contains(z) implies da.contains(z) by {
                let m = choose|m: int| 0 <= m < db.len() && db[m] == z;
                assert(b[m + 1] == z);
                assert(lex_lt(b[0], z));
                assert(b.to_set().contains(z));
                assert(a.contains(z));
                let n = choose|n: int| 0 <= n < a.len() && a[n] == z;
                if n == 0 {
                    lemma_lex_irreflexive(y);
                }
                assert(da[n - 1] == z);
            }
        }
        lemma_sorted_set_unique(da, db);
        assert(a =~= seq![x] + da);
        assert(b =~= seq![y] + db);
    }
}

/// A strictly sorted sequence is the sorted arrangement of its elements.
pub proof fn lemma_sorted_of(q: Seq<Seq<char>>)
    requires
        strictly_sorted(q),
    ensures
        sorted_of(q.to_set()) == q,
{
    let c = sorted_of(q.to_set());
    assert(strictly_sorted(c) && c.to_set() == q.to_set());
    lemma_sorted_set_unique(c, q);
}

} // verus!
