//! The order of texts, and lists of texts in strictly ascending order.

use vstd::prelude::*;

use crate::text::{chars_of, texts};

verus! {

/// `a` comes before `b` by code points: at the first place where they differ, or
/// because `a` is a proper prefix of `b`.
pub open spec fn text_less(a: Seq<char>, b: Seq<char>) -> bool
    decreases b.len(),
{
    if b.len() == 0 {
        false
    } else if a.len() == 0 {
        true
    } else if a[0] != b[0] {
        a[0] < b[0]
    } else {
        text_less(a.drop_first(), b.drop_first())
    }
}

/// Each text comes before all that follow it.
pub open spec fn ascending(s: Seq<Seq<char>>) -> bool {
    forall|i: int, j: int|
        0 <= i < j < s.len() ==> text_less(#[trigger] s[i], #[trigger] s[j])
}

/// The two lists hold the same texts.
pub open spec fn same_members(a: Seq<Seq<char>>, b: Seq<Seq<char>>) -> bool {
    forall|x: Seq<char>| #[trigger] a.contains(x) <==> b.contains(x)
}

/// The texts of `s` in ascending order, each once.
pub open spec fn sorted_unique(s: Seq<Seq<char>>) -> Seq<Seq<char>> {
    choose|r: Seq<Seq<char>>| #[trigger] ascending(r) && same_members(r, s)
}

/// The order is irreflexive.
pub proof fn law_order_irreflexive(a: Seq<char>)
    ensures
        !text_less(a, a),
    decreases a.len(),
{
    if a.len() > 0 {
        law_order_irreflexive(a.drop_first());
    }
}

/// The order is transitive.
pub proof fn law_order_transitive(a: Seq<char>, b: Seq<char>, c: Seq<char>)
    requires
        text_less(a, b),
        text_less(b, c),
    ensures
        text_less(a, c),
    decreases a.len(),
{
    if a.len() > 0 && a[0] == b[0] && b[0] == c[0] {
        law_order_transitive(a.drop_first(), b.drop_first(), c.drop_first());
    }
}

/// Of two different texts one comes before the other.
pub proof fn law_order_total(a: Seq<char>, b: Seq<char>)
    ensures
        a == b || text_less(a, b) || text_less(b, a),
    decreases a.len(),
{
    if a.len() > 0 && b.len() > 0 {
        if a[0] == b[0] {
            law_order_total(a.drop_first(), b.drop_first());
            if a.drop_first() == b.drop_first() {
                assert(a == seq![a[0]] + a.drop_first());
                assert(b == seq![b[0]] + b.drop_first());
            }
        }
    } else if a.len() == 0 && b.len() == 0 {
        assert(a == b);
    }
}

/// A list in ascending order is determined by the texts that it holds.
pub proof fn law_ascending_unique(a: Seq<Seq<char>>, b: Seq<Seq<char>>)
    requires
        ascending(a),
        ascending(b),
        same_members(a, b),
    ensures
        a == b,
    decreases a.len(),
{
    if a.len() == 0 {
        if b.len() > 0 {
            assert(b.contains(b[0]));
            assert(a.contains(b[0]));
        }
        assert(a == b);
    } else {
        let x = a.last();
        assert(a.contains(x));
        assert(b.contains(x));
        let y = b.last();
        assert(b.contains(y));
        assert(a.contains(y));
        let i = choose|i: int| 0 <= i < a.len() && a[i] == y;
        let j = choose|j: int| 0 <= j < b.len() && b[j] == x;
        if i < a.len() - 1 && j < b.len() - 1 {
            assert(text_less(a[i], a[a.len() - 1]));
            assert(text_less(b[j], b[b.len() - 1]));
            law_order_transitive(x, y, x);
            law_order_irreflexive(x);
        }
        assert(x == y);
        let a1 = a.drop_last();
        let b1 = b.drop_last();
        assert forall|z: Seq<char>| #[trigger] a1.contains(z) <==> b1.contains(z) by {
            law_order_irreflexive(x);
            if a1.contains(z) {
                let k = choose|k: int| 0 <= k < a1.len() && a1[k] == z;
                assert(a[k] == z);
                assert(text_less(a[k], a[a.len() - 1]));
                assert(a.contains(z));
                assert(b.contains(z));
                let m = choose|m: int| 0 <= m < b.len() && b[m] == z;
                assert(b1[m] == z);
            }
            if b1.contains(z) {
                let k = choose|k: int| 0 <= k < b1.len() && b1[k] == z;
                assert(b[k] == z);
                assert(text_less(b[k], b[b.len() - 1]));
                assert(b.contains(z));
                assert(a.contains(z));
                let m = choose|m: int| 0 <= m < a.len() && a[m] == z;
                assert(a1[m] == z);
            }
        }
        assert(ascending(a1)) by {
            assert forall|i: int, j: int| 0 <= i < j < a1.len() implies text_less(
                #[trigger] a1[i],
                #[trigger] a1[j],
            ) by {
                assert(text_less(a[i], a[j]));
            }
        }
        assert(ascending(b1)) by {
            assert forall|i: int, j: int| 0 <= i < j < b1.len() implies text_less(
                #[trigger] b1[i],
                #[trigger] b1[j],
            ) by {
                assert(text_less(b[i], b[j]));
            }
        }
        law_ascending_unique(a1, b1);
        assert(a == a1.push(x));
        assert(b == b1.push(y));
    }
}

/// A list in ascending order that holds the texts of `s` is `sorted_unique(s)`.
pub proof fn lemma_is_sorted_unique(r: Seq<Seq<char>>, s: Seq<Seq<char>>)
    requires
        ascending(r),
        same_members(r, s),
    ensures
        sorted_unique(s) == r,
{
    let c = sorted_unique(s);
    assert(ascending(c) && same_members(c, s));
    assert(same_members(c, r));
    law_ascending_unique(c, r);
}

/// Where `x` belongs in the ascending list `v`: everything before place `at` is
/// smaller, and the rest is not.
spec fn is_slot(v: Seq<Seq<char>>, x: Seq<char>, at: int) -> bool {
    &&& 0 <= at <= v.len()
    &&& forall|i: int| 0 <= i < at ==> text_less(#[trigger] v[i], x)
    &&& forall|i: int| at <= i < v.len() ==> !text_less(#[trigger] v[i], x)
}

proof fn lemma_insert_ascending(v: Seq<Seq<char>>, x: Seq<char>, at: int)
    requires
        ascending(v),
        is_slot(v, x, at),
        at < v.len() ==> v[at] != x,
    ensures
        ascending(v.insert(at, x)),
        same_members(v.insert(at, x), v.push(x)),
{
    let w = v.insert(at, x);
    assert forall|i: int| at <= i < v.len() implies text_less(x, #[trigger] v[i]) by {
        law_order_total(x, v[at]);
        if i > at {
            assert(text_less(v[at], v[i]));
            law_order_transitive(x, v[at], v[i]);
        }
    }
    assert forall|i: int, j: int| 0 <= i < j < w.len() implies text_less(
        #[trigger] w[i],
        #[trigger] w[j],
    ) by {
        let i0 = if i < at { i } else { i - 1 };
        let j0 = if j < at { j } else { j - 1 };
        if i != at && j != at {
            assert(text_less(v[i0], v[j0]));
        }
    }
    assert forall|z: Seq<char>| #[trigger] w.contains(z) <==> v.push(x).contains(z) by {
        if w.contains(z) {
            let k = choose|k: int| 0 <= k < w.len() && w[k] == z;
            if k == at {
                assert(v.push(x)[v.len() as int] == z);
            } else {
                let k0 = if k < at { k } else { k - 1 };
                assert(v.push(x)[k0] == z);
            }
        }
        if v.push(x).contains(z) {
            let k = choose|k: int| 0 <= k < v.push(x).len() && v.push(x)[k] == z;
            if k == v.len() {
                assert(w[at] == z);
            } else if k < at {
                assert(w[k] == z);
            } else {
                assert(w[k + 1] == z);
            }
        }
    }
}

/// Every list has its sorted form: `sorted_unique(s)` is ascending and holds
/// exactly the texts of `s`.
pub proof fn law_sorted_unique(s: Seq<Seq<char>>)
    ensures
        ascending(sorted_unique(s)),
        same_members(sorted_unique(s), s),
    decreases s.len(),
{
    let r = lemma_sorted_exists(s);
    lemma_is_sorted_unique(r, s);
}

proof fn lemma_sorted_exists(s: Seq<Seq<char>>) -> (r: Seq<Seq<char>>)
    ensures
        ascending(r),
        same_members(r, s),
    decreases s.len(),
{
    if s.len() == 0 {
        assert(same_members(s, s));
        s
    } else {
        let t = s.drop_last();
        let v = lemma_sorted_exists(t);
        let x = s.last();
        assert(s == t.push(x));
        let at = lemma_slot_exists(v, x);
        if at < v.len() && v[at] == x {
            assert(same_members(v, s)) by {
                assert forall|z: Seq<char>| #[trigger] v.contains(z) <==> s.contains(z) by {
                    lemma_push_contains(t, x, z);
                }
            }
            v
        } else {
            lemma_insert_ascending(v, x, at);
            let w = v.insert(at, x);
            assert forall|z: Seq<char>| #[trigger] w.contains(z) <==> s.contains(z) by {
                lemma_push_contains(t, x, z);
                lemma_push_contains(v, x, z);
                assert(w.contains(z) <==> v.push(x).contains(z));
                assert(v.contains(z) <==> t.contains(z));
            }
            w
        }
    }
}

proof fn lemma_push_contains(s: Seq<Seq<char>>, x: Seq<char>, z: Seq<char>)
    ensures
        s.push(x).contains(z) <==> s.contains(z) || z == x,
{
    if s.contains(z) {
        let k = choose|k: int| 0 <= k < s.len() && s[k] == z;
        assert(s.push(x)[k] == z);
    }
    if s.push(x).contains(z) {
        let k = choose|k: int| 0 <= k < s.push(x).len() && s.push(x)[k] == z;
        if k < s.len() {
            assert(s[k] == z);
        }
    }
    assert(s.push(x)[s.len() as int] == x);
}

proof fn lemma_slot_exists(v: Seq<Seq<char>>, x: Seq<char>) -> (at: int)
    requires
        ascending(v),
    ensures
        is_slot(v, x, at),
    decreases v.len(),
{
    if v.len() == 0 {
        0
    } else if text_less(v.last(), x) {
        assert forall|i: int| 0 <= i < v.len() implies text_less(#[trigger] v[i], x) by {
            if i < v.len() - 1 {
                assert(text_less(v[i], v[v.len() - 1]));
                law_order_transitive(v[i], v.last(), x);
            }
        }
        v.len() as int
    } else {
        let t = v.drop_last();
        assert forall|i: int, j: int| 0 <= i < j < t.len() implies text_less(
            #[trigger] t[i],
            #[trigger] t[j],
        ) by {
            assert(text_less(v[i], v[j]));
        }
        let at = lemma_slot_exists(t, x);
        assert forall|i: int| 0 <= i < at implies text_less(#[trigger] v[i], x) by {
            assert(t[i] == v[i]);
        }
        assert forall|i: int| at <= i < v.len() implies !text_less(#[trigger] v[i], x) by {
            if i < t.len() {
                assert(t[i] == v[i]);
            }
        }
        at
    }
}

/// Whether `a` comes before `b`.
pub fn is_less(a: &str, b: &str) -> (r: bool)
    ensures
        r == text_less(a@, b@),
{
    let x = chars_of(a);
    let y = chars_of(b);
    let mut i: usize = 0;
    assert(a@.skip(0) == a@);
    assert(b@.skip(0) == b@);
    while i < x.len() && i < y.len()
        invariant
            x@ == a@,
            y@ == b@,
            i <= x.len(),
            i <= y.len(),
            text_less(a@, b@) == text_less(a@.skip(i as int), b@.skip(i as int)),
        decreases x.len() - i,
    {
        if x[i] != y[i] {
            return x[i] < y[i];
        }
        assert(a@.skip(i as int).drop_first() == a@.skip(i + 1));
        assert(b@.skip(i as int).drop_first() == b@.skip(i + 1));
        i += 1;
    }
    i < y.len()
}

/// Puts `x` into the ascending list `v`, unless it is there already.
pub fn insert_unique(v: &mut Vec<String>, x: String)
    requires
        ascending(texts(old(v)@)),
    ensures
        ascending(texts(final(v)@)),
        forall|z: Seq<char>|
            #[trigger] texts(final(v)@).contains(z) <==> texts(old(v)@).contains(z) || z == x@,
{
    let ghost before = texts(v@);
    let mut at: usize = 0;
    while at < v.len() && is_less(v[at].as_str(), x.as_str())
        invariant
            at <= v.len(),
            before == texts(v@),
            forall|i: int| 0 <= i < at ==> text_less(#[trigger] before[i], x@),
        decreases v.len() - at,
    {
        assert(before[at as int] == v@[at as int]@);
        at += 1;
    }
    proof {
        assert forall|i: int| at <= i < before.len() implies !text_less(
            #[trigger] before[i],
            x@,
        ) by {
            assert(before[at as int] == v@[at as int]@);
            if i > at && text_less(before[i], x@) {
                assert(text_less(before[at as int], before[i]));
                law_order_transitive(before[at as int], before[i], x@);
            }
        }
    }
    if at < v.len() && v[at] == x {
        assert(before[at as int] == x@);
        assert(before.contains(x@));
    } else {
        proof {
            if at < v.len() {
                assert(before[at as int] == v@[at as int]@);
            }
            lemma_insert_ascending(before, x@, at as int);
            assert forall|z: Seq<char>| #[trigger] before.insert(at as int, x@).contains(z)
                <==> before.contains(z) || z == x@ by {
                lemma_push_contains(before, x@, z);
            }
        }
        let ghost added = x@;
        v.insert(at, x);
        assert(texts(v@) == before.insert(at as int, added));
    }
}

/// The texts of `parts` in ascending order, each once.
pub fn sort_unique(parts: &Vec<String>) -> (r: Vec<String>)
    ensures
        texts(r@) == sorted_unique(texts(parts@)),
{
    let mut r: Vec<String> = Vec::new();
    let mut i: usize = 0;
    let ghost all = texts(parts@);
    while i < parts.len()
        invariant
            i <= parts.len(),
            all == texts(parts@),
            ascending(texts(r@)),
            same_members(texts(r@), all.take(i as int)),
        decreases parts.len() - i,
    {
        let ghost before = texts(r@);
        insert_unique(&mut r, parts[i].clone());
        proof {
            assert(all.take(i + 1) == all.take(i as int).push(all[i as int]));
            assert forall|z: Seq<char>| #[trigger] texts(r@).contains(z)
                <==> all.take(i + 1).contains(z) by {
                lemma_push_contains(all.take(i as int), all[i as int], z);
                assert(before.contains(z) <==> all.take(i as int).contains(z));
            }
        }
        i += 1;
    }
    proof {
        assert(all.take(all.len() as int) == all);
        lemma_is_sorted_unique(texts(r@), all);
    }
    r
}

/// One text comes before another exactly where they agree up to some place, and there
/// the first has ended, or both go on and its character is the smaller.
pub proof fn law_order_by_the_first_difference(a: Seq<char>, b: Seq<char>)
    ensures
        text_less(a, b) <==> exists|i: int|
            0 <= i <= a.len() && i < b.len() && #[trigger] a.take(i) == b.take(i) && (i == a.len()
                || a[i] < b[i]),
    decreases b.len(),
{
    if b.len() > 0 && a.len() > 0 && a[0] == b[0] {
        let x = a.drop_first();
        let y = b.drop_first();
        law_order_by_the_first_difference(x, y);
        if text_less(x, y) {
            let i = choose|i: int|
                0 <= i <= x.len() && i < y.len() && #[trigger] x.take(i) == y.take(i) && (i
                    == x.len() || x[i] < y[i]);
            assert(a.take(i + 1) == seq![a[0]] + x.take(i));
            assert(b.take(i + 1) == seq![b[0]] + y.take(i));
        }
        if exists|i: int|
            0 <= i <= a.len() && i < b.len() && #[trigger] a.take(i) == b.take(i) && (i == a.len()
                || a[i] < b[i]) {
            let i = choose|i: int|
                0 <= i <= a.len() && i < b.len() && #[trigger] a.take(i) == b.take(i) && (i
                    == a.len() || a[i] < b[i]);
            assert(i > 0);
            assert(x.take(i - 1) == a.take(i).drop_first());
            assert(y.take(i - 1) == b.take(i).drop_first());
        }
    } else if b.len() > 0 {
        assert(a.take(0) == b.take(0));
        if exists|i: int|
            0 <= i <= a.len() && i < b.len() && #[trigger] a.take(i) == b.take(i) && (i == a.len()
                || a[i] < b[i]) {
            let i = choose|i: int|
                0 <= i <= a.len() && i < b.len() && #[trigger] a.take(i) == b.take(i) && (i
                    == a.len() || a[i] < b[i]);
            if i > 0 {
                assert(a.take(i)[0] == b.take(i)[0]);
            }
        }
    }
}

/// A sorted list without repeats holds what the list held, nothing twice, and of two
/// of its texts the one in front comes before the other.
pub proof fn law_sorted_list(s: Seq<Seq<char>>)
    ensures
        forall|x: Seq<char>| #[trigger] sorted_unique(s).contains(x) <==> s.contains(x),
        forall|i: int, j: int|
            0 <= i < j < sorted_unique(s).len() ==> text_less(
                #[trigger] sorted_unique(s)[i],
                #[trigger] sorted_unique(s)[j],
            ),
        sorted_unique(s).no_duplicates(),
{
    law_sorted_unique(s);
    let r = sorted_unique(s);
    assert forall|i: int, j: int| 0 <= i < r.len() && 0 <= j < r.len() && i != j implies r[i]
        != r[j] by {
        if i < j {
            assert(text_less(r[i], r[j]));
            law_order_irreflexive(r[i]);
        } else {
            assert(text_less(r[j], r[i]));
            law_order_irreflexive(r[i]);
        }
    }
}

} // verus!
