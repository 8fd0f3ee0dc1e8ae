//! Sorting names and dropping duplicates, as the merging of `load` tags
//! needs it. Names are ordered as strings are: character by character, by
//! code point, a proper prefix first.

use crate::text::{chars_of, owned, str_eq};
use vstd::prelude::*;

verus! {

/// Whether `a` comes strictly before `b`.
pub open spec fn precedes(a: Seq<char>, b: Seq<char>) -> bool
    decreases a.len(),
{
    if b.len() == 0 {
        false
    } else if a.len() == 0 {
        true
    } else if a[0] != b[0] {
        (a[0] as u32) < (b[0] as u32)
    } else {
        precedes(a.drop_first(), b.drop_first())
    }
}

/// `names` is in strictly ascending order: sorted, and without duplicates.
pub open spec fn ascending(names: Seq<Seq<char>>) -> bool {
    forall|i: int, j: int| 0 <= i < j < names.len() ==> precedes(names[i], names[j])
}

/// `sorted` with `name` put in its place, unless it is there already.
pub open spec fn insert_name(sorted: Seq<Seq<char>>, name: Seq<char>) -> Seq<Seq<char>>
    decreases sorted.len(),
{
    if sorted.len() == 0 {
        seq![name]
    } else if sorted.last() == name {
        sorted
    } else if precedes(sorted.last(), name) {
        sorted.push(name)
    } else {
        insert_name(sorted.drop_last(), name).push(sorted.last())
    }
}

/// The names sorted, each once.
pub open spec fn sort_dedup(names: Seq<Seq<char>>) -> Seq<Seq<char>>
    decreases names.len(),
{
    if names.len() == 0 {
        Seq::empty()
    } else {
        insert_name(sort_dedup(names.drop_last()), names.last())
    }
}

/// No string comes before itself.
pub proof fn lemma_precedes_irreflexive(a: Seq<char>)
    ensures
        !precedes(a, a),
    decreases a.len(),
{
    if a.len() > 0 {
        lemma_precedes_irreflexive(a.drop_first());
    }
}

/// Of two different strings, one comes before the other.
pub proof fn lemma_precedes_total(a: Seq<char>, b: Seq<char>)
    ensures
        a == b || precedes(a, b) || precedes(b, a),
    decreases a.len(),
{
    if a.len() == 0 || b.len() == 0 {
        if a.len() == 0 && b.len() == 0 {
            assert(a =~= b);
        }
    } else if a[0] == b[0] {
        lemma_precedes_total(a.drop_first(), b.drop_first());
        if a.drop_first() == b.drop_first() {
            assert(a =~= seq![a[0]] + a.drop_first());
            assert(b =~= seq![b[0]] + b.drop_first());
        }
    } else {
        vstd::utf8::char_u32_cast(a[0], a[0] as u32);
        vstd::utf8::char_u32_cast(b[0], b[0] as u32);
    }
}

/// The order is transitive.
pub proof fn lemma_precedes_transitive(a: Seq<char>, b: Seq<char>, c: Seq<char>)
    requires
        precedes(a, b),
        precedes(b, c),
    ensures
        precedes(a, c),
    decreases a.len(),
{
    if a.len() > 0 && b.len() > 0 && c.len() > 0 && a[0] == b[0] && b[0] == c[0] {
        lemma_precedes_transitive(a.drop_first(), b.drop_first(), c.drop_first());
    }
}

/// `a` and `b` hold the same names, whatever their order and however often.
pub open spec fn same_names(a: Seq<Seq<char>>, b: Seq<Seq<char>>) -> bool {
    forall|x: Seq<char>|
        #![trigger a.contains(x)]
        #![trigger b.contains(x)]
        a.contains(x) <==> b.contains(x)
}

/// Putting a name in its place keeps the order, and adds that name and no
/// other.
pub proof fn lemma_insert_name(sorted: Seq<Seq<char>>, name: Seq<char>)
    requires
        ascending(sorted),
    ensures
        ascending(insert_name(sorted, name)),
        forall|x: Seq<char>|
            #![trigger insert_name(sorted, name).contains(x)]
            #![trigger sorted.contains(x)]
            insert_name(sorted, name).contains(x) <==> (sorted.contains(x) || x == name),
        insert_name(sorted, name).contains(name),
    decreases sorted.len(),
{
    let r = insert_name(sorted, name);
    if sorted.len() == 0 {
        assert(r[0] == name);
        assert forall|x: Seq<char>| r.contains(x) <==> (sorted.contains(x) || x == name) by {
            if x == name {
                assert(r[0] == x);
            }
        }
    } else if sorted.last() == name {
        assert(sorted[sorted.len() - 1] == name);
    } else if precedes(sorted.last(), name) {
        assert forall|i: int, j: int| 0 <= i < j < r.len() implies precedes(r[i], r[j]) by {
            if j == sorted.len() {
                if i < sorted.len() - 1 {
                    lemma_precedes_transitive(sorted[i], sorted.last(), name);
                }
            }
        }
        assert forall|x: Seq<char>| r.contains(x) <==> (sorted.contains(x) || x == name) by {
            if sorted.contains(x) {
                let k = choose|k: int| 0 <= k < sorted.len() && sorted[k] == x;
                assert(r[k] == x);
            }
            if x == name {
                assert(r[sorted.len() as int] == x);
            }
            if r.contains(x) {
                let k = choose|k: int| 0 <= k < r.len() && r[k] == x;
                if k < sorted.len() {
                    assert(sorted[k] == x);
                }
            }
        }
    } else {
        let front = sorted.drop_last();
        let last = sorted.last();
        lemma_precedes_total(last, name);
        assert(ascending(front));
        lemma_insert_name(front, name);
        let inner = insert_name(front, name);
        assert forall|i: int| 0 <= i < inner.len() implies precedes(#[trigger] inner[i], last) by {
            assert(inner.contains(inner[i]));
            if front.contains(inner[i]) {
                let k = choose|k: int| 0 <= k < front.len() && front[k] == inner[i];
                assert(precedes(sorted[k], sorted[sorted.len() - 1]));
            }
        }
        assert forall|i: int, j: int| 0 <= i < j < r.len() implies precedes(r[i], r[j]) by {
            if j < inner.len() {
                assert(precedes(inner[i], inner[j]));
            }
        }
        assert forall|x: Seq<char>| r.contains(x) <==> (sorted.contains(x) || x == name) by {
            if sorted.contains(x) {
                let k = choose|k: int| 0 <= k < sorted.len() && sorted[k] == x;
                if k < front.len() {
                    assert(front[k] == x);
                    assert(front.contains(x));
                    let m = choose|m: int| 0 <= m < inner.len() && inner[m] == x;
                    assert(r[m] == x);
                } else {
                    assert(r[inner.len() as int] == x);
                }
            }
            if x == name {
                assert(inner.contains(x));
                let m = choose|m: int| 0 <= m < inner.len() && inner[m] == x;
                assert(r[m] == x);
            }
            if r.contains(x) {
                let k = choose|k: int| 0 <= k < r.len() && r[k] == x;
                if k < inner.len() {
                    assert(inner[k] == x);
                    assert(inner.contains(x));
                    if front.contains(x) {
                        let m = choose|m: int| 0 <= m < front.len() && front[m] == x;
                        assert(sorted[m] == x);
                    }
                } else {
                    assert(sorted[sorted.len() - 1] == x);
                }
            }
        }
    }
}

/// The sorted names are in strictly ascending order, and they are the names
/// that were given: none is lost and none is added.
pub proof fn lemma_sort_dedup(names: Seq<Seq<char>>)
    ensures
        ascending(sort_dedup(names)),
        same_names(sort_dedup(names), names),
    decreases names.len(),
{
    if names.len() > 0 {
        let front = names.drop_last();
        lemma_sort_dedup(front);
        lemma_insert_name(sort_dedup(front), names.last());
        assert forall|x: Seq<char>| sort_dedup(names).contains(x) <==> names.contains(x) by {
            if names.contains(x) {
                let k = choose|k: int| 0 <= k < names.len() && names[k] == x;
                if k < front.len() {
                    assert(front[k] == x);
                    assert(front.contains(x));
                }
            }
            if front.contains(x) {
                let k = choose|k: int| 0 <= k < front.len() && front[k] == x;
                assert(names[k] == x);
            }
            if x == names.last() {
                assert(names[names.len() - 1] == x);
            }
        }
    }
}

/// Two ascending sequences of the same names are one and the same.
pub proof fn lemma_ascending_unique(a: Seq<Seq<char>>, b: Seq<Seq<char>>)
    requires
        ascending(a),
        ascending(b),
        same_names(a, b),
    ensures
        a == b,
    decreases a.len(),
{
    if a.len() == 0 {
        if b.len() > 0 {
            assert(b.contains(b[0]));
        }
        assert(a =~= b);
    } else {
        let x = a.last();
        assert(a[a.len() - 1] == x);
        assert(a.contains(x));
        assert(b.contains(x));
        let y = b.last();
        assert(b[b.len() - 1] == y);
        assert(b.contains(y));
        assert(a.contains(y));
        let i = choose|i: int| 0 <= i < a.len() && a[i] == y;
        let j = choose|j: int| 0 <= j < b.len() && b[j] == x;
        if x != y {
            assert(precedes(a[i], a[a.len() - 1]));
            assert(precedes(b[j], b[b.len() - 1]));
            lemma_precedes_transitive(x, y, x);
            lemma_precedes_irreflexive(x);
        }
        let fa = a.drop_last();
        let fb = b.drop_last();
        assert forall|z: Seq<char>| fa.contains(z) <==> fb.contains(z) by {
            if fa.contains(z) {
                let k = choose|k: int| 0 <= k < fa.len() && fa[k] == z;
                assert(precedes(a[k], a[a.len() - 1]));
                lemma_precedes_irreflexive(x);
                assert(a[k] == z);
                assert(a.contains(z));
                let m = choose|m: int| 0 <= m < b.len() && b[m] == z;
                assert(fb[m] == z);
            }
            if fb.contains(z) {
                let k = choose|k: int| 0 <= k < fb.len() && fb[k] == z;
                assert(precedes(b[k], b[b.len() - 1]));
                lemma_precedes_irreflexive(y);
                assert(b[k] == z);
                assert(b.contains(z));
                let m = choose|m: int| 0 <= m < a.len() && a[m] == z;
                assert(fa[m] == z);
            }
        }
        lemma_ascending_unique(fa, fb);
        assert(a =~= fa.push(x));
        assert(b =~= fb.push(y));
    }
}

/// Sorting depends on the names alone: their order and their repetitions
/// make no difference.
pub proof fn lemma_sort_dedup_of_same_names(a: Seq<Seq<char>>, b: Seq<Seq<char>>)
    requires
        same_names(a, b),
    ensures
        sort_dedup(a) == sort_dedup(b),
{
    lemma_sort_dedup(a);
    lemma_sort_dedup(b);
    lemma_ascending_unique(sort_dedup(a), sort_dedup(b));
}

/// Sorting what is sorted changes nothing.
pub proof fn lemma_sort_dedup_idempotent(names: Seq<Seq<char>>)
    ensures
        sort_dedup(sort_dedup(names)) == sort_dedup(names),
{
    lemma_sort_dedup(names);
    lemma_sort_dedup_of_same_names(sort_dedup(names), names);
}

/// What `insert_name` yields, seen from the place `k` where the name belongs:
/// everything from `k` on comes after the name.
proof fn lemma_insert_at(sorted: Seq<Seq<char>>, name: Seq<char>, k: int)
    requires
        0 <= k <= sorted.len(),
        forall|m: int| k <= m < sorted.len() ==> sorted[m] != name && !precedes(sorted[m], name),
        k > 0 ==> sorted[k - 1] == name || precedes(sorted[k - 1], name),
    ensures
        insert_name(sorted, name) == if k > 0 && sorted[k - 1] == name {
            sorted
        } else {
            sorted.take(k).push(name) + sorted.skip(k)
        },
    decreases sorted.len() - k,
{
    if k == sorted.len() {
        assert(sorted.take(k) =~= sorted);
        assert(sorted.skip(k) =~= Seq::empty());
        assert(sorted.push(name) + Seq::<Seq<char>>::empty() =~= sorted.push(name));
        if k == 0 {
            assert(seq![name] =~= sorted.push(name));
        }
    } else {
        let front = sorted.drop_last();
        assert(sorted.last() == sorted[sorted.len() - 1]);
        lemma_insert_at(front, name, k);
        if k > 0 && sorted[k - 1] == name {
            assert(front.push(sorted.last()) =~= sorted);
        } else {
            assert(front.take(k) =~= sorted.take(k));
            assert((front.take(k).push(name) + front.skip(k)).push(sorted.last()) =~= sorted.take(
                k,
            ).push(name) + sorted.skip(k));
        }
    }
}

/// Whether one of `bits` is `word`.
pub fn contains_word(bits: &Vec<String>, word: &str) -> (r: bool)
    ensures
        r == bits.deep_view().contains(word@),
{
    let mut i: usize = 0;
    while i < bits.len()
        invariant
            i <= bits.len(),
            forall|j: int| 0 <= j < i ==> bits.deep_view()[j] != word@,
        decreases bits.len() - i,
    {
        if str_eq(bits[i].as_str(), word) {
            assert(bits.deep_view()[i as int] == word@);
            return true;
        }
        i += 1;
    }
    false
}

/// Whether `a` comes strictly before `b`.
pub fn comes_before(a: &str, b: &str) -> (r: bool)
    ensures
        r == precedes(a@, b@),
{
    let x = chars_of(a);
    let y = chars_of(b);
    let mut i: usize = 0;
    assert(x@.skip(0) =~= x@ && y@.skip(0) =~= y@);
    while i < x.len() && i < y.len() && x[i] == y[i]
        invariant
            i <= x.len(),
            i <= y.len(),
            precedes(x@, y@) == precedes(x@.skip(i as int), y@.skip(i as int)),
        decreases x.len() - i,
    {
        assert(x@.skip(i as int).drop_first() =~= x@.skip(i + 1));
        assert(y@.skip(i as int).drop_first() =~= y@.skip(i + 1));
        i += 1;
    }
    if i >= y.len() {
        false
    } else if i >= x.len() {
        true
    } else {
        (x[i] as u32) < (y[i] as u32)
    }
}

/// Puts `name` in its place in `sorted`, unless it is there already.
pub fn insert_sorted(sorted: &mut Vec<String>, name: String)
    ensures
        final(sorted).deep_view() == insert_name(old(sorted).deep_view(), name@),
{
    let ghost before = sorted.deep_view();
    let mut k: usize = sorted.len();
    while k > 0 && !str_eq(sorted[k - 1].as_str(), name.as_str()) && !comes_before(
        sorted[k - 1].as_str(),
        name.as_str(),
    )
        invariant
            k <= sorted.len(),
            before == sorted.deep_view(),
            forall|m: int|
                k <= m < sorted.len() ==> before[m] != name@ && !precedes(before[m], name@),
        decreases k,
    {
        k -= 1;
    }
    proof {
        lemma_insert_at(before, name@, k as int);
    }
    if k > 0 && str_eq(sorted[k - 1].as_str(), name.as_str()) {
        return ;
    }
    sorted.insert(k, name);
    assert(sorted.deep_view() =~= before.take(k as int).push(name@) + before.skip(k as int));
}

/// The names sorted, each once.
pub fn sorted_names(names: &Vec<String>) -> (sorted: Vec<String>)
    ensures
        sorted.deep_view() == sort_dedup(names.deep_view()),
        ascending(sorted.deep_view()),
        same_names(sorted.deep_view(), names.deep_view()),
{
    proof {
        lemma_sort_dedup(names.deep_view());
    }
    let mut sorted: Vec<String> = Vec::new();
    let ghost all = names.deep_view();
    let mut i: usize = 0;
    assert(all.take(0) =~= Seq::empty());
    assert(sorted.deep_view() =~= Seq::empty());
    while i < names.len()
        invariant
            i <= names.len(),
            all == names.deep_view(),
            sorted.deep_view() == sort_dedup(all.take(i as int)),
        decreases names.len() - i,
    {
        proof {
            assert(all.take(i + 1).drop_last() =~= all.take(i as int));
            assert(all.take(i + 1).last() == names@[i as int]@);
        }
        insert_sorted(&mut sorted, owned(names[i].as_str()));
        i += 1;
    }
    assert(all.take(names.len() as int) =~= all);
    sorted
}

} // verus!
