//! Sequences kept in strictly ascending order of an integer key, into which
//! an element is put in place of the one that has its key, if there is one.
//!
//! Both the time index of a series and the merged output are such
//! sequences; this module holds what is common to them.

use vstd::prelude::*;

verus! {

/// Every element has a smaller key than the elements after it.
pub open spec fn ascending<E>(s: Seq<E>, key: spec_fn(E) -> int) -> bool {
    forall|i: int, j: int| 0 <= i < j < s.len() ==> key(s[i]) < key(s[j])
}

/// `s` with `e` put where its key belongs. An element of the same key that
/// sits there gives way to `e`.
pub open spec fn upsert<E>(s: Seq<E>, e: E, key: spec_fn(E) -> int) -> Seq<E>
    decreases s.len(),
{
    if s.len() == 0 {
        seq![e]
    } else if key(s.last()) < key(e) {
        s.push(e)
    } else if key(s.last()) == key(e) {
        s.drop_last().push(e)
    } else {
        upsert(s.drop_last(), e, key).push(s.last())
    }
}

/// `s` after the elements of `items` were put into it one by one, first to
/// last.
pub open spec fn upsert_all<E>(s: Seq<E>, items: Seq<E>, key: spec_fn(E) -> int) -> Seq<E>
    decreases items.len(),
{
    if items.len() == 0 {
        s
    } else {
        upsert(upsert_all(s, items.drop_last(), key), items.last(), key)
    }
}

/// The last element of `s` whose key is `k`.
pub open spec fn find_last<E>(s: Seq<E>, k: int, key: spec_fn(E) -> int) -> Option<E>
    decreases s.len(),
{
    if s.len() == 0 {
        None
    } else if key(s.last()) == k {
        Some(s.last())
    } else {
        find_last(s.drop_last(), k, key)
    }
}

/// Where `upsert` puts an element: behind the last element whose key is not
/// greater, and in its place if the keys are equal.
pub proof fn lemma_upsert_at<E>(s: Seq<E>, e: E, key: spec_fn(E) -> int, pos: int)
    requires
        0 <= pos <= s.len(),
        forall|j: int| pos <= j < s.len() ==> key(e) < key(#[trigger] s[j]),
        pos > 0 ==> key(s[pos - 1]) <= key(e),
    ensures
        upsert(s, e, key) == if pos > 0 && key(s[pos - 1]) == key(e) {
            s.update(pos - 1, e)
        } else {
            s.insert(pos, e)
        },
    decreases s.len(),
{
    if pos < s.len() {
        lemma_upsert_at(s.drop_last(), e, key, pos);
    }
}

/// Putting an element into an ascending sequence leaves it ascending.
pub proof fn lemma_upsert_ascending<E>(s: Seq<E>, e: E, key: spec_fn(E) -> int)
    requires
        ascending(s, key),
    ensures
        ascending(upsert(s, e, key), key),
    decreases s.len(),
{
    let pos = upsert_position(s, e, key);
    lemma_upsert_position(s, e, key);
    lemma_upsert_at(s, e, key, pos);
}

/// The number of leading elements whose key is not greater than that of `e`.
pub open spec fn upsert_position<E>(s: Seq<E>, e: E, key: spec_fn(E) -> int) -> int
    decreases s.len(),
{
    if s.len() == 0 || key(s.last()) <= key(e) {
        s.len() as int
    } else {
        upsert_position(s.drop_last(), e, key)
    }
}

/// `upsert_position` meets what `lemma_upsert_at` asks of a position.
pub proof fn lemma_upsert_position<E>(s: Seq<E>, e: E, key: spec_fn(E) -> int)
    ensures
        0 <= upsert_position(s, e, key) <= s.len(),
        forall|j: int| upsert_position(s, e, key) <= j < s.len() ==> key(e) < key(#[trigger] s[j]),
        upsert_position(s, e, key) > 0 ==> key(s[upsert_position(s, e, key) - 1]) <= key(e),
    decreases s.len(),
{
    if s.len() > 0 && key(s.last()) > key(e) {
        let front = s.drop_last();
        lemma_upsert_position(front, e, key);
        assert forall|j: int| upsert_position(front, e, key) <= j < s.len() implies key(e) < key(
            #[trigger] s[j],
        ) by {
            if j < front.len() {
                assert(front[j] == s[j]);
            }
        }
    }
}

/// After `e` was put in, its key finds `e`, and every other key finds what
/// it found before.
pub proof fn lemma_upsert_find<E>(s: Seq<E>, e: E, key: spec_fn(E) -> int, k: int)
    ensures
        find_last(upsert(s, e, key), k, key) == if k == key(e) {
            Some(e)
        } else {
            find_last(s, k, key)
        },
    decreases s.len(),
{
    let out = upsert(s, e, key);
    if s.len() == 0 {
        assert(out.drop_last() =~= s);
    } else if key(s.last()) < key(e) {
        assert(out.drop_last() =~= s);
    } else if key(s.last()) == key(e) {
        assert(out.drop_last() =~= s.drop_last());
    } else {
        assert(out.drop_last() =~= upsert(s.drop_last(), e, key));
        lemma_upsert_find(s.drop_last(), e, key, k);
    }
}

/// What `upsert_all` makes of an ascending sequence is ascending.
pub proof fn lemma_upsert_all_ascending<E>(s: Seq<E>, items: Seq<E>, key: spec_fn(E) -> int)
    requires
        ascending(s, key),
    ensures
        ascending(upsert_all(s, items, key), key),
    decreases items.len(),
{
    if items.len() > 0 {
        lemma_upsert_all_ascending(s, items.drop_last(), key);
        lemma_upsert_ascending(upsert_all(s, items.drop_last(), key), items.last(), key);
    }
}

/// In an ascending sequence a key finds the one element that has it.
pub proof fn lemma_find_in_ascending<E>(s: Seq<E>, key: spec_fn(E) -> int, i: int)
    requires
        ascending(s, key),
        0 <= i < s.len(),
    ensures
        find_last(s, key(s[i]), key) == Some(s[i]),
    decreases s.len(),
{
    if i < s.len() - 1 {
        lemma_find_in_ascending(s.drop_last(), key, i);
    }
}

/// What a key finds is an element of the sequence and has that key.
pub proof fn lemma_found_is_element<E>(s: Seq<E>, key: spec_fn(E) -> int, k: int)
    ensures
        match find_last(s, k, key) {
            Some(e) => key(e) == k && exists|i: int| 0 <= i < s.len() && s[i] == e,
            None => forall|i: int| 0 <= i < s.len() ==> key(#[trigger] s[i]) != k,
        },
    decreases s.len(),
{
    if s.len() > 0 && key(s.last()) != k {
        let front = s.drop_last();
        lemma_found_is_element(front, key, k);
        if find_last(front, k, key) is None {
            assert forall|i: int| 0 <= i < s.len() implies key(#[trigger] s[i]) != k by {
                if i < front.len() {
                    assert(front[i] == s[i]);
                }
            }
        }
    }
}

/// No two elements have the same key.
pub open spec fn distinct_keys<E>(s: Seq<E>, key: spec_fn(E) -> int) -> bool {
    forall|i: int, j: int| 0 <= i < j < s.len() ==> key(s[i]) != key(s[j])
}

/// Every element meets `p`.
pub open spec fn all_meet<E>(s: Seq<E>, p: spec_fn(E) -> bool) -> bool {
    forall|i: int| 0 <= i < s.len() ==> p(#[trigger] s[i])
}

/// Putting the first item in and then the rest is putting all of them in.
pub proof fn lemma_upsert_all_front<E>(s: Seq<E>, items: Seq<E>, key: spec_fn(E) -> int)
    requires
        items.len() > 0,
    ensures
        upsert_all(s, items, key) == upsert_all(upsert(s, items[0], key), items.drop_first(), key),
    decreases items.len(),
{
    let first = upsert(s, items[0], key);
    let rest = items.drop_first();
    if items.len() == 1 {
        assert(upsert_all(s, items.drop_last(), key) == s);
    } else {
        let front = items.drop_last();
        lemma_upsert_all_front(s, front, key);
        assert(front.drop_first() =~= rest.drop_last());
        assert(upsert_all(first, rest, key) == upsert(
            upsert_all(first, rest.drop_last(), key),
            rest.last(),
            key,
        ));
    }
}

/// Last write wins: after items were put into `s`, a key finds the last
/// item that has it, and where no item has it, what it found in `s`.
pub proof fn lemma_upsert_all_finds<E>(s: Seq<E>, items: Seq<E>, key: spec_fn(E) -> int, k: int)
    ensures
        find_last(upsert_all(s, items, key), k, key) == match find_last(items, k, key) {
            Some(e) => Some(e),
            None => find_last(s, k, key),
        },
    decreases items.len(),
{
    if items.len() > 0 {
        lemma_upsert_all_finds(s, items.drop_last(), key, k);
        lemma_upsert_find(upsert_all(s, items.drop_last(), key), items.last(), key, k);
    }
}

/// Where no two elements share a key, each key finds its element.
pub proof fn lemma_find_distinct<E>(s: Seq<E>, key: spec_fn(E) -> int, i: int)
    requires
        distinct_keys(s, key),
        0 <= i < s.len(),
    ensures
        find_last(s, key(s[i]), key) == Some(s[i]),
    decreases s.len(),
{
    if i < s.len() - 1 {
        lemma_find_distinct(s.drop_last(), key, i);
    }
}

/// What holds of every element and of the new one holds of every element
/// afterwards.
pub proof fn lemma_upsert_meets<E>(s: Seq<E>, e: E, key: spec_fn(E) -> int, p: spec_fn(E) -> bool)
    requires
        all_meet(s, p),
        p(e),
    ensures
        all_meet(upsert(s, e, key), p),
{
    let pos = upsert_position(s, e, key);
    lemma_upsert_position(s, e, key);
    lemma_upsert_at(s, e, key, pos);
}

/// What holds of every element of two sequences holds of every element of
/// their merge.
pub proof fn lemma_upsert_all_meets<E>(
    s: Seq<E>,
    items: Seq<E>,
    key: spec_fn(E) -> int,
    p: spec_fn(E) -> bool,
)
    requires
        all_meet(s, p),
        all_meet(items, p),
    ensures
        all_meet(upsert_all(s, items, key), p),
    decreases items.len(),
{
    if items.len() > 0 {
        let front = items.drop_last();
        lemma_upsert_all_meets(s, front, key, p);
        lemma_upsert_meets(upsert_all(s, front, key), items.last(), key, p);
    }
}

/// Putting in the items of two sequences, one after the other, is putting
/// in those of their concatenation.
pub proof fn lemma_upsert_all_concat<E>(
    s: Seq<E>,
    first: Seq<E>,
    second: Seq<E>,
    key: spec_fn(E) -> int,
)
    ensures
        upsert_all(s, first + second, key) == upsert_all(upsert_all(s, first, key), second, key),
    decreases second.len(),
{
    if second.len() > 0 {
        assert((first + second).drop_last() =~= first + second.drop_last());
        lemma_upsert_all_concat(s, first, second.drop_last(), key);
    }
}

} // verus!
