//! Sequences of records that are told apart by the cookie they are about.

use crate::cookie::ClewdrCookie;
use std::collections::VecDeque;
use vstd::prelude::*;

verus! {

/// A record about one cookie. Two records are about the same cookie if their keys agree.
pub trait Keyed: Sized {
    spec fn key(&self) -> Seq<char>;

    fn identity(&self) -> (cookie: &ClewdrCookie)
        ensures
            cookie@ == self.key(),
    ;

    fn duplicate(&self) -> (copy: Self)
        ensures
            copy == *self,
    ;
}

/// There is a record about `key`.
pub open spec fn holds<T: Keyed>(items: Seq<T>, key: Seq<char>) -> bool {
    exists|i: int| 0 <= i < items.len() && #[trigger] items[i].key() == key
}

/// No two records are about the same cookie.
pub open spec fn distinct<T: Keyed>(items: Seq<T>) -> bool {
    forall|i: int, j: int|
        0 <= i < j < items.len() ==> #[trigger] items[i].key() != #[trigger] items[j].key()
}

/// Tells a record that is not about `key`.
pub open spec fn not_about<T: Keyed>(key: Seq<char>) -> spec_fn(T) -> bool {
    |item: T| item.key() != key
}

/// The records that are not about `key`, in their order.
pub open spec fn without<T: Keyed>(items: Seq<T>, key: Seq<char>) -> Seq<T> {
    items.filter(not_about(key))
}

/// The record at `i` is the first one about `key`.
pub open spec fn is_first<T: Keyed>(items: Seq<T>, key: Seq<char>, i: int) -> bool {
    &&& 0 <= i < items.len()
    &&& items[i].key() == key
    &&& forall|j: int| 0 <= j < i ==> #[trigger] items[j].key() != key
}

/// Where the first record about `key` stands.
pub open spec fn first_index<T: Keyed>(items: Seq<T>, key: Seq<char>) -> int
    recommends
        holds(items, key),
{
    choose|i: int| is_first(items, key, i)
}

/// The records with every later one about an earlier one's cookie left out.
pub open spec fn keep_first<T: Keyed>(items: Seq<T>) -> Seq<T>
    decreases items.len(),
{
    if items.len() == 0 {
        items
    } else {
        let kept = keep_first(items.drop_last());
        if holds(kept, items.last().key()) {
            kept
        } else {
            kept.push(items.last())
        }
    }
}

/// No cookie has a record in both.
pub open spec fn disjoint<T: Keyed>(a: Seq<T>, b: Seq<T>) -> bool {
    forall|key: Seq<char>| #[trigger] holds(a, key) ==> !holds(b, key)
}

/// But for `key`, the same cookies have a record in both.
pub open spec fn same_but_for<T: Keyed>(a: Seq<T>, b: Seq<T>, key: Seq<char>) -> bool {
    forall|other: Seq<char>| other != key ==> (#[trigger] holds(a, other) <==> holds(b, other))
}

/// Where records agree on their keys, one by one, they hold the same cookies.
pub proof fn lemma_same_keys<T: Keyed>(a: Seq<T>, b: Seq<T>)
    requires
        a.len() == b.len(),
        forall|i: int| 0 <= i < a.len() ==> #[trigger] a[i].key() == b[i].key(),
    ensures
        forall|key: Seq<char>| #[trigger] holds(a, key) <==> holds(b, key),
        distinct(a) ==> distinct(b),
{
    assert forall|key: Seq<char>| #[trigger] holds(a, key) <==> holds(b, key) by {
        if holds(a, key) {
            let i = choose|i: int| 0 <= i < a.len() && #[trigger] a[i].key() == key;
            assert(b[i].key() == key);
        }
        if holds(b, key) {
            let i = choose|i: int| 0 <= i < b.len() && #[trigger] b[i].key() == key;
            assert(a[i].key() == key);
        }
    }
    if distinct(a) {
        assert forall|i: int, j: int| 0 <= i < j < b.len() implies #[trigger] b[i].key()
            != #[trigger] b[j].key() by {
            assert(a[i].key() != a[j].key());
        }
    }
}

/// Distinct records next to other distinct records about other cookies are distinct.
pub proof fn lemma_add_distinct<T: Keyed>(a: Seq<T>, b: Seq<T>)
    requires
        distinct(a),
        distinct(b),
        disjoint(a, b),
    ensures
        distinct(a + b),
{
    let both = a + b;
    assert forall|i: int, j: int| 0 <= i < j < both.len() implies #[trigger] both[i].key()
        != #[trigger] both[j].key() by {
        if j < a.len() {
            assert(a[i].key() != a[j].key());
        } else if i >= a.len() {
            assert(b[i - a.len()].key() != b[j - a.len()].key());
        } else {
            assert(holds(a, a[i].key()));
            assert(!holds(b, a[i].key()));
            assert(b[j - a.len()].key() != a[i].key());
        }
    }
}

/// Moving a record to the back leaves the cookies as they are.
pub proof fn lemma_rotate<T: Keyed>(items: Seq<T>, at: int)
    requires
        0 <= at < items.len(),
    ensures
        forall|key: Seq<char>| #[trigger]
            holds(items, key) <==> holds(items.remove(at).push(items[at]), key),
        distinct(items) ==> distinct(items.remove(at).push(items[at])),
{
    let rotated = items.remove(at).push(items[at]);
    let last = items.len() - 1;
    let from = |i: int| if i == last { at } else if i < at { i } else { i + 1 };
    assert forall|i: int| 0 <= i < rotated.len() implies #[trigger] rotated[i] == items[from(i)] by {
    }
    assert forall|key: Seq<char>| #[trigger] holds(items, key) <==> holds(rotated, key) by {
        if holds(items, key) {
            let i = choose|i: int| 0 <= i < items.len() && #[trigger] items[i].key() == key;
            let to = if i == at { last } else if i < at { i } else { i - 1 };
            assert(rotated[to].key() == key);
        }
        if holds(rotated, key) {
            let i = choose|i: int| 0 <= i < rotated.len() && #[trigger] rotated[i].key() == key;
            assert(items[from(i)].key() == key);
        }
    }
    if distinct(items) {
        assert forall|i: int, j: int| 0 <= i < j < rotated.len() implies #[trigger] rotated[i].key()
            != #[trigger] rotated[j].key() by {
            if from(i) < from(j) {
                assert(items[from(i)].key() != items[from(j)].key());
            } else {
                assert(items[from(j)].key() != items[from(i)].key());
            }
        }
    }
}

/// The index of a first record is its `first_index`.
pub proof fn lemma_first_index<T: Keyed>(items: Seq<T>, key: Seq<char>, i: int)
    requires
        is_first(items, key, i),
    ensures
        first_index(items, key) == i,
        holds(items, key),
{
    let j = first_index(items, key);
    assert(is_first(items, key, j));
    if j < i {
        assert(items[j].key() != key);
    } else if i < j {
        assert(items[i].key() != key);
    }
}

/// Where there is a record about `key`, there is a first one.
pub proof fn lemma_has_first<T: Keyed>(items: Seq<T>, key: Seq<char>)
    requires
        holds(items, key),
    ensures
        is_first(items, key, first_index(items, key)),
    decreases items.len(),
{
    let i = choose|i: int| 0 <= i < items.len() && #[trigger] items[i].key() == key;
    if forall|j: int| 0 <= j < i ==> #[trigger] items[j].key() != key {
        assert(is_first(items, key, i));
    } else {
        let front = items.take(i);
        let j = choose|j: int| 0 <= j < i && #[trigger] items[j].key() == key;
        assert(front[j].key() == key);
        lemma_has_first(front, key);
        let f = first_index(front, key);
        assert(is_first(items, key, f)) by {
            assert(items[f] == front[f]);
            assert forall|m: int| 0 <= m < f implies #[trigger] items[m].key() != key by {
                assert(front[m].key() != key);
            }
        }
    }
}

/// Pushing a record adds its key.
pub proof fn lemma_push_holds<T: Keyed>(items: Seq<T>, item: T, key: Seq<char>)
    ensures
        holds(items.push(item), key) <==> holds(items, key) || item.key() == key,
        distinct(items) && !holds(items, item.key()) ==> distinct(items.push(item)),
{
    let pushed = items.push(item);
    if holds(items, key) {
        let i = choose|i: int| 0 <= i < items.len() && #[trigger] items[i].key() == key;
        assert(pushed[i].key() == key);
    }
    if item.key() == key {
        assert(pushed[items.len() as int].key() == key);
    }
    if holds(pushed, key) && item.key() != key {
        let i = choose|i: int| 0 <= i < pushed.len() && #[trigger] pushed[i].key() == key;
        assert(items[i].key() == key);
    }
    if distinct(items) && !holds(items, item.key()) {
        assert forall|i: int, j: int| 0 <= i < j < pushed.len() implies #[trigger] pushed[i].key()
            != #[trigger] pushed[j].key() by {
            assert(pushed[i] == items[i]);
            assert(items[i].key() == pushed[i].key());
        }
    }
}

/// The keys of a concatenation are those of its parts.
pub proof fn lemma_add_holds<T: Keyed>(a: Seq<T>, b: Seq<T>, key: Seq<char>)
    ensures
        holds(a + b, key) <==> holds(a, key) || holds(b, key),
{
    let both = a + b;
    if holds(a, key) {
        let i = choose|i: int| 0 <= i < a.len() && #[trigger] a[i].key() == key;
        assert(both[i].key() == key);
    }
    if holds(b, key) {
        let i = choose|i: int| 0 <= i < b.len() && #[trigger] b[i].key() == key;
        assert(both[a.len() + i].key() == key);
    }
    if holds(both, key) {
        let i = choose|i: int| 0 <= i < both.len() && #[trigger] both[i].key() == key;
        if i < a.len() {
            assert(a[i].key() == key);
        } else {
            assert(b[i - a.len()].key() == key);
        }
    }
}

/// One more record either passes a filter or does not.
pub proof fn lemma_filter_push<T>(items: Seq<T>, item: T, p: spec_fn(T) -> bool)
    ensures
        items.push(item).filter(p) == if p(item) {
            items.filter(p).push(item)
        } else {
            items.filter(p)
        },
{
    assert(items.push(item).drop_last() =~= items);
    reveal(Seq::filter);
}

/// A filter keeps exactly the keys of the records that pass it, and keeps records distinct.
pub proof fn lemma_filter_holds<T: Keyed>(items: Seq<T>, p: spec_fn(T) -> bool, key: Seq<char>)
    ensures
        holds(items.filter(p), key) <==> exists|i: int|
            0 <= i < items.len() && p(items[i]) && #[trigger] items[i].key() == key,
        distinct(items) ==> distinct(items.filter(p)),
    decreases items.len(),
{
    reveal(Seq::filter);
    if items.len() > 0 {
        let front = items.drop_last();
        let last = items.last();
        lemma_filter_holds(front, p, key);
        lemma_filter_holds(front, p, last.key());
        assert(items =~= front.push(last));
        lemma_filter_push(front, last, p);
        lemma_push_holds(front.filter(p), last, key);
        if holds(items.filter(p), key) {
            if p(last) && last.key() == key {
                assert(items[items.len() - 1].key() == key);
            } else {
                let i = choose|i: int|
                    0 <= i < front.len() && p(front[i]) && #[trigger] front[i].key() == key;
                assert(items[i].key() == key);
            }
        }
        if exists|i: int| 0 <= i < items.len() && p(items[i]) && #[trigger] items[i].key() == key {
            let i = choose|i: int|
                0 <= i < items.len() && p(items[i]) && #[trigger] items[i].key() == key;
            if i < front.len() {
                assert(front[i].key() == key);
            }
        }
        if distinct(items) {
            assert(distinct(front)) by {
                assert forall|i: int, j: int| 0 <= i < j < front.len() implies
                    #[trigger] front[i].key() != #[trigger] front[j].key() by {
                    assert(items[i].key() != items[j].key());
                }
            }
            if holds(front.filter(p), last.key()) {
                let i = choose|i: int|
                    0 <= i < front.len() && p(front[i]) && #[trigger] front[i].key() == last.key();
                assert(items[i].key() != items[items.len() - 1].key());
            }
        }
    }
}

/// Leaving `gone` out leaves every other key in.
pub proof fn lemma_without_holds<T: Keyed>(items: Seq<T>, gone: Seq<char>, key: Seq<char>)
    ensures
        holds(without(items, gone), key) <==> holds(items, key) && key != gone,
        distinct(items) ==> distinct(without(items, gone)),
{
    let p = not_about(gone);
    lemma_filter_holds(items, p, key);
    if holds(items, key) && key != gone {
        let i = choose|i: int| 0 <= i < items.len() && #[trigger] items[i].key() == key;
        assert(p(items[i]));
    }
}

/// Leaving out what is not there changes nothing.
pub proof fn lemma_without_absent<T: Keyed>(items: Seq<T>, gone: Seq<char>)
    requires
        !holds(items, gone),
    ensures
        without(items, gone) == items,
    decreases items.len(),
{
    reveal(Seq::filter);
    if items.len() > 0 {
        let front = items.drop_last();
        assert(items =~= front.push(items.last()));
        lemma_push_holds(front, items.last(), gone);
        lemma_without_absent(front, gone);
        lemma_filter_push(front, items.last(), not_about(gone));
    }
}

/// Keeping the first record of each cookie keeps every key, once.
pub proof fn lemma_keep_first<T: Keyed>(items: Seq<T>, key: Seq<char>)
    ensures
        holds(keep_first(items), key) <==> holds(items, key),
        distinct(keep_first(items)),
    decreases items.len(),
{
    if items.len() > 0 {
        let front = items.drop_last();
        lemma_keep_first(front, key);
        assert(items =~= front.push(items.last()));
        lemma_push_holds(front, items.last(), key);
        lemma_push_holds(keep_first(front), items.last(), key);
    }
}

/// Records that are distinct already are all kept.
pub proof fn lemma_keep_first_distinct<T: Keyed>(items: Seq<T>)
    requires
        distinct(items),
    ensures
        keep_first(items) == items,
    decreases items.len(),
{
    if items.len() > 0 {
        let front = items.drop_last();
        assert(distinct(front)) by {
            assert forall|i: int, j: int| 0 <= i < j < front.len() implies #[trigger] front[i].key()
                != #[trigger] front[j].key() by {
                assert(items[i].key() != items[j].key());
            }
        }
        lemma_keep_first_distinct(front);
        assert(!holds(front, items.last().key())) by {
            if holds(front, items.last().key()) {
                let i = choose|i: int|
                    0 <= i < front.len() && #[trigger] front[i].key() == items.last().key();
                assert(items[i].key() != items[items.len() - 1].key());
            }
        }
        assert(items =~= front.push(items.last()));
    }
}

/// Finds the first record about `cookie`.
pub(crate) fn position<T: Keyed>(items: &VecDeque<T>, cookie: &ClewdrCookie) -> (found: Option<usize>)
    ensures
        match found {
            Some(i) => is_first(items@, cookie@, i as int) && i == first_index(items@, cookie@),
            None => !holds(items@, cookie@),
        },
{
    let mut i: usize = 0;
    while i < items.len()
        invariant
            i <= items@.len(),
            forall|j: int| 0 <= j < i ==> #[trigger] items@[j].key() != cookie@,
        decreases items@.len() - i,
    {
        if items[i].identity() == cookie {
            proof {
                lemma_first_index(items@, cookie@, i as int);
            }
            return Some(i);
        }
        i += 1;
    }
    None
}

/// Tells whether there is a record about `cookie`.
pub(crate) fn contains<T: Keyed>(items: &Vec<T>, cookie: &ClewdrCookie) -> (found: bool)
    ensures
        found == holds(items@, cookie@),
{
    let mut i: usize = 0;
    while i < items.len()
        invariant
            i <= items@.len(),
            forall|j: int| 0 <= j < i ==> #[trigger] items@[j].key() != cookie@,
        decreases items@.len() - i,
    {
        if items[i].identity() == cookie {
            assert(items@[i as int].key() == cookie@);
            return true;
        }
        i += 1;
    }
    false
}

/// Appends `item` unless there is a record about its cookie, and tells whether it did.
pub(crate) fn insert_absent<T: Keyed>(items: &mut VecDeque<T>, item: T) -> (inserted: bool)
    ensures
        inserted == !holds(old(items)@, item.key()),
        final(items)@ == if inserted {
            old(items)@.push(item)
        } else {
            old(items)@
        },
{
    match position(items, item.identity()) {
        Some(i) => {
            assert(items@[i as int].key() == item.key());
            false
        },
        None => {
            items.push_back(item);
            true
        },
    }
}

/// Takes out every record about `cookie`, and tells whether there was one.
pub(crate) fn remove_key<T: Keyed>(items: &mut VecDeque<T>, cookie: &ClewdrCookie) -> (removed: bool)
    ensures
        removed == holds(old(items)@, cookie@),
        final(items)@ == without(old(items)@, cookie@),
{
    let ghost before = items@;
    let ghost p = not_about(cookie@);
    let mut kept: VecDeque<T> = VecDeque::new();
    let mut removed = false;
    let mut done: usize = 0;
    let total: usize = items.len();
    assert(before.skip(0) =~= before);
    assert(before.take(0).filter(p) =~= Seq::<T>::empty()) by {
        reveal(Seq::filter);
    }
    while done < total
        invariant
            done <= total,
            total == before.len(),
            items@ == before.skip(done as int),
            p == not_about::<T>(cookie@),
            kept@ == before.take(done as int).filter(p),
            removed == holds(before.take(done as int), cookie@),
        decreases total - done,
    {
        match items.pop_front() {
            Some(item) => {
                proof {
                    let front = before.take(done as int);
                    assert(before.take(done + 1) =~= front.push(item));
                    lemma_filter_push(front, item, p);
                    lemma_push_holds(front, item, cookie@);
                    assert(items@ =~= before.skip(done + 1));
                }
                if item.identity() == cookie {
                    removed = true;
                } else {
                    kept.push_back(item);
                }
            },
            None => {
                assert(false);
            },
        }
        done += 1;
    }
    assert(before.take(total as int) =~= before);
    *items = kept;
    removed
}

/// Puts `item` in the place of the record at `i`.
pub(crate) fn replace_at<T>(items: &mut VecDeque<T>, i: usize, item: T)
    requires
        i < old(items)@.len(),
    ensures
        final(items)@ == old(items)@.update(i as int, item),
{
    items.remove(i);
    items.insert(i, item);
    assert(items@ =~= old(items)@.update(i as int, item));
}

/// Appends a copy of every record in `items`.
pub(crate) fn append_copies<T: Keyed>(target: &mut Vec<T>, items: &VecDeque<T>)
    ensures
        final(target)@ == old(target)@ + items@,
{
    let mut i: usize = 0;
    while i < items.len()
        invariant
            i <= items@.len(),
            target@ == old(target)@ + items@.take(i as int),
        decreases items@.len() - i,
    {
        target.push(items[i].duplicate());
        assert(items@.take(i + 1) =~= items@.take(i as int).push(items@[i as int]));
        i += 1;
    }
    assert(items@.take(i as int) =~= items@);
}

/// Copies of the records, with every later one about an earlier one's cookie left out.
pub(crate) fn copy_keeping_first<T: Keyed>(items: &Vec<T>) -> (kept: VecDeque<T>)
    ensures
        kept@ == keep_first(items@),
{
    let mut kept: VecDeque<T> = VecDeque::new();
    let mut i: usize = 0;
    assert(keep_first(items@.take(0)) =~= Seq::<T>::empty());
    while i < items.len()
        invariant
            i <= items@.len(),
            kept@ == keep_first(items@.take(i as int)),
        decreases items@.len() - i,
    {
        insert_absent(&mut kept, items[i].duplicate());
        assert(items@.take(i + 1).drop_last() =~= items@.take(i as int));
        i += 1;
    }
    assert(items@.take(i as int) =~= items@);
    kept
}

} // verus!
