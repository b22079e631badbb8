//! How many requests are using each cookie at the moment.

use crate::cookie::ClewdrCookie;
use crate::keyed::{
    distinct, first_index, holds, is_first, lemma_first_index, lemma_has_first, lemma_push_holds,
    position, Keyed,
};
use std::collections::VecDeque;
use vstd::prelude::*;

verus! {

/// How many requests are using the cookie `key`.
pub open spec fn count_of(counts: Map<Seq<char>, nat>, key: Seq<char>) -> nat {
    if counts.contains_key(key) {
        counts[key]
    } else {
        0
    }
}

/// The counts after one more request has begun to use `key`.
pub open spec fn acquired(counts: Map<Seq<char>, nat>, key: Seq<char>) -> Map<Seq<char>, nat> {
    counts.insert(key, count_of(counts, key) + 1)
}

/// The counts after a request has stopped using `key`. A cookie that nobody uses has no entry.
pub open spec fn released(counts: Map<Seq<char>, nat>, key: Seq<char>) -> Map<Seq<char>, nat> {
    if !counts.contains_key(key) {
        counts
    } else if counts[key] <= 1 {
        counts.remove(key)
    } else {
        counts.insert(key, (counts[key] - 1) as nat)
    }
}

/// Every cookie with an entry is being used.
pub open spec fn all_positive(counts: Map<Seq<char>, nat>) -> bool {
    forall|key: Seq<char>| #[trigger] counts.contains_key(key) ==> counts[key] > 0
}

/// The number of requests using one cookie.
#[derive(Debug)]
struct Slot {
    cookie: ClewdrCookie,
    count: usize,
}

impl Keyed for Slot {
    closed spec fn key(&self) -> Seq<char> {
        self.cookie@
    }

    fn identity(&self) -> (cookie: &ClewdrCookie) {
        &self.cookie
    }

    fn duplicate(&self) -> (copy: Self) {
        Slot { cookie: self.cookie.clone(), count: self.count }
    }
}

impl Slot {
    /// The number of requests.
    spec fn requests(self) -> nat {
        self.count as nat
    }
}

/// What a list of slots says of each cookie.
spec fn counts_in(slots: Seq<Slot>) -> Map<Seq<char>, nat> {
    Map::new(
        |key: Seq<char>| holds(slots, key),
        |key: Seq<char>| slots[first_index(slots, key)].requests(),
    )
}

/// What pairs of a cookie's text and a number say of each cookie.
pub open spec fn counts_listed(pairs: Seq<(String, usize)>) -> Map<Seq<char>, nat> {
    Map::new(
        |key: Seq<char>| exists|i: int| 0 <= i < pairs.len() && #[trigger] pairs[i].0@ == key,
        |key: Seq<char>|
            pairs[choose|i: int| 0 <= i < pairs.len() && #[trigger] pairs[i].0@ == key].1 as nat,
    )
}

/// No cookie is listed twice.
pub open spec fn listed_once(pairs: Seq<(String, usize)>) -> bool {
    forall|i: int, j: int|
        0 <= i < j < pairs.len() ==> #[trigger] pairs[i].0@ != #[trigger] pairs[j].0@
}

proof fn lemma_counts_at(slots: Seq<Slot>, i: int)
    requires
        distinct(slots),
        0 <= i < slots.len(),
    ensures
        counts_in(slots).contains_key(slots[i].key()),
        counts_in(slots)[slots[i].key()] == slots[i].requests(),
{
    assert(is_first(slots, slots[i].key(), i));
    lemma_first_index(slots, slots[i].key(), i);
}

proof fn lemma_counts_push(slots: Seq<Slot>, slot: Slot)
    requires
        distinct(slots),
        !holds(slots, slot.key()),
    ensures
        distinct(slots.push(slot)),
        counts_in(slots.push(slot)) == counts_in(slots).insert(slot.key(), slot.requests()),
{
    let pushed = slots.push(slot);
    lemma_push_holds(slots, slot, slot.key());
    assert forall|key: Seq<char>| #[trigger]
        counts_in(pushed).contains_key(key) <==> counts_in(slots).insert(
            slot.key(),
            slot.requests(),
        ).contains_key(key) by {
        lemma_push_holds(slots, slot, key);
    }
    assert forall|key: Seq<char>| #[trigger] counts_in(pushed).contains_key(key) implies counts_in(
        pushed,
    )[key] == counts_in(slots).insert(slot.key(), slot.requests())[key] by {
        lemma_push_holds(slots, slot, key);
        if key == slot.key() {
            lemma_counts_at(pushed, slots.len() as int);
            assert(pushed[slots.len() as int] == slot);
        } else {
            lemma_has_first(slots, key);
            let i = first_index(slots, key);
            lemma_counts_at(slots, i);
            lemma_counts_at(pushed, i);
            assert(pushed[i] == slots[i]);
        }
    }
    assert(counts_in(pushed) =~= counts_in(slots).insert(slot.key(), slot.requests()));
}

proof fn lemma_counts_remove(slots: Seq<Slot>, at: int)
    requires
        distinct(slots),
        0 <= at < slots.len(),
    ensures
        distinct(slots.remove(at)),
        !holds(slots.remove(at), slots[at].key()),
        counts_in(slots.remove(at)) == counts_in(slots).remove(slots[at].key()),
{
    let rest = slots.remove(at);
    let gone = slots[at].key();
    let shift = |i: int| if i < at { i } else { i + 1 };
    assert forall|i: int| 0 <= i < rest.len() implies #[trigger] rest[i] == slots[shift(i)]
        && shift(i) != at by {}
    assert forall|i: int, j: int| 0 <= i < j < rest.len() implies #[trigger] rest[i].key()
        != #[trigger] rest[j].key() by {
        assert(slots[shift(i)].key() != slots[shift(j)].key());
    }
    assert forall|i: int| 0 <= i < rest.len() implies #[trigger] rest[i].key() != gone by {
        let k = shift(i);
        if k < at {
            assert(slots[k].key() != slots[at].key());
        } else {
            assert(slots[at].key() != slots[k].key());
        }
    }
    assert forall|key: Seq<char>| key != gone implies holds(rest, key) == holds(slots, key) && (
    holds(slots, key) ==> #[trigger] counts_in(rest)[key] == counts_in(slots)[key]) by {
        if holds(slots, key) {
            lemma_has_first(slots, key);
            let i = first_index(slots, key);
            let k = if i < at { i } else { i - 1 };
            assert(rest[k] == slots[i]);
            assert(rest[k].key() == key);
            lemma_counts_at(rest, k);
            lemma_counts_at(slots, i);
        }
        if holds(rest, key) {
            let k = choose|k: int| 0 <= k < rest.len() && #[trigger] rest[k].key() == key;
            assert(slots[shift(k)].key() == key);
        }
    }
    let expected = counts_in(slots).remove(gone);
    assert forall|key: Seq<char>| #[trigger] counts_in(rest).contains_key(key)
        <==> expected.contains_key(key) by {
        if key != gone {
            let _ = counts_in(rest)[key];
        }
    }
    assert(counts_in(rest) =~= expected);
}

/// Counts, for each cookie, the requests that are using it.
#[derive(Debug)]
pub struct SlotTable {
    slots: VecDeque<Slot>,
}

impl View for SlotTable {
    type V = Map<Seq<char>, nat>;

    closed spec fn view(&self) -> Map<Seq<char>, nat> {
        counts_in(self.slots@)
    }
}

impl SlotTable {
    /// Each cookie has at most one slot, and one that nobody uses has none.
    pub closed spec fn wf(self) -> bool {
        &&& distinct(self.slots@)
        &&& forall|i: int| 0 <= i < self.slots@.len() ==> #[trigger] self.slots@[i].requests() > 0
    }

    /// A well-formed table has no entry for a cookie that nobody uses.
    pub proof fn lemma_all_positive(self)
        requires
            self.wf(),
        ensures
            all_positive(self@),
    {
        assert forall|key: Seq<char>| #[trigger] self@.contains_key(key) implies self@[key] > 0 by {
            lemma_has_first(self.slots@, key);
            lemma_counts_at(self.slots@, first_index(self.slots@, key));
        }
    }

    pub fn new() -> (table: Self)
        ensures
            table.wf(),
            table@ == Map::<Seq<char>, nat>::empty(),
    {
        let table = SlotTable { slots: VecDeque::new() };
        assert(table@ =~= Map::<Seq<char>, nat>::empty());
        table
    }

    /// The number of requests that are using `cookie`.
    pub fn count(&self, cookie: &ClewdrCookie) -> (count: usize)
        requires
            self.wf(),
        ensures
            count == count_of(self@, cookie@),
    {
        match position(&self.slots, cookie) {
            Some(i) => {
                proof {
                    lemma_counts_at(self.slots@, i as int);
                }
                self.slots[i].count
            },
            None => 0,
        }
    }

    /// Notes that one more request uses `cookie`.
    pub fn acquire(&mut self, cookie: &ClewdrCookie)
        requires
            old(self).wf(),
            count_of(old(self)@, cookie@) < usize::MAX,
        ensures
            final(self).wf(),
            final(self)@ == acquired(old(self)@, cookie@),
    {
        match position(&self.slots, cookie) {
            Some(i) => {
                proof {
                    lemma_counts_at(self.slots@, i as int);
                    lemma_counts_remove(self.slots@, i as int);
                }
                if let Some(slot) = self.slots.remove(i) {
                    let ghost rest = self.slots@;
                    let more = Slot { cookie: slot.cookie, count: slot.count + 1 };
                    proof {
                        assert(more.key() == cookie@);
                        lemma_counts_push(rest, more);
                        assert(counts_in(rest.push(more)) =~= acquired(old(self)@, cookie@));
                    }
                    self.slots.push_back(more);
                    assert forall|k: int| 0 <= k < self.slots@.len() implies #[trigger]
                        self.slots@[k].requests() > 0 by {
                        if k < rest.len() {
                            assert(self.slots@[k] == old(self).slots@[if k < i {
                                k
                            } else {
                                k + 1
                            }]);
                        }
                    }
                }
            },
            None => {
                let first = Slot { cookie: cookie.clone(), count: 1 };
                proof {
                    lemma_counts_push(self.slots@, first);
                }
                self.slots.push_back(first);
            },
        }
    }

    /// Notes that a request no longer uses `cookie`. Nothing happens if nobody was using it.
    pub fn release(&mut self, cookie: &ClewdrCookie)
        requires
            old(self).wf(),
        ensures
            final(self).wf(),
            final(self)@ == released(old(self)@, cookie@),
    {
        if let Some(i) = position(&self.slots, cookie) {
            proof {
                lemma_counts_at(self.slots@, i as int);
                lemma_counts_remove(self.slots@, i as int);
            }
            if let Some(slot) = self.slots.remove(i) {
                let ghost rest = self.slots@;
                assert forall|k: int| 0 <= k < rest.len() implies #[trigger] rest[k].requests()
                    > 0 by {
                    assert(rest[k] == old(self).slots@[if k < i {
                        k
                    } else {
                        k + 1
                    }]);
                }
                let left: usize = slot.count.saturating_sub(1);
                if left != 0 {
                    let fewer = Slot { cookie: slot.cookie, count: left };
                    proof {
                        assert(fewer.key() == cookie@);
                        lemma_counts_push(rest, fewer);
                        assert(counts_in(rest.push(fewer)) =~= released(old(self)@, cookie@));
                    }
                    self.slots.push_back(fewer);
                }
            }
        }
    }

    /// Lists every cookie that is being used with the number of requests that use it.
    pub fn list(&self) -> (pairs: Vec<(String, usize)>)
        requires
            self.wf(),
        ensures
            listed_once(pairs@),
            counts_listed(pairs@) == self@,
    {
        let mut pairs: Vec<(String, usize)> = Vec::new();
        let mut i: usize = 0;
        while i < self.slots.len()
            invariant
                i <= self.slots@.len(),
                pairs@.len() == i,
                forall|k: int|
                    0 <= k < i ==> #[trigger] pairs@[k].0@ == self.slots@[k].key() && pairs@[k].1
                        == self.slots@[k].requests(),
            decreases self.slots@.len() - i,
        {
            let slot = &self.slots[i];
            pairs.push((slot.cookie.to_string(), slot.count));
            i += 1;
        }
        proof {
            let slots = self.slots@;
            assert forall|k: int, m: int| 0 <= k < m < pairs@.len() implies #[trigger] pairs@[k].0@
                != #[trigger] pairs@[m].0@ by {
                assert(slots[k].key() != slots[m].key());
            }
            assert forall|key: Seq<char>| #[trigger] counts_listed(pairs@).contains_key(key)
                <==> self@.contains_key(key) by {
                if holds(slots, key) {
                    let k = choose|k: int| 0 <= k < slots.len() && #[trigger] slots[k].key() == key;
                    assert(pairs@[k].0@ == key);
                }
                if counts_listed(pairs@).contains_key(key) {
                    let k = choose|k: int| 0 <= k < pairs@.len() && #[trigger] pairs@[k].0@ == key;
                    assert(slots[k].key() == key);
                }
            }
            assert forall|key: Seq<char>| #[trigger]
                counts_listed(pairs@).contains_key(key) implies counts_listed(pairs@)[key]
                == self@[key] by {
                let k = choose|k: int| 0 <= k < pairs@.len() && #[trigger] pairs@[k].0@ == key;
                assert(slots[k].key() == key);
                lemma_counts_at(slots, k);
            }
            assert(counts_listed(pairs@) =~= self@);
        }
        pairs
    }
}

} // verus!
