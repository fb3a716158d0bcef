//! Deduplication of registration events by condition identifier.
//!
//! The exchange contract emits one event per outcome-token side, so a batch
//! holds up to two events per market, possibly with swapped token
//! assignments. Deduplication keeps the first-seen event for each condition
//! identifier ("first registration wins"), never dropping an identifier.

use vstd::prelude::*;
use crate::events::{EventV, TokenRegistered};
use crate::util::{bytes_eq, clone_bytes};

verus! {

/// Whether some event in `s` carries the condition identifier `id`.
pub open spec fn contains_id(s: Seq<EventV>, id: Seq<u8>) -> bool {
    exists|i: int| 0 <= i < s.len() && s[i].condition_id == id
}

/// The subsequence of `s` that keeps, for each condition identifier, only
/// the first event that carries it.
pub open spec fn dedup_spec(s: Seq<EventV>) -> Seq<EventV>
    decreases s.len(),
{
    if s.len() == 0 {
        Seq::<EventV>::empty()
    } else {
        let rest = dedup_spec(s.drop_last());
        if contains_id(s.drop_last(), s.last().condition_id) {
            rest
        } else {
            rest.push(s.last())
        }
    }
}

/// The first event of `s` that carries `id`.
pub open spec fn first_with_id(s: Seq<EventV>, id: Seq<u8>) -> EventV
    recommends
        contains_id(s, id),
    decreases s.len(),
{
    if s.len() == 0 {
        arbitrary()
    } else if s.first().condition_id == id {
        s.first()
    } else {
        first_with_id(s.drop_first(), id)
    }
}

proof fn lemma_contains_split(s: Seq<EventV>, id: Seq<u8>)
    requires
        s.len() > 0,
    ensures
        contains_id(s, id) <==> (contains_id(s.drop_last(), id) || s.last().condition_id == id),
{
    if contains_id(s, id) {
        let i = choose|i: int| 0 <= i < s.len() && s[i].condition_id == id;
        if i < s.len() - 1 {
            assert(s.drop_last()[i] == s[i]);
        }
    }
    if contains_id(s.drop_last(), id) {
        let i = choose|i: int| 0 <= i < s.drop_last().len() && s.drop_last()[i].condition_id == id;
        assert(s[i] == s.drop_last()[i]);
    }
    if s.last().condition_id == id {
        assert(s[s.len() - 1].condition_id == id);
    }
}

/// Every condition identifier of the input survives deduplication, and no
/// identifier appears that the input lacked.
pub proof fn lemma_dedup_ids(s: Seq<EventV>, id: Seq<u8>)
    ensures
        contains_id(dedup_spec(s), id) <==> contains_id(s, id),
    decreases s.len(),
{
    if s.len() > 0 {
        let prefix = s.drop_last();
        let last = s.last();
        lemma_dedup_ids(prefix, id);
        lemma_contains_split(s, id);
        if contains_id(prefix, last.condition_id) {
            assert(dedup_spec(s) == dedup_spec(prefix));
            if last.condition_id == id {
                assert(contains_id(prefix, id));
            }
        } else {
            let d = dedup_spec(prefix);
            assert(dedup_spec(s) == d.push(last));
            if contains_id(d.push(last), id) {
                let i = choose|i: int|
                    0 <= i < d.push(last).len() && d.push(last)[i].condition_id == id;
                if i < d.len() {
                    assert(d[i] == d.push(last)[i]);
                } else {
                    assert(d.push(last)[i] == last);
                }
            }
            if contains_id(d, id) {
                let i = choose|i: int| 0 <= i < d.len() && d[i].condition_id == id;
                assert(d.push(last)[i] == d[i]);
            }
            if last.condition_id == id {
                assert(d.push(last)[d.len() as int] == last);
            }
        }
    }
}

/// Deduplication yields exactly one representative per identifier: any two
/// distinct output positions carry distinct condition identifiers.
pub proof fn lemma_dedup_distinct(s: Seq<EventV>)
    ensures
        forall|i: int, j: int|
            0 <= i < j < dedup_spec(s).len() ==> dedup_spec(s)[i].condition_id != dedup_spec(
                s,
            )[j].condition_id,
    decreases s.len(),
{
    if s.len() > 0 {
        let prefix = s.drop_last();
        let last = s.last();
        lemma_dedup_distinct(prefix);
        if !contains_id(prefix, last.condition_id) {
            let d = dedup_spec(prefix);
            assert forall|i: int| 0 <= i < d.len() implies d[i].condition_id != last.condition_id
            by {
                assert(contains_id(d, d[i].condition_id));
                lemma_dedup_ids(prefix, d[i].condition_id);
            }
            assert forall|i: int, j: int|
                0 <= i < j < d.push(last).len() implies d.push(last)[i].condition_id != d.push(
                last,
            )[j].condition_id by {
                if j < d.len() {
                    assert(d.push(last)[i] == d[i] && d.push(last)[j] == d[j]);
                } else {
                    assert(d.push(last)[i] == d[i] && d.push(last)[j] == last);
                }
            }
        }
    }
}

proof fn lemma_first_unchanged_by_push(s: Seq<EventV>, x: EventV, id: Seq<u8>)
    requires
        contains_id(s, id),
    ensures
        first_with_id(s.push(x), id) == first_with_id(s, id),
    decreases s.len(),
{
    let i = choose|i: int| 0 <= i < s.len() && s[i].condition_id == id;
    assert(s.len() > 0);
    assert(s.push(x).first() == s.first());
    if s.first().condition_id == id {
    } else {
        assert(i > 0);
        assert(s.drop_first()[i - 1] == s[i]);
        assert(contains_id(s.drop_first(), id));
        lemma_first_unchanged_by_push(s.drop_first(), x, id);
        assert(s.push(x).drop_first() =~= s.drop_first().push(x));
    }
}

proof fn lemma_first_of_new_push(s: Seq<EventV>, x: EventV)
    requires
        !contains_id(s, x.condition_id),
    ensures
        first_with_id(s.push(x), x.condition_id) == x,
    decreases s.len(),
{
    if s.len() == 0 {
        assert(s.push(x).first() == x);
    } else {
        assert(s.push(x).first() == s.first());
        assert(s[0] == s.first());
        assert(s.first().condition_id != x.condition_id);
        assert forall|j: int|
            0 <= j < s.drop_first().len() implies s.drop_first()[j].condition_id
            != x.condition_id by {
            assert(s.drop_first()[j] == s[j + 1]);
        }
        lemma_first_of_new_push(s.drop_first(), x);
        assert(s.push(x).drop_first() =~= s.drop_first().push(x));
    }
}

/// The representative kept for each identifier is the first event of the
/// input that carried it: the first-seen token assignment wins.
pub proof fn lemma_dedup_first_wins(s: Seq<EventV>)
    ensures
        forall|i: int|
            0 <= i < dedup_spec(s).len() ==> dedup_spec(s)[i] == first_with_id(
                s,
                dedup_spec(s)[i].condition_id,
            ),
    decreases s.len(),
{
    if s.len() > 0 {
        let prefix = s.drop_last();
        let last = s.last();
        lemma_dedup_first_wins(prefix);
        assert(s =~= prefix.push(last));
        let d = dedup_spec(prefix);
        assert forall|i: int| 0 <= i < d.len() implies d[i] == first_with_id(
            s,
            d[i].condition_id,
        ) by {
            assert(contains_id(d, d[i].condition_id));
            lemma_dedup_ids(prefix, d[i].condition_id);
            lemma_first_unchanged_by_push(prefix, last, d[i].condition_id);
        }
        if contains_id(prefix, last.condition_id) {
            assert(dedup_spec(s) == d);
        } else {
            assert(dedup_spec(s) == d.push(last));
            lemma_first_of_new_push(prefix, last);
            assert forall|i: int| 0 <= i < d.push(last).len() implies d.push(last)[i]
                == first_with_id(s, d.push(last)[i].condition_id) by {
                if i < d.len() {
                    assert(d.push(last)[i] == d[i]);
                } else {
                    assert(d.push(last)[i] == last);
                }
            }
        }
    }
}

/// Whether some already-collected event carries the identifier `id`.
pub fn contains_event_id(events: &Vec<TokenRegistered>, id: &Vec<u8>) -> (r: bool)
    ensures
        r == contains_id(events.deep_view(), id@),
{
    let n: usize = events.len();
    let mut i: usize = 0;
    while i < n
        invariant
            n == events@.len(),
            0 <= i <= n,
            events.deep_view().len() == n,
            forall|j: int| 0 <= j < i ==> events.deep_view()[j].condition_id != id@,
        decreases n - i,
    {
        proof {
            assert(events.deep_view()[i as int] == events@[i as int]@);
        }
        if bytes_eq(&events[i].condition_id, id) {
            return true;
        }
        i = i + 1;
    }
    false
}

fn clone_event(e: &TokenRegistered) -> (r: TokenRegistered)
    ensures
        r@ == e@,
{
    TokenRegistered {
        token0: clone_bytes(&e.token0),
        token1: clone_bytes(&e.token1),
        condition_id: clone_bytes(&e.condition_id),
        block_number: e.block_number,
        tx_hash: clone_bytes(&e.tx_hash),
    }
}

/// Collapses a batch of events to one representative per condition
/// identifier, keeping the first-seen event for each.
pub fn dedupe_events(events: &Vec<TokenRegistered>) -> (out: Vec<TokenRegistered>)
    ensures
        out.deep_view() == dedup_spec(events.deep_view()),
{
    let ghost s = events.deep_view();
    let mut out: Vec<TokenRegistered> = Vec::new();
    let n: usize = events.len();
    let mut i: usize = 0;
    while i < n
        invariant
            n == events@.len(),
            s == events.deep_view(),
            s.len() == n,
            0 <= i <= n,
            out.deep_view() == dedup_spec(s.take(i as int)),
        decreases n - i,
    {
        proof {
            assert(events.deep_view()[i as int] == events@[i as int]@);
        }
        let seen: bool = contains_event_id(&out, &events[i].condition_id);
        proof {
            lemma_dedup_ids(s.take(i as int), s[i as int].condition_id);
            assert(s.take(i + 1 as int).drop_last() =~= s.take(i as int));
            assert(s.take(i + 1 as int).last() == s[i as int]);
        }
        if !seen {
            let e = clone_event(&events[i]);
            out.push(e);
            proof {
                assert(out.deep_view() =~= dedup_spec(s.take(i + 1 as int)));
            }
        }
        i = i + 1;
    }
    proof {
        assert(s.take(n as int) =~= s);
    }
    out
}

} // verus!
