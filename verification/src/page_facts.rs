//! What a page shows of its candidates, told by their places and by the time in
//! their instants.
//!
//! The time of an instant is written out as one number, `seconds` times ten to the
//! tenth plus `nanos`: `nanos` is always less than ten to the tenth.
use vstd::prelude::*;

use crate::db::{Bounty, BountyPage};
use crate::paging::{
    is_newest_first, is_page, newest_first, newest_first_arranges, overflows, page_entries, place,
};
use crate::timestamp::instants_are_ordered_by_time;

verus! {

/// Where a bounty is put into newest-first bounties: behind those that are not
/// older, before those that are.
proof fn place_inserts(sorted: Seq<Bounty>, bounty: Bounty) -> (p: int)
    requires
        is_newest_first(sorted),
    ensures
        0 <= p <= sorted.len(),
        place(sorted, bounty) == sorted.insert(p, bounty),
        forall|i: int|
            0 <= i < p ==> !(#[trigger] sorted[i]).created_at.before(bounty.created_at),
        forall|i: int|
            p <= i < sorted.len() ==> (#[trigger] sorted[i]).created_at.before(bounty.created_at),
    decreases sorted.len(),
{
    if sorted.len() > 0 && sorted.last().created_at.before(bounty.created_at) {
        let rest = sorted.drop_last();
        let p = place_inserts(rest, bounty);
        assert(rest.insert(p, bounty).push(sorted.last()) =~= sorted.insert(p, bounty));
        assert forall|i: int| 0 <= i < p implies !(#[trigger] sorted[i]).created_at.before(
            bounty.created_at,
        ) by {
            assert(sorted[i] == rest[i]);
        }
        assert forall|i: int| p <= i < sorted.len() implies (
        #[trigger] sorted[i]).created_at.before(bounty.created_at) by {
            if i < rest.len() {
                assert(sorted[i] == rest[i]);
            }
        }
        p
    } else {
        let p = sorted.len() as int;
        assert(sorted.push(bounty) =~= sorted.insert(p, bounty));
        assert forall|i: int| 0 <= i < p implies !(#[trigger] sorted[i]).created_at.before(
            bounty.created_at,
        ) by {
            instants_are_ordered_by_time(sorted[i].created_at, bounty.created_at);
            instants_are_ordered_by_time(sorted[p - 1].created_at, bounty.created_at);
            instants_are_ordered_by_time(sorted[i].created_at, sorted[p - 1].created_at);
        }
        p
    }
}

/// The places in `candidates` from which newest-first order takes its bounties.
proof fn places_in_order(candidates: Seq<Bounty>) -> (places: Seq<int>)
    ensures
        places.len() == candidates.len(),
        newest_first(candidates).len() == candidates.len(),
        forall|i: int|
            0 <= i < places.len() ==> 0 <= #[trigger] places[i] < candidates.len() && newest_first(
                candidates,
            )[i] == candidates[places[i]],
        forall|i: int, j: int|
            #![trigger places[i], places[j]]
            0 <= i < j < places.len() ==> {
                ||| candidates[places[j]].created_at.before(candidates[places[i]].created_at)
                ||| candidates[places[j]].created_at == candidates[places[i]].created_at
                    && places[i] < places[j]
            },
        forall|k: int| 0 <= k < candidates.len() ==> #[trigger] places.contains(k),
    decreases candidates.len(),
{
    if candidates.len() == 0 {
        Seq::empty()
    } else {
        let n = candidates.len() - 1;
        let rest = candidates.drop_last();
        let last = candidates.last();
        let before = places_in_order(rest);
        newest_first_arranges(rest);
        let sorted = newest_first(rest);
        let p = place_inserts(sorted, last);
        let places = before.insert(p, n);
        assert forall|i: int| 0 <= i < places.len() implies 0 <= #[trigger] places[i]
            < candidates.len() && newest_first(candidates)[i] == candidates[places[i]] by {
            if i < p {
                assert(places[i] == before[i]);
            } else if i > p {
                assert(places[i] == before[i - 1]);
            }
        }
        assert forall|i: int, j: int|
            #![trigger places[i], places[j]]
            0 <= i < j < places.len() implies {
            ||| candidates[places[j]].created_at.before(candidates[places[i]].created_at)
            ||| candidates[places[j]].created_at == candidates[places[i]].created_at && places[i]
                < places[j]
        } by {
            let a = if i < p { i } else { i - 1 };
            let b = if j < p { j } else { j - 1 };
            if i == p {
                assert(places[j] == before[b]);
                assert(sorted[b] == rest[before[b]]);
                assert(sorted[b].created_at.before(last.created_at));
            } else if j == p {
                assert(places[i] == before[a]);
                assert(sorted[a] == rest[before[a]]);
                assert(!sorted[a].created_at.before(last.created_at));
                instants_are_ordered_by_time(sorted[a].created_at, last.created_at);
                instants_are_ordered_by_time(last.created_at, sorted[a].created_at);
            } else {
                assert(places[i] == before[a] && places[j] == before[b]);
                assert(rest[before[a]] == candidates[before[a]]);
                assert(rest[before[b]] == candidates[before[b]]);
            }
        }
        assert forall|k: int| 0 <= k < candidates.len() implies #[trigger] places.contains(k) by {
            if k == n {
                assert(places[p] == n);
            } else {
                assert(before.contains(k));
                let i = choose|i: int| 0 <= i < before.len() && before[i] == k;
                assert(places[if i < p { i } else { i + 1 }] == k);
            }
        }
        places
    }
}

/// What a page shows: bounties from different places of `candidates`, later ones
/// first and those of one time by their place; as many as there are, but no more
/// than a limit that is not negative. What it leaves out comes behind all that it
/// shows. It names a cursor exactly where it shows bounties and leaves any out:
/// the instant of the last one that it shows.
pub proof fn page_in_full(page: BountyPage, candidates: Seq<Bounty>, limit: i64) -> (places: Seq<
    int,
>)
    requires
        is_page(page, candidates, limit),
    ensures
        places.len() == page.bounties@.len(),
        places.len() == (if 0 <= limit < candidates.len() {
            limit as int
        } else {
            candidates.len() as int
        }),
        forall|i: int|
            0 <= i < places.len() ==> 0 <= #[trigger] places[i] < candidates.len()
                && page.bounties@[i] == candidates[places[i]],
        forall|i: int, j: int|
            #![trigger page.bounties@[i], page.bounties@[j]]
            0 <= i < j < page.bounties@.len() ==> {
                let first = page.bounties@[i].created_at;
                let second = page.bounties@[j].created_at;
                let time1 = first.seconds * 10_000_000_000 + first.nanos;
                let time2 = second.seconds * 10_000_000_000 + second.nanos;
                time1 > time2 || time1 == time2 && places[i] < places[j]
            },
        forall|i: int, k: int|
            #![trigger page.bounties@[i], candidates[k]]
            0 <= i < page.bounties@.len() && 0 <= k < candidates.len() && !places.contains(k)
                ==> {
                let shown = page.bounties@[i].created_at;
                let left_out = candidates[k].created_at;
                let time1 = shown.seconds * 10_000_000_000 + shown.nanos;
                let time2 = left_out.seconds * 10_000_000_000 + left_out.nanos;
                time1 > time2 || time1 == time2 && places[i] < k
            },
        page.next_cursor == (if 0 < limit < candidates.len() {
            Some(page.bounties@[limit - 1].created_at)
        } else {
            None
        }),
{
    let all = places_in_order(candidates);
    let sorted = newest_first(candidates);
    let n = page_entries(sorted, limit).len() as int;
    let places = all.take(n);
    assert forall|i: int, j: int|
        #![trigger page.bounties@[i], page.bounties@[j]]
        0 <= i < j < page.bounties@.len() implies {
        let first = page.bounties@[i].created_at;
        let second = page.bounties@[j].created_at;
        let time1 = first.seconds * 10_000_000_000 + first.nanos;
        let time2 = second.seconds * 10_000_000_000 + second.nanos;
        time1 > time2 || time1 == time2 && places[i] < places[j]
    } by {
        assert(places[i] == all[i] && places[j] == all[j]);
        instants_are_ordered_by_time(sorted[j].created_at, sorted[i].created_at);
    }
    assert forall|i: int, k: int|
        #![trigger page.bounties@[i], candidates[k]]
        0 <= i < page.bounties@.len() && 0 <= k < candidates.len() && !places.contains(
            k,
        ) implies {
        let shown = page.bounties@[i].created_at;
        let left_out = candidates[k].created_at;
        let time1 = shown.seconds * 10_000_000_000 + shown.nanos;
        let time2 = left_out.seconds * 10_000_000_000 + left_out.nanos;
        time1 > time2 || time1 == time2 && places[i] < k
    } by {
        assert(all.contains(k));
        let j = choose|j: int| 0 <= j < all.len() && all[j] == k;
        if j < n {
            assert(places[j] == k);
        }
        assert(places[i] == all[i]);
        assert(sorted[i] == candidates[all[i]]);
        instants_are_ordered_by_time(candidates[k].created_at, sorted[i].created_at);
    }
    places
}

} // verus!
