//! The listing by assignee is the counterpart of the listing by creator.
use vstd::prelude::*;

use crate::db::{by_assignee, by_creator, lists, names_each_key, readable, Bounty, BountyPage};
use crate::listing_laws::{
    instants_tell_apart, place_in, reading_holds_the_values, reading_of, reads_one_way,
    selection_tells_apart, values_under,
};
use crate::paging::{
    newest_first, page_cursor, page_entries, place, selected, selected_push,
};
use crate::paging_laws::order_of_arrival_is_immaterial;
use crate::timestamp::Timestamp;

verus! {

/// `bounty` with its creator and its assignee in each other's place.
pub open spec fn swapped(bounty: Bounty) -> Bounty {
    Bounty {
        id: bounty.id,
        creator: bounty.assignee->Some_0,
        assignee: Some(bounty.creator),
        created_at: bounty.created_at,
    }
}

/// `bounties`, each with its creator and its assignee in each other's place.
pub open spec fn all_swapped(bounties: Seq<Bounty>) -> Seq<Bounty> {
    bounties.map_values(|bounty: Bounty| swapped(bounty))
}

/// The record under `other` is that under `key` with creator and assignee
/// swapped: neither can be read, or both, and the first has an assignee.
pub open spec fn is_counterpart(
    records: Map<String, String>,
    others: Map<String, String>,
    value: spec_fn(String) -> Option<Bounty>,
    key: String,
    other: String,
) -> bool {
    match value(records[key]) {
        None => value(others[other]) is None,
        Some(bounty) => bounty.assignee is Some && value(others[other]) == Some(swapped(bounty)),
    }
}

/// Placing goes by the instant alone.
proof fn place_swapped(sorted: Seq<Bounty>, bounty: Bounty)
    ensures
        place(all_swapped(sorted), swapped(bounty)) == all_swapped(place(sorted, bounty)),
    decreases sorted.len(),
{
    if sorted.len() > 0 && sorted.last().created_at.before(bounty.created_at) {
        place_swapped(sorted.drop_last(), bounty);
        assert(all_swapped(sorted).drop_last() =~= all_swapped(sorted.drop_last()));
        assert(all_swapped(place(sorted, bounty)) =~= all_swapped(
            place(sorted.drop_last(), bounty),
        ).push(swapped(sorted.last())));
    } else {
        assert(all_swapped(place(sorted, bounty)) =~= all_swapped(sorted).push(swapped(bounty)));
    }
}

/// Arranging goes by the instants alone.
proof fn newest_first_swapped(bounties: Seq<Bounty>)
    ensures
        newest_first(all_swapped(bounties)) == all_swapped(newest_first(bounties)),
    decreases bounties.len(),
{
    if bounties.len() > 0 {
        newest_first_swapped(bounties.drop_last());
        assert(all_swapped(bounties).drop_last() =~= all_swapped(bounties.drop_last()));
        place_swapped(newest_first(bounties.drop_last()), bounties.last());
    } else {
        assert(all_swapped(bounties) =~= bounties);
    }
}

/// The bounties that are assigned to `name` are, swapped, those that `name` made.
proof fn selection_swapped(
    read: Seq<Option<Bounty>>,
    others: Seq<Option<Bounty>>,
    name: Seq<char>,
    cursor: Option<Timestamp>,
)
    requires
        name.len() > 0,
        read.len() == others.len(),
        forall|i: int|
            #![trigger read[i]]
            0 <= i < read.len() ==> match read[i] {
                None => others[i] is None,
                Some(bounty) => bounty.assignee is Some && others[i] == Some(swapped(bounty)),
            },
    ensures
        selected(readable(others), by_creator(name), cursor) == all_swapped(
            selected(readable(read), by_assignee(name), cursor),
        ),
    decreases read.len(),
{
    if read.len() == 0 {
        reveal(Seq::filter);
        assert(all_swapped(readable(read)) =~= readable(others));
    } else {
        let rest = read.drop_last();
        let others_rest = others.drop_last();
        assert forall|i: int|
            #![trigger rest[i]]
            0 <= i < rest.len() implies match rest[i] {
            None => others_rest[i] is None,
            Some(bounty) => bounty.assignee is Some && others_rest[i] == Some(swapped(bounty)),
        } by {
            assert(rest[i] == read[i]);
        }
        selection_swapped(rest, others_rest, name, cursor);
        assert(read[read.len() - 1] == read.last());
        if let Some(bounty) = read.last() {
            let chosen = selected(readable(rest), by_assignee(name), cursor);
            selected_push(readable(rest), bounty, by_assignee(name), cursor);
            selected_push(readable(others_rest), swapped(bounty), by_creator(name), cursor);
            assert(all_swapped(chosen.push(bounty)) =~= all_swapped(chosen).push(swapped(bounty)));
        }
    }
}

/// The listing by assignee is the counterpart of the listing by creator: it is,
/// with creator and assignee swapped, the listing by creator of the same name on
/// a store that holds the same bounties with the two swapped, so that it has the
/// same IDs in the same order and the same cursor. Each text reads in one way, no
/// two different bounties that are listed share an instant, and `keys` and
/// `other_keys` pair the records of the two stores.
pub proof fn assignee_listing_is_the_counterpart<D: Fn(&String) -> Option<Bounty>>(
    assigned: BountyPage,
    made: BountyPage,
    records: Map<String, String>,
    others: Map<String, String>,
    keys: Seq<String>,
    other_keys: Seq<String>,
    decode: D,
    value: spec_fn(String) -> Option<Bounty>,
    name: Seq<char>,
    limit: i64,
    cursor: Option<Timestamp>,
)
    requires
        lists(assigned, records, decode, by_assignee(name), limit, cursor),
        lists(made, others, decode, by_creator(name), limit, cursor),
        names_each_key(records, keys),
        names_each_key(others, other_keys),
        keys.len() == other_keys.len(),
        forall|i: int|
            #![trigger keys[i]]
            0 <= i < keys.len() ==> is_counterpart(records, others, value, keys[i], other_keys[i]),
        reads_one_way(decode, value),
        instants_tell_apart(records, value, by_assignee(name), cursor),
        name.len() > 0,
    ensures
        made.bounties@ == all_swapped(assigned.bounties@),
        made.next_cursor == assigned.next_cursor,
        made.bounties@.len() == assigned.bounties@.len(),
        forall|i: int|
            0 <= i < made.bounties@.len() ==> (#[trigger] made.bounties@[i]).id
                == assigned.bounties@[i].id,
{
    let (keys1, read1) = reading_of(assigned, records, decode, by_assignee(name), limit, cursor);
    let (keys2, read2) = reading_of(made, others, decode, by_creator(name), limit, cursor);
    let paired1 = values_under(records, value, keys);
    let paired2 = values_under(others, value, other_keys);
    assert forall|i: int|
        #![trigger paired1[i]]
        0 <= i < paired1.len() implies match paired1[i] {
        None => paired2[i] is None,
        Some(bounty) => bounty.assignee is Some && paired2[i] == Some(swapped(bounty)),
    } by {
        assert(is_counterpart(records, others, value, keys[i], other_keys[i]));
    }
    selection_swapped(paired1, paired2, name, cursor);
    let chosen1 = selected(readable(paired1), by_assignee(name), cursor);
    let chosen2 = selected(readable(paired2), by_creator(name), cursor);
    reading_holds_the_values(records, decode, value, by_assignee(name), cursor, keys1, read1, keys);
    reading_holds_the_values(others, decode, value, by_creator(name), cursor, keys2, read2, other_keys);
    selection_tells_apart(records, decode, value, by_assignee(name), cursor, keys1, read1);
    let found1 = selected(readable(read1), by_assignee(name), cursor);
    let found2 = selected(readable(read2), by_creator(name), cursor);
    order_of_arrival_is_immaterial(found1, chosen1);
    assert forall|i: int, j: int|
        #![trigger chosen2[i], chosen2[j]]
        0 <= i < chosen2.len() && 0 <= j < chosen2.len() && chosen2[i].created_at
            == chosen2[j].created_at implies chosen2[i] == chosen2[j] by {
        let n = place_in(found1, chosen1, i);
        let m = place_in(found1, chosen1, j);
        assert(found1[n] == found1[m]);
    }
    order_of_arrival_is_immaterial(chosen2, found2);
    newest_first_swapped(chosen1);
    let sorted1 = newest_first(chosen1);
    let sorted2 = newest_first(chosen2);
    assert(page_entries(sorted2, limit) =~= all_swapped(page_entries(sorted1, limit)));
    assert(page_cursor(sorted2, limit) == page_cursor(sorted1, limit));
}

} // verus!
