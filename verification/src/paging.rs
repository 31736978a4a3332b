//! Pages of bounties: newest first, cut to a limit, continued by a cursor.
use std::cmp::Ordering;

use vstd::prelude::*;

use crate::db::{Bounty, BountyPage};
use crate::timestamp::Timestamp;

verus! {

/// `cursor` lets `bounty` in: without a cursor every bounty, else those that
/// were created before it.
pub open spec fn admits(cursor: Option<Timestamp>, bounty: Bounty) -> bool {
    match cursor {
        None => true,
        Some(at) => bounty.created_at.before(at),
    }
}

/// The bounties that `keep` and `cursor` both let in, in the order of `bounties`.
pub open spec fn selected(
    bounties: Seq<Bounty>,
    keep: spec_fn(Bounty) -> bool,
    cursor: Option<Timestamp>,
) -> Seq<Bounty> {
    bounties.filter(|bounty: Bounty| keep(bounty) && admits(cursor, bounty))
}

/// No bounty stands behind an older one.
pub open spec fn is_newest_first(bounties: Seq<Bounty>) -> bool {
    forall|i: int, j: int|
        #![trigger bounties[i], bounties[j]]
        0 <= i < j < bounties.len() ==> !bounties[i].created_at.before(bounties[j].created_at)
}

/// The bounties that were created at `at`, in the order of `bounties`.
pub open spec fn created_at(bounties: Seq<Bounty>, at: Timestamp) -> Seq<Bounty> {
    bounties.filter(|bounty: Bounty| bounty.created_at == at)
}

/// `sorted` holds the bounties of `bounties`, newest first, those of one
/// instant in the order in which `bounties` has them.
pub open spec fn arranges(sorted: Seq<Bounty>, bounties: Seq<Bounty>) -> bool {
    &&& is_newest_first(sorted)
    &&& sorted.to_multiset() == bounties.to_multiset()
    &&& forall|at: Timestamp| #[trigger] created_at(sorted, at) == created_at(bounties, at)
}

/// `sorted` with `bounty` put in behind every bounty that is not older.
pub open spec fn place(sorted: Seq<Bounty>, bounty: Bounty) -> Seq<Bounty>
    decreases sorted.len(),
{
    if sorted.len() > 0 && sorted.last().created_at.before(bounty.created_at) {
        place(sorted.drop_last(), bounty).push(sorted.last())
    } else {
        sorted.push(bounty)
    }
}

/// `bounties` arranged newest first; bounties of one instant keep their order.
pub open spec fn newest_first(bounties: Seq<Bounty>) -> Seq<Bounty>
    decreases bounties.len(),
{
    if bounties.len() == 0 {
        bounties
    } else {
        place(newest_first(bounties.drop_last()), bounties.last())
    }
}

/// `sorted` has more bounties than a page of `limit` holds. A negative limit
/// sets no bound.
pub open spec fn overflows(sorted: Seq<Bounty>, limit: i64) -> bool {
    0 <= limit < sorted.len()
}

/// The bounties on the first page of `sorted`.
pub open spec fn page_entries(sorted: Seq<Bounty>, limit: i64) -> Seq<Bounty> {
    if overflows(sorted, limit) {
        sorted.take(limit as int)
    } else {
        sorted
    }
}

/// The cursor that continues behind the first page of `sorted`: the instant of
/// the page's last bounty, where the page left any out and holds any.
pub open spec fn page_cursor(sorted: Seq<Bounty>, limit: i64) -> Option<Timestamp> {
    if overflows(sorted, limit) && limit > 0 {
        Some(sorted[limit - 1].created_at)
    } else {
        None
    }
}

/// `page` is the first page of `candidates`.
pub open spec fn is_page(page: BountyPage, candidates: Seq<Bounty>, limit: i64) -> bool {
    &&& page.bounties@ == page_entries(newest_first(candidates), limit)
    &&& page.next_cursor == page_cursor(newest_first(candidates), limit)
}

/// How `first` and `second` stand to each other on a page: the newer one comes
/// first.
pub(crate) fn page_order(first: &Bounty, second: &Bounty) -> (order: Ordering)
    ensures
        order == (if second.created_at.before(first.created_at) {
            Ordering::Less
        } else if first.created_at.before(second.created_at) {
            Ordering::Greater
        } else {
            Ordering::Equal
        }),
{
    if second.created_at < first.created_at {
        Ordering::Less
    } else if first.created_at < second.created_at {
        Ordering::Greater
    } else {
        Ordering::Equal
    }
}

/// std's `slice::sort_by` with [`page_order`], a total order on instants. The
/// contract claims what std documents of it: the same items come out, in the
/// order of the comparison, and equal ones keep their order.
#[verifier::external_body]
fn sort_by_page_order(bounties: &mut Vec<Bounty>)
    ensures
        arranges(final(bounties)@, old(bounties)@),
{
    bounties.sort_by(|first, second| page_order(first, second))
}

/// The first page of `bounties`: at most `limit` of them (a negative limit sets
/// no bound), newest first, and the cursor that the next page starts from where
/// any were left out.
pub fn first_page(bounties: Vec<Bounty>, limit: i64) -> (page: BountyPage)
    ensures
        is_page(page, bounties@, limit),
{
    let mut entries = bounties;
    sort_by_page_order(&mut entries);
    proof {
        newest_first_arranges(bounties@);
        arrangement_is_unique(entries@, newest_first(bounties@), bounties@);
    }
    let next_cursor = if limit >= 0 && entries.len() as u64 > limit as u64 {
        entries.truncate(limit as usize);
        match entries.last() {
            Some(bounty) => Some(bounty.created_at),
            None => None,
        }
    } else {
        None
    };
    BountyPage { bounties: entries, next_cursor }
}

/// Placing a bounty adds it, keeps the order by age, and puts it behind the
/// bounties of its own instant.
proof fn place_keeps_order(sorted: Seq<Bounty>, bounty: Bounty)
    requires
        is_newest_first(sorted),
    ensures
        is_newest_first(place(sorted, bounty)),
        place(sorted, bounty).to_multiset() == sorted.to_multiset().insert(bounty),
        place(sorted, bounty).len() == sorted.len() + 1,
        forall|at: Timestamp| #[trigger]
            created_at(place(sorted, bounty), at) == created_at(sorted.push(bounty), at),
        forall|i: int|
            0 <= i < place(sorted, bounty).len() ==> #[trigger] place(sorted, bounty)[i] == bounty
                || sorted.contains(place(sorted, bounty)[i]),
    decreases sorted.len(),
{
    broadcast use vstd::seq_lib::group_to_multiset_ensures;

    if sorted.len() > 0 && sorted.last().created_at.before(bounty.created_at) {
        let rest = sorted.drop_last();
        let last = sorted.last();
        place_keeps_order(rest, bounty);
        let placed = place(rest, bounty);
        assert(sorted == rest.push(last));
        assert(placed.push(last).to_multiset() == placed.to_multiset().insert(last));
        assert(sorted.to_multiset() == rest.to_multiset().insert(last));
        assert(place(sorted, bounty).to_multiset() =~= sorted.to_multiset().insert(bounty));
        assert forall|at: Timestamp| #[trigger]
            created_at(place(sorted, bounty), at) == created_at(sorted.push(bounty), at) by {
            assert(created_at(placed, at) == created_at(rest.push(bounty), at));
            created_at_push(placed, last, at);
            created_at_push(rest, bounty, at);
            created_at_push(rest, last, at);
            created_at_push(sorted, bounty, at);
        }
        assert forall|i: int| 0 <= i < place(sorted, bounty).len() implies #[trigger] place(
            sorted,
            bounty,
        )[i] == bounty || sorted.contains(place(sorted, bounty)[i]) by {
            if i < placed.len() {
                assert(place(sorted, bounty)[i] == placed[i]);
                if placed[i] != bounty {
                    let k = choose|k: int| 0 <= k < rest.len() && rest[k] == placed[i];
                    assert(sorted[k] == placed[i]);
                }
            } else {
                assert(sorted[sorted.len() - 1] == last);
            }
        }
        assert forall|i: int, j: int|
            #![trigger place(sorted, bounty)[i], place(sorted, bounty)[j]]
            0 <= i < j < place(sorted, bounty).len() implies !place(
            sorted,
            bounty,
        )[i].created_at.before(place(sorted, bounty)[j].created_at) by {
            if j == placed.len() {
                assert(place(sorted, bounty)[i] == placed[i]);
                if placed[i] != bounty {
                    let k = choose|k: int| 0 <= k < rest.len() && rest[k] == placed[i];
                    assert(sorted[k] == placed[i]);
                    assert(!sorted[k].created_at.before(sorted[sorted.len() - 1].created_at));
                }
            } else {
                assert(!placed[i].created_at.before(placed[j].created_at));
            }
        }
    } else {
        assert forall|i: int, j: int|
            #![trigger place(sorted, bounty)[i], place(sorted, bounty)[j]]
            0 <= i < j < place(sorted, bounty).len() implies !place(
            sorted,
            bounty,
        )[i].created_at.before(place(sorted, bounty)[j].created_at) by {
            if j == sorted.len() {
                if i < sorted.len() - 1 {
                    assert(!sorted[i].created_at.before(sorted[sorted.len() - 1].created_at));
                }
            } else {
                assert(!sorted[i].created_at.before(sorted[j].created_at));
            }
        }
    }
}

/// What a bounty at the end adds to the bounties of one instant.
proof fn created_at_push(bounties: Seq<Bounty>, bounty: Bounty, at: Timestamp)
    ensures
        created_at(bounties.push(bounty), at) == (if bounty.created_at == at {
            created_at(bounties, at).push(bounty)
        } else {
            created_at(bounties, at)
        }),
{
    reveal(Seq::filter);
    assert(bounties.push(bounty).drop_last() == bounties);
}

/// What a bounty at the end adds to a selection.
pub(crate) proof fn selected_push(
    bounties: Seq<Bounty>,
    bounty: Bounty,
    keep: spec_fn(Bounty) -> bool,
    cursor: Option<Timestamp>,
)
    ensures
        selected(bounties.push(bounty), keep, cursor) == (if keep(bounty) && admits(cursor, bounty) {
            selected(bounties, keep, cursor).push(bounty)
        } else {
            selected(bounties, keep, cursor)
        }),
{
    reveal(Seq::filter);
    assert(bounties.push(bounty).drop_last() == bounties);
}

/// `newest_first` holds the same bounties, newest first, and those of one
/// instant in the order in which they came.
pub proof fn newest_first_arranges(bounties: Seq<Bounty>)
    ensures
        arranges(newest_first(bounties), bounties),
        newest_first(bounties).len() == bounties.len(),
    decreases bounties.len(),
{
    broadcast use vstd::seq_lib::group_to_multiset_ensures;

    if bounties.len() > 0 {
        let rest = bounties.drop_last();
        let last = bounties.last();
        newest_first_arranges(rest);
        place_keeps_order(newest_first(rest), last);
        assert(bounties == rest.push(last));
        assert forall|at: Timestamp| #[trigger]
            created_at(newest_first(bounties), at) == created_at(bounties, at) by {
            assert(created_at(newest_first(rest).push(last), at) == created_at(newest_first(bounties), at));
            assert(created_at(newest_first(rest), at) == created_at(rest, at));
            created_at_push(newest_first(rest), last, at);
            created_at_push(rest, last, at);
        }
    }
}

/// Only one sequence arranges given bounties, so a listing's order is fixed.
pub proof fn arrangement_is_unique(first: Seq<Bounty>, second: Seq<Bounty>, bounties: Seq<Bounty>)
    requires
        arranges(first, bounties),
        arranges(second, bounties),
    ensures
        first == second,
{
    assert forall|at: Timestamp| #[trigger] created_at(first, at) == created_at(second, at) by {
        assert(created_at(first, at) == created_at(bounties, at));
        assert(created_at(second, at) == created_at(bounties, at));
    }
    same_instants_same_order(first, second);
}

/// Two newest-first sequences with the same bounties at each instant are one.
proof fn same_instants_same_order(first: Seq<Bounty>, second: Seq<Bounty>)
    requires
        is_newest_first(first),
        is_newest_first(second),
        forall|at: Timestamp| #[trigger] created_at(first, at) == created_at(second, at),
    ensures
        first == second,
    decreases first.len(),
{
    if first.len() == 0 {
        if second.len() > 0 {
            last_is_last_of_its_instant(second);
            reveal(Seq::filter);
            assert(created_at(first, second.last().created_at).len() == 0);
        }
    } else {
        let a = first.last().created_at;
        last_is_last_of_its_instant(first);
        assert(created_at(second, a).len() > 0);
        if second.len() == 0 {
            reveal(Seq::filter);
            assert(created_at(second, a).len() == 0);
        } else {
            let b = second.last().created_at;
            last_is_last_of_its_instant(second);
            assert(created_at(first, b).len() > 0);
            instant_is_not_before_last(first, b);
            instant_is_not_before_last(second, a);
            assert(a == b);
            assert(first.last() == second.last());
            let last = first.last();
            let first_rest = first.drop_last();
            let second_rest = second.drop_last();
            assert(first == first_rest.push(last));
            assert(second == second_rest.push(last));
            assert forall|at: Timestamp| #[trigger]
                created_at(first_rest, at) == created_at(second_rest, at) by {
                created_at_push(first_rest, last, at);
                created_at_push(second_rest, last, at);
                assert(created_at(first, at) == created_at(second, at));
                if last.created_at == at {
                    assert(created_at(first_rest, at) == created_at(first, at).drop_last());
                    assert(created_at(second_rest, at) == created_at(second, at).drop_last());
                }
            }
            same_instants_same_order(first_rest, second_rest);
        }
    }
}

/// The last bounty ends the bounties of its instant.
proof fn last_is_last_of_its_instant(bounties: Seq<Bounty>)
    requires
        bounties.len() > 0,
    ensures
        created_at(bounties, bounties.last().created_at).len() > 0,
        created_at(bounties, bounties.last().created_at).last() == bounties.last(),
{
    assert(bounties == bounties.drop_last().push(bounties.last()));
    created_at_push(bounties.drop_last(), bounties.last(), bounties.last().created_at);
}

/// An instant at which newest-first bounties hold any does not come before that
/// of the last one.
proof fn instant_is_not_before_last(bounties: Seq<Bounty>, at: Timestamp)
    requires
        is_newest_first(bounties),
        bounties.len() > 0,
        created_at(bounties, at).len() > 0,
    ensures
        !at.before(bounties.last().created_at),
{
    let pred = |bounty: Bounty| bounty.created_at == at;
    let found = bounties.filter(pred)[0];
    bounties.lemma_filter_pred(pred, 0);
    assert(bounties.filter(pred).contains(found));
    bounties.lemma_filter_contains_rev(pred, found);
    let k = choose|k: int| 0 <= k < bounties.len() && bounties[k] == found;
    if k < bounties.len() - 1 {
        assert(!bounties[k].created_at.before(bounties[bounties.len() - 1].created_at));
    }
}

} // verus!
