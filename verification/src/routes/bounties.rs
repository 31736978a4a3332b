//! What the bounty endpoints under `/api/v1/bounties` answer.
//!
//! - `GET /api/v1/bounties`: [`list_bounties`]
//! - `GET /api/v1/bounties/assignee/{address}`: [`list_bounties_by_assignee`]
//! - `GET /api/v1/bounties/stream`: [`bounty_event`], for each message of the channel
//! - `POST /api/v1/bounties/{id}/claim`: [`claim_bounty`]
use std::sync::RwLockReadGuard;

use vstd::prelude::*;
use vstd::string::*;

use crate::claims::{claims_shared, holds_claim, store_claim};
use crate::db;
use crate::db::{
    by_assignee, by_creator, lists_shared, Bounty, BountyPage, DbStore, SharedDb, StoreError,
};
use crate::listing_facts::{listing_by_assignee_in_full, shared_listing_in_full};
use crate::listing_laws::listing_keeps_to_its_limit;
use crate::lock::{read_guard_lock, read_guard_store};
use crate::timestamp::Timestamp;

verus! {

/// How many bounties a page holds where the request does not say.
pub const DEFAULT_LIMIT: i64 = 20;

/// The most bounties that a request can ask for.
pub const MAX_LIMIT: i64 = 100;

/// The query of a listing.
#[derive(Debug)]
pub struct ListParams {
    pub limit: Option<i64>,
    pub cursor: Option<Timestamp>,
}

/// Why a listing was not served.
#[derive(Debug)]
pub enum ListError {
    /// The path names no address.
    EmptyAddress,
    /// The database could not be read.
    Database(StoreError),
}

/// What a client is told of an error: the HTTP status and the text under
/// `"error"` in the JSON body.
#[derive(Debug)]
pub struct ErrorReply {
    pub status: u16,
    pub error: String,
}

/// What a stored claim sets off: the message to the subscribers of the stream, and the
/// answer to the client.
#[derive(Debug)]
pub struct Claim {
    pub notice: String,
    pub reply: ClaimReply,
}

/// The answer to a claim, field by field of the JSON body.
#[derive(Debug)]
pub struct ClaimReply {
    pub id: String,
    pub status: String,
}

/// A server-sent event.
#[derive(Debug)]
pub struct BountyEvent {
    pub name: String,
    pub data: String,
}

/// The limit that a request for `requested` bounties is served with.
pub open spec fn served_limit(requested: Option<i64>) -> i64 {
    match requested {
        None => DEFAULT_LIMIT,
        Some(limit) => if limit < MAX_LIMIT {
            limit
        } else {
            MAX_LIMIT
        },
    }
}

/// The limit that a request for `requested` bounties is served with: the default
/// where it does not say, and never more than the most.
pub fn page_limit(requested: Option<i64>) -> (limit: i64)
    ensures
        limit == served_limit(requested),
        requested is None ==> limit == 20,
        requested matches Some(n) ==> limit <= 100 && limit <= n && (limit == 100 || limit == n),
{
    match requested {
        None => DEFAULT_LIMIT,
        Some(limit) => if limit < MAX_LIMIT {
            limit
        } else {
            MAX_LIMIT
        },
    }
}

impl ListError {
    /// The HTTP status that the error is answered with.
    pub open spec fn status(self) -> u16 {
        match self {
            ListError::EmptyAddress => 400,
            ListError::Database(_) => 500,
        }
    }

    /// The text that the error is answered with.
    pub open spec fn text(self) -> Seq<char> {
        match self {
            ListError::EmptyAddress => "address path parameter must not be empty"@,
            ListError::Database(_) => "internal server error"@,
        }
    }

    /// What the client is told. A database error is answered with a general text:
    /// its detail is for the log alone.
    pub fn reply(&self) -> (reply: ErrorReply)
        ensures
            reply.status == self.status(),
            reply.error@ == self.text(),
            *self is EmptyAddress ==> reply.status == 400 && reply.error@
                == "address path parameter must not be empty"@,
            *self is Database ==> reply.status == 500 && reply.error@ == "internal server error"@,
    {
        match self {
            ListError::EmptyAddress => ErrorReply {
                status: 400,
                error: "address path parameter must not be empty".to_owned(),
            },
            ListError::Database(_) => ErrorReply {
                status: 500,
                error: "internal server error".to_owned(),
            },
        }
    }
}

/// The answer to a listing that the database gave `outcome` for.
pub fn answer(outcome: Result<BountyPage, StoreError>) -> (served: Result<BountyPage, ListError>)
    ensures
        served == match outcome {
            Ok(page) => Ok::<BountyPage, ListError>(page),
            Err(error) => Err(ListError::Database(error)),
        },
{
    match outcome {
        Ok(page) => Ok(page),
        Err(error) => Err(ListError::Database(error)),
    }
}

/// `GET /api/v1/bounties`: a page of all bounties. `decode` reads a record.
pub fn list_bounties<D: Fn(&String) -> Option<Bounty>>(
    db: &SharedDb,
    params: ListParams,
    decode: D,
) -> (served: Result<BountyPage, ListError>)
    requires
        forall|raw: String| #[trigger] decode.requires((&raw,)),
    ensures
        served matches Ok(page) && lists_shared(
            page,
            *db,
            decode,
            |bounty: Bounty| true,
            served_limit(params.limit),
            params.cursor,
        ),
{
    proof {
        reveal_strlit("");
        assert(by_creator(""@) =~= (|bounty: Bounty| true));
    }
    answer(
        db::list_bounties_by_creator(db, "", page_limit(params.limit), params.cursor, decode),
    )
}

/// `GET /api/v1/bounties/assignee/{address}`: a page of the bounties that are
/// assigned to `address`. `decode` reads a record.
pub fn list_bounties_by_assignee<D: Fn(&String) -> Option<Bounty>>(
    db: &SharedDb,
    address: &str,
    params: ListParams,
    decode: D,
) -> (served: Result<BountyPage, ListError>)
    requires
        forall|raw: String| #[trigger] decode.requires((&raw,)),
    ensures
        match served {
            Ok(page) => address@.len() > 0 && lists_shared(
                page,
                *db,
                decode,
                by_assignee(address@),
                served_limit(params.limit),
                params.cursor,
            ),
            Err(error) => address@.len() == 0 && error == ListError::EmptyAddress,
        },
{
    if address.is_empty() {
        return Err(ListError::EmptyAddress);
    }
    answer(
        db::list_bounties_by_assignee(
            db,
            address,
            page_limit(params.limit),
            params.cursor,
            decode,
        ),
    )
}

/// The data of the event that names the bounty `id`: `{"bountyId": "<id>"}`.
pub open spec fn event_data(id: Seq<char>) -> Seq<char> {
    "{\"bountyId\": \""@ + id + "\"}"@
}

/// `event` is what a message of the channel becomes.
pub open spec fn is_event_of(event: Option<BountyEvent>, received: Result<String, u64>) -> bool {
    match received {
        Ok(id) => event matches Some(shown) && shown.name@ == "bounty_updated"@ && shown.data@
            == event_data(id@),
        Err(_) => event is None,
    }
}

/// The event that a message of the channel becomes: the bounty's ID under the
/// name `bounty_updated`, and nothing for messages that the subscriber lost by
/// lagging behind (`Err` holds how many).
pub fn bounty_event(received: Result<String, u64>) -> (event: Option<BountyEvent>)
    ensures
        is_event_of(event, received),
        received is Err ==> event is None,
        received matches Ok(id) ==> {
            &&& event is Some
            &&& event->Some_0.name@ == "bounty_updated"@
            &&& event->Some_0.data@ == "{\"bountyId\": \""@ + id@ + "\"}"@
        },
{
    match received {
        Ok(id) => {
            let mut data = "{\"bountyId\": \"".to_owned();
            data.append(id.as_str());
            data.append("\"}");
            Some(BountyEvent { name: "bounty_updated".to_owned(), data })
        },
        Err(_) => None,
    }
}

/// `claim` is what the claim of the bounty `id` sets off.
pub open spec fn is_claim_of(claim: Claim, id: Seq<char>) -> bool {
    &&& claim.notice@ == id
    &&& claim.reply.id@ == id
    &&& claim.reply.status@ == "claimed"@
}

/// Who claims: `caller`, but nobody where that is empty.
pub fn claimant(caller: &str) -> (named: Option<&str>)
    ensures
        named is Some <==> caller@.len() > 0,
        named matches Some(name) ==> name@ == caller@,
{
    if caller.is_empty() {
        None
    } else {
        Some(caller)
    }
}

/// `POST /api/v1/bounties/{id}/claim`: marks the bounty as claimed by `caller`, in
/// every record of it and whoever had claimed it before. Once that is stored,
/// gives what tells the subscribers of the stream which bounty changed, and the
/// client that it is claimed. `decode` reads a record, `rewrite` makes a record
/// hold another bounty.
///
/// An empty `caller` stands for a request that does not say who claims
/// ([`claimant`]): there is nobody to store then, and the rest is the same.
pub fn claim_bounty<D: Fn(&String) -> Option<Bounty>, E: Fn(&String, &Bounty) -> String>(
    db: &SharedDb,
    id: String,
    caller: &str,
    decode: D,
    rewrite: E,
) -> (claim: Claim)
    requires
        forall|raw: String| #[trigger] decode.requires((&raw,)),
        forall|raw: String, bounty: Bounty| #[trigger] rewrite.requires((&raw, &bounty)),
    ensures
        is_claim_of(claim, id@),
        claim.notice@ == id@,
        claim.reply.id@ == id@,
        claim.reply.status@ == "claimed"@,
        caller@.len() > 0 ==> claims_shared(*db, decode, rewrite, id@, caller@),
{
    if let Some(name) = claimant(caller) {
        let guard = store_claim(db, id.as_str(), name, decode, rewrite);
        assert(holds_claim(guard, *db, decode, rewrite, id@, caller@));
    }
    Claim { notice: id.clone(), reply: ClaimReply { id, status: "claimed".to_owned() } }
}

/// No request is served with more than the most, and one that does not say gets
/// the default.
pub proof fn limit_is_capped(requested: Option<i64>)
    ensures
        served_limit(requested) <= MAX_LIMIT,
        DEFAULT_LIMIT == 20,
        MAX_LIMIT == 100,
        requested is None ==> served_limit(requested) == DEFAULT_LIMIT,
        requested matches Some(limit) && limit <= MAX_LIMIT ==> served_limit(requested)
            == requested->Some_0,
{
}

/// A page that is served holds at most the most, where the request does not ask
/// for a negative number.
pub proof fn served_page_is_bounded<D: Fn(&String) -> Option<Bounty>>(
    page: BountyPage,
    db: SharedDb,
    decode: D,
    keep: spec_fn(Bounty) -> bool,
    params: ListParams,
)
    requires
        lists_shared(page, db, decode, keep, served_limit(params.limit), params.cursor),
        params.limit matches Some(limit) ==> limit >= 0,
    ensures
        page.bounties@.len() <= MAX_LIMIT,
        page.bounties@.len() <= 100,
        params.limit is None ==> page.bounties@.len() <= 20,
        params.limit matches Some(limit) ==> page.bounties@.len() <= limit,
{
    listing_keeps_to_its_limit(
        page,
        db,
        decode,
        keep,
        served_limit(params.limit),
        params.cursor,
    );
}

/// What `GET /api/v1/bounties` shows of the shared store: any bounty, later ones
/// first, as many as the request asks for, but no more than 100, and 20 where it
/// does not say. Each reads from a record of its own and was created before the
/// cursor of the request. A record that is not shown cannot be read, was not
/// created before that cursor, or is no later than anything on a full page.
pub proof fn all_bounties_are_served_in_full<D: Fn(&String) -> Option<Bounty>>(
    page: BountyPage,
    db: SharedDb,
    decode: D,
    params: ListParams,
    limit: int,
) -> (found: (Map<String, String>, Seq<String>))
    requires
        lists_shared(
            page,
            db,
            decode,
            |bounty: Bounty| true,
            served_limit(params.limit),
            params.cursor,
        ),
        limit == match params.limit {
            None => 20,
            Some(n) => if n < 100 {
                n as int
            } else {
                100
            },
        },
    ensures
        exists|guard: RwLockReadGuard<'_, DbStore>|
            #![trigger read_guard_store(guard)]
            read_guard_lock(guard) == *db && read_guard_store(guard).records@ == found.0,
        found.1.len() == page.bounties@.len(),
        found.1.no_duplicates(),
        forall|i: int|
            0 <= i < page.bounties@.len() ==> {
                let shown = #[trigger] page.bounties@[i];
                &&& found.0.contains_key(found.1[i])
                &&& call_ensures(decode, (&found.0[found.1[i]],), Some(shown))
                &&& params.cursor matches Some(at) ==> shown.created_at.seconds * 10_000_000_000
                    + shown.created_at.nanos < at.seconds * 10_000_000_000 + at.nanos
            },
        forall|i: int, j: int|
            #![trigger page.bounties@[i], page.bounties@[j]]
            0 <= i < j < page.bounties@.len() ==> page.bounties@[i].created_at.seconds
                * 10_000_000_000 + page.bounties@[i].created_at.nanos
                >= page.bounties@[j].created_at.seconds * 10_000_000_000
                + page.bounties@[j].created_at.nanos,
        limit >= 0 ==> page.bounties@.len() <= limit,
        forall|key: String| #[trigger]
            found.0.contains_key(key) && !found.1.contains(key) ==> exists|out: Option<Bounty>|
                #[trigger]
                call_ensures(decode, (&found.0[key],), out) && (out matches Some(other) ==> {
                    ||| params.cursor matches Some(at) && other.created_at.seconds * 10_000_000_000
                        + other.created_at.nanos >= at.seconds * 10_000_000_000 + at.nanos
                    ||| {
                        &&& page.bounties@.len() == limit
                        &&& limit > 0 ==> page.next_cursor is Some
                        &&& forall|i: int|
                            0 <= i < page.bounties@.len() ==> (
                            #[trigger] page.bounties@[i]).created_at.seconds * 10_000_000_000
                                + page.bounties@[i].created_at.nanos >= other.created_at.seconds
                                * 10_000_000_000 + other.created_at.nanos
                    }
                }),
        page.next_cursor matches Some(next) ==> {
            &&& limit > 0
            &&& page.bounties@.len() == limit
            &&& next == page.bounties@[page.bounties@.len() - 1].created_at
            &&& exists|key: String, other: Bounty| #[trigger]
                call_ensures(decode, (&found.0[key],), Some(other)) && {
                    &&& found.0.contains_key(key)
                    &&& !found.1.contains(key)
                    &&& params.cursor matches Some(at) ==> other.created_at.seconds * 10_000_000_000
                        + other.created_at.nanos < at.seconds * 10_000_000_000 + at.nanos
                }
        },
{
    shared_listing_in_full(
        page,
        db,
        decode,
        |bounty: Bounty| true,
        served_limit(params.limit),
        params.cursor,
    )
}

/// What `GET /api/v1/bounties/assignee/{address}` shows of the shared store: the
/// bounties whose assignee is `address`, to the letter, later ones first, as many
/// as the request asks for, but no more than 100, and 20 where it does not say.
/// Each reads from a record of its own and was created before the cursor of the
/// request. A record that is not shown cannot be read, is not assigned to
/// `address`, was not created before that cursor, or is no later than anything on
/// a full page.
pub proof fn assigned_bounties_are_served_in_full<D: Fn(&String) -> Option<Bounty>>(
    page: BountyPage,
    db: SharedDb,
    decode: D,
    address: Seq<char>,
    params: ListParams,
    limit: int,
) -> (found: (Map<String, String>, Seq<String>))
    requires
        lists_shared(
            page,
            db,
            decode,
            by_assignee(address),
            served_limit(params.limit),
            params.cursor,
        ),
        limit == match params.limit {
            None => 20,
            Some(n) => if n < 100 {
                n as int
            } else {
                100
            },
        },
    ensures
        exists|guard: RwLockReadGuard<'_, DbStore>|
            #![trigger read_guard_store(guard)]
            read_guard_lock(guard) == *db && read_guard_store(guard).records@ == found.0,
        found.1.len() == page.bounties@.len(),
        found.1.no_duplicates(),
        forall|i: int|
            0 <= i < page.bounties@.len() ==> {
                let shown = #[trigger] page.bounties@[i];
                &&& found.0.contains_key(found.1[i])
                &&& call_ensures(decode, (&found.0[found.1[i]],), Some(shown))
                &&& (shown.assignee is Some && shown.assignee->Some_0@ == address)
                &&& params.cursor matches Some(at) ==> shown.created_at.seconds * 10_000_000_000
                    + shown.created_at.nanos < at.seconds * 10_000_000_000 + at.nanos
            },
        forall|i: int, j: int|
            #![trigger page.bounties@[i], page.bounties@[j]]
            0 <= i < j < page.bounties@.len() ==> page.bounties@[i].created_at.seconds
                * 10_000_000_000 + page.bounties@[i].created_at.nanos
                >= page.bounties@[j].created_at.seconds * 10_000_000_000
                + page.bounties@[j].created_at.nanos,
        limit >= 0 ==> page.bounties@.len() <= limit,
        forall|key: String| #[trigger]
            found.0.contains_key(key) && !found.1.contains(key) ==> exists|out: Option<Bounty>|
                #[trigger]
                call_ensures(decode, (&found.0[key],), out) && (out matches Some(other) ==> {
                    ||| !((other.assignee is Some && other.assignee->Some_0@ == address))
                    ||| params.cursor matches Some(at) && other.created_at.seconds * 10_000_000_000
                        + other.created_at.nanos >= at.seconds * 10_000_000_000 + at.nanos
                    ||| {
                        &&& page.bounties@.len() == limit
                        &&& limit > 0 ==> page.next_cursor is Some
                        &&& forall|i: int|
                            0 <= i < page.bounties@.len() ==> (
                            #[trigger] page.bounties@[i]).created_at.seconds * 10_000_000_000
                                + page.bounties@[i].created_at.nanos >= other.created_at.seconds
                                * 10_000_000_000 + other.created_at.nanos
                    }
                }),
        page.next_cursor matches Some(next) ==> {
            &&& limit > 0
            &&& page.bounties@.len() == limit
            &&& next == page.bounties@[page.bounties@.len() - 1].created_at
            &&& exists|key: String, other: Bounty| #[trigger]
                call_ensures(decode, (&found.0[key],), Some(other)) && {
                    &&& found.0.contains_key(key)
                    &&& !found.1.contains(key)
                    &&& (other.assignee is Some && other.assignee->Some_0@ == address)
                    &&& params.cursor matches Some(at) ==> other.created_at.seconds * 10_000_000_000
                        + other.created_at.nanos < at.seconds * 10_000_000_000 + at.nanos
                }
        },
{
    listing_by_assignee_in_full(
        page,
        db,
        decode,
        address,
        served_limit(params.limit),
        params.cursor,
    )
}

/// An error is answered by its kind: a path without an address as a bad request
/// that says so, a database error as a server error that says no more.
pub proof fn errors_are_answered_by_kind(error: ListError)
    ensures
        error is EmptyAddress ==> error.status() == 400 && error.text()
            == "address path parameter must not be empty"@,
        error is Database ==> error.status() == 500 && error.text() == "internal server error"@,
{
}

/// A client learns nothing of what went wrong in the database: every database
/// error is answered alike.
pub proof fn database_detail_stays_inside(first: StoreError, second: StoreError)
    ensures
        ListError::Database(first).status() == ListError::Database(second).status(),
        ListError::Database(first).text() == ListError::Database(second).text(),
{
}

/// A claim is answered with the bounty's ID and the status "claimed", and told to
/// the subscribers by the ID alone, whatever the ID.
pub proof fn claim_is_answered(claim: Claim, id: Seq<char>)
    requires
        is_claim_of(claim, id),
    ensures
        claim.notice@ == id,
        claim.reply.id@ == id,
        claim.reply.status@ == "claimed"@,
        claim.reply.status@ == seq!['c', 'l', 'a', 'i', 'm', 'e', 'd'],
{
    reveal_strlit("claimed");
    assert("claimed"@ =~= seq!['c', 'l', 'a', 'i', 'm', 'e', 'd']);
}

/// The event of a message is named `bounty_updated`, and its data is the bounty's
/// ID, as it is, between fourteen characters that name it and two that close it.
/// Lost messages have no event.
pub proof fn event_carries_the_id(event: Option<BountyEvent>, received: Result<String, u64>)
    requires
        is_event_of(event, received),
    ensures
        event is Some <==> received is Ok,
        received matches Ok(id) ==> {
            let data = event->Some_0.data@;
            &&& event->Some_0.name@ == "bounty_updated"@
            &&& data.len() == 14 + id@.len() + 2
            &&& data.subrange(0, 14) == "{\"bountyId\": \""@
            &&& data.subrange(14, 14 + id@.len() as int) == id@
            &&& data.subrange(14 + id@.len() as int, 14 + id@.len() as int + 2) == "\"}"@
        },
{
    if let Ok(id) = received {
        let data = event->Some_0.data@;
        reveal_strlit("{\"bountyId\": \"");
        reveal_strlit("\"}");
        assert(data.subrange(0, 14) =~= "{\"bountyId\": \""@);
        assert(data.subrange(14, 14 + id@.len() as int) =~= id@);
        assert(data.subrange(14 + id@.len() as int, 14 + id@.len() as int + 2) =~= "\"}"@);
    }
}

/// A subscriber of the stream is shown the bounty that was claimed, and no other.
pub proof fn claim_is_shown_on_the_stream(id: Seq<char>, claim: Claim, event: Option<BountyEvent>)
    requires
        is_claim_of(claim, id),
        is_event_of(event, Ok(claim.notice)),
    ensures
        event is Some,
        event->Some_0.data@ == event_data(id),
        forall|other: Seq<char>| event->Some_0.data@ == #[trigger] event_data(other) ==> other == id,
{
    assert forall|other: Seq<char>| event->Some_0.data@ == #[trigger] event_data(
        other,
    ) implies other == id by {
        event_data_names_one_bounty(other, id);
    }
}

/// An event's data names one bounty: different IDs give different data.
pub proof fn event_data_names_one_bounty(first: Seq<char>, second: Seq<char>)
    requires
        event_data(first) == event_data(second),
    ensures
        first == second,
{
    let opening = "{\"bountyId\": \""@;
    let closing = "\"}"@;
    let data = event_data(first);
    assert(first =~= data.subrange(opening.len() as int, data.len() - closing.len()));
    assert(second =~= data.subrange(opening.len() as int, data.len() - closing.len()));
}

} // verus!
