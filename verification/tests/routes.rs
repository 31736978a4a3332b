//! What the endpoints answer.
use mergemint_backend::db::{
    acquire_db, new_shared_db, read_db, Bounty, BountyPage, SharedDb, StoreError,
};
use mergemint_backend::routes::bounties::{
    answer, bounty_event, claim_bounty, claimant, list_bounties, list_bounties_by_assignee,
    page_limit, ListError, ListParams,
};
use mergemint_backend::timestamp::Timestamp;

/// Reads "creator seconds", assigned to "worker".
fn read_record(raw: &String) -> Option<Bounty> {
    let (creator, seconds) = raw.split_once(' ')?;
    Some(Bounty {
        id: raw.clone(),
        creator: creator.to_string(),
        assignee: Some("worker".to_string()),
        created_at: Timestamp { seconds: seconds.parse().ok()?, nanos: 0 },
    })
}

fn filled(count: i64) -> SharedDb {
    let db = new_shared_db();
    for n in 0..count {
        acquire_db(&db).records.insert(n.to_string(), format!("maker {n}"));
    }
    db
}

fn params(limit: Option<i64>) -> ListParams {
    ListParams { limit, cursor: None }
}

#[test]
fn a_request_that_does_not_say_gets_the_default() {
    assert_eq!(page_limit(None), 20);
    let page = list_bounties(&filled(150), params(None), read_record).unwrap();
    assert_eq!(page.bounties.len(), 20);
    assert_eq!(page.bounties[0].created_at.seconds, 149);
    assert_eq!(page.next_cursor, Some(Timestamp { seconds: 130, nanos: 0 }));
}

#[test]
fn a_request_gets_no_more_than_the_most() {
    assert_eq!(page_limit(Some(101)), 100);
    assert_eq!(page_limit(Some(i64::MAX)), 100);
    let page = list_bounties(&filled(150), params(Some(1000)), read_record).unwrap();
    assert_eq!(page.bounties.len(), 100);
    assert_eq!(page.next_cursor, Some(Timestamp { seconds: 50, nanos: 0 }));
}

#[test]
fn a_request_below_the_most_gets_what_it_asks_for() {
    assert_eq!(page_limit(Some(100)), 100);
    assert_eq!(page_limit(Some(7)), 7);
    assert_eq!(page_limit(Some(0)), 0);
    assert_eq!(page_limit(Some(-5)), -5);
    let page = list_bounties(&filled(10), params(Some(7)), read_record).unwrap();
    assert_eq!(page.bounties.len(), 7);
}

#[test]
fn a_negative_request_is_not_bounded() {
    let page = list_bounties(&filled(150), params(Some(-1)), read_record).unwrap();
    assert_eq!(page.bounties.len(), 150);
    assert_eq!(page.next_cursor, None);
}

#[test]
fn a_cursor_in_the_query_is_kept_to() {
    let query = ListParams { limit: None, cursor: Some(Timestamp { seconds: 3, nanos: 0 }) };
    let page = list_bounties(&filled(10), query, read_record).unwrap();
    let seconds: Vec<i64> = page.bounties.iter().map(|b| b.created_at.seconds).collect();
    assert_eq!(seconds, vec![2, 1, 0]);
}

#[test]
fn an_empty_address_is_a_bad_request() {
    let error = list_bounties_by_assignee(&filled(3), "", params(None), read_record).unwrap_err();
    assert!(matches!(error, ListError::EmptyAddress));
    let reply = error.reply();
    assert_eq!(reply.status, 400);
    assert_eq!(reply.error, "address path parameter must not be empty");
}

#[test]
fn an_address_lists_what_is_assigned_to_it() {
    let page =
        list_bounties_by_assignee(&filled(3), "worker", params(None), read_record).unwrap();
    assert_eq!(page.bounties.len(), 3);
    let page =
        list_bounties_by_assignee(&filled(3), "nobody", params(None), read_record).unwrap();
    assert!(page.bounties.is_empty());
}

#[test]
fn a_database_error_keeps_its_detail_to_itself() {
    for detail in ["connection refused", "SELECT * FROM bounties"] {
        let failed = Err(StoreError { detail: detail.to_string() });
        let error = answer(failed).unwrap_err();
        assert!(matches!(&error, ListError::Database(cause) if cause.detail == detail));
        let reply = error.reply();
        assert_eq!(reply.status, 500);
        assert_eq!(reply.error, "internal server error");
    }
}

#[test]
fn a_page_is_answered_as_it_is() {
    let page = BountyPage { bounties: vec![], next_cursor: Some(Timestamp { seconds: 9, nanos: 1 }) };
    let served = answer(Ok(page)).unwrap();
    assert!(served.bounties.is_empty());
    assert_eq!(served.next_cursor, Some(Timestamp { seconds: 9, nanos: 1 }));
}

/// Reads "id creator assignee seconds", with "-" for no assignee.
fn read_claimable(raw: &String) -> Option<Bounty> {
    let parts: Vec<&str> = raw.split(' ').collect();
    if parts.len() != 4 {
        return None;
    }
    Some(Bounty {
        id: parts[0].to_string(),
        creator: parts[1].to_string(),
        assignee: if parts[2] == "-" { None } else { Some(parts[2].to_string()) },
        created_at: Timestamp { seconds: parts[3].parse().ok()?, nanos: 0 },
    })
}

fn rewrite_claimable(_raw: &String, bounty: &Bounty) -> String {
    let assignee = bounty.assignee.as_deref().unwrap_or("-");
    format!("{} {} {} {}", bounty.id, bounty.creator, assignee, bounty.created_at.seconds)
}

fn claimable() -> SharedDb {
    let db = new_shared_db();
    for (key, raw) in [
        ("k1", "b-17 alice - 1"),
        ("k2", "b-18 alice - 2"),
        ("k3", "b-19 bob dave 3"),
        ("k4", "unreadable"),
    ] {
        acquire_db(&db).records.insert(key.to_string(), raw.to_string());
    }
    db
}

fn text_under(db: &SharedDb, key: &str) -> String {
    read_db(db).records.get(key).unwrap().clone()
}

#[test]
fn a_claim_is_told_to_the_client_and_to_the_stream() {
    for caller in ["carol", ""] {
        for db in [claimable(), new_shared_db()] {
            let claim =
                claim_bounty(&db, "b-17".to_string(), caller, read_claimable, rewrite_claimable);
            assert_eq!(claim.reply.id, "b-17");
            assert_eq!(claim.reply.status, "claimed");
            let event = bounty_event(Ok(claim.notice)).unwrap();
            assert_eq!(event.name, "bounty_updated");
            assert_eq!(event.data, "{\"bountyId\": \"b-17\"}");
        }
    }
}

#[test]
fn a_claim_is_stored_for_the_caller() {
    let db = claimable();
    claim_bounty(&db, "b-17".to_string(), "carol", read_claimable, rewrite_claimable);
    assert_eq!(text_under(&db, "k1"), "b-17 alice carol 1");
    let page = list_bounties_by_assignee(&db, "carol", params(None), read_claimable).unwrap();
    assert_eq!(page.bounties.len(), 1);
    assert_eq!(page.bounties[0].id, "b-17");
    assert_eq!(page.bounties[0].creator, "alice");
    assert_eq!(page.bounties[0].assignee, Some("carol".to_string()));
    assert_eq!(page.bounties[0].created_at, Timestamp { seconds: 1, nanos: 0 });
}

#[test]
fn a_claim_leaves_the_other_records() {
    let db = claimable();
    claim_bounty(&db, "b-17".to_string(), "carol", read_claimable, rewrite_claimable);
    assert_eq!(read_db(&db).records.len(), 4);
    assert_eq!(text_under(&db, "k2"), "b-18 alice - 2");
    assert_eq!(text_under(&db, "k3"), "b-19 bob dave 3");
    assert_eq!(text_under(&db, "k4"), "unreadable");
    assert!(db.try_write().is_ok());
}

#[test]
fn a_claim_of_an_unknown_bounty_stores_nothing() {
    let db = claimable();
    claim_bounty(&db, "k1".to_string(), "carol", read_claimable, rewrite_claimable);
    assert_eq!(read_db(&db).records, read_db(&claimable()).records);
}

#[test]
fn an_empty_caller_names_nobody() {
    assert_eq!(claimant(""), None);
    assert_eq!(claimant("carol"), Some("carol"));
    assert_eq!(claimant(" "), Some(" "));
}

#[test]
fn a_rewrite_starts_from_the_record_that_was_there() {
    let db = claimable();
    let note = |raw: &String, bounty: &Bounty| {
        format!("{raw}/{}", bounty.assignee.as_deref().unwrap())
    };
    claim_bounty(&db, "b-17".to_string(), "carol", read_claimable, note);
    assert_eq!(text_under(&db, "k1"), "b-17 alice - 1/carol");
    assert_eq!(text_under(&db, "k2"), "b-18 alice - 2");
}

#[test]
fn a_claim_by_nobody_stores_nothing() {
    let db = claimable();
    claim_bounty(&db, "b-17".to_string(), "", read_claimable, rewrite_claimable);
    assert_eq!(read_db(&db).records, read_db(&claimable()).records);
}

#[test]
fn the_last_claim_of_a_bounty_stands() {
    let db = claimable();
    claim_bounty(&db, "b-19".to_string(), "carol", read_claimable, rewrite_claimable);
    assert_eq!(text_under(&db, "k3"), "b-19 bob carol 3");
}

#[test]
fn a_claim_marks_every_record_of_the_bounty() {
    let db = claimable();
    acquire_db(&db).records.insert("k5".to_string(), "b-17 alice - 1".to_string());
    claim_bounty(&db, "b-17".to_string(), "carol", read_claimable, rewrite_claimable);
    assert_eq!(text_under(&db, "k1"), "b-17 alice carol 1");
    assert_eq!(text_under(&db, "k5"), "b-17 alice carol 1");
    assert_eq!(read_db(&db).records.len(), 5);
}

#[test]
fn lost_messages_make_no_event() {
    assert!(bounty_event(Err(3)).is_none());
}

#[test]
fn the_data_of_an_event_has_a_space_behind_the_colon() {
    let event = bounty_event(Ok("7f3c".to_string())).unwrap();
    assert_eq!(event.data, r#"{"bountyId": "7f3c"}"#);
    assert_eq!(event.data.len(), 20);
}

#[test]
fn the_data_of_an_event_is_json() {
    let event = bounty_event(Ok("1b4e28ba".to_string())).unwrap();
    let value: serde_json::Value = serde_json::from_str(&event.data).unwrap();
    assert_eq!(value["bountyId"], "1b4e28ba");
}

#[test]
fn different_bounties_have_different_event_data() {
    let one = bounty_event(Ok("a".to_string())).unwrap();
    let two = bounty_event(Ok("b".to_string())).unwrap();
    assert_ne!(one.data, two.data);
}
