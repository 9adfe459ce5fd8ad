use flights::controllers::bad_identifier_reply;
use flights::controllers::create_flight;
use flights::controllers::delete_flight;
use flights::controllers::fetch_one;
use flights::controllers::get_flights;
use flights::controllers::render_create_outcome;
use flights::controllers::render_delete_outcome;
use flights::controllers::render_fetch_outcome;
use flights::controllers::render_list_outcome;
use flights::controllers::render_update_outcome;
use flights::controllers::update_flight;
use flights::controllers::Reply;
use flights::controllers::ReplyBody;
use flights::flight::Flight;
use flights::flight_id::FlightId;
use flights::store::Store;
use flights::store::StoreError;

fn flight(content: &str, is_done: bool) -> Flight {
    Flight { content: String::from(content), is_done }
}

fn message_of(r: &Reply) -> &str {
    match &r.body {
        ReplyBody::Message(m) => m,
        other => panic!("expected a message body, got {other:?}"),
    }
}

#[test]
fn post_then_get_shows_the_new_flight() {
    let mut store = Store::new();
    let created = create_flight(&mut store, flight("LH400", false));
    assert_eq!(created.status, 201);
    assert_eq!(message_of(&created), "Successful");

    let listed = get_flights(&store);
    assert_eq!(listed.status, 200);
    match listed.body {
        ReplyBody::Flights(docs) => {
            assert!(docs.iter().any(|d| d.flight.content == "LH400" && !d.flight.is_done));
        },
        other => panic!("expected the collection, got {other:?}"),
    }
}

#[test]
fn get_lists_newest_first() {
    let mut store = Store::new();
    create_flight(&mut store, flight("first", false));
    create_flight(&mut store, flight("second", false));
    create_flight(&mut store, flight("third", true));
    let listed = get_flights(&store);
    assert_eq!(listed.status, 200);
    match listed.body {
        ReplyBody::Flights(docs) => {
            assert_eq!(docs.len(), 3);
            assert!(docs[0].id.value > docs[1].id.value);
            assert!(docs[1].id.value > docs[2].id.value);
            assert_eq!(docs[0].flight.content, "third");
            assert_eq!(docs[2].flight.content, "first");
        },
        other => panic!("expected the collection, got {other:?}"),
    }
}

#[test]
fn fetch_by_created_identifier_yields_the_payload() {
    let mut store = Store::new();
    let id = store.insert_one(flight("LH400", false));
    let fetched = fetch_one(&store, &id.to_hex());
    assert_eq!(fetched.status, 200);
    match fetched.body {
        ReplyBody::MaybeFlight(Some(doc)) => {
            assert_eq!(doc.flight.content, "LH400");
            assert!(!doc.flight.is_done);
        },
        other => panic!("expected the document, got {other:?}"),
    }
}

#[test]
fn fetch_of_absent_identifier_is_200_with_null() {
    let store = Store::new();
    let fetched = fetch_one(&store, "ffffffffffffffffffffffff");
    assert_eq!(fetched.status, 200);
    assert!(matches!(fetched.body, ReplyBody::MaybeFlight(None)));
}

#[test]
fn malformed_identifier_is_a_client_error() {
    let mut store = Store::new();
    store.insert_one(flight("LH400", false));

    let fetched = fetch_one(&store, "not-an-id");
    assert_eq!(fetched.status, 400);
    assert!(matches!(fetched.body, ReplyBody::Empty));

    let updated = update_flight(&mut store, "not-an-id", flight("BA117", true));
    assert_eq!(updated.status, 400);
    assert!(matches!(updated.body, ReplyBody::Empty));

    let deleted = delete_flight(&mut store, "not-an-id");
    assert_eq!(deleted.status, 400);
    assert!(matches!(deleted.body, ReplyBody::Empty));

    // the store is untouched by the rejected requests
    let listed = get_flights(&store);
    match listed.body {
        ReplyBody::Flights(docs) => {
            assert_eq!(docs.len(), 1);
            assert_eq!(docs[0].flight.content, "LH400");
            assert!(!docs[0].flight.is_done);
        },
        other => panic!("expected the collection, got {other:?}"),
    }
}

#[test]
fn update_then_fetch_yields_the_new_payload() {
    let mut store = Store::new();
    let id = store.insert_one(flight("LH400", false));
    let hex = id.to_hex();

    let updated = update_flight(&mut store, &hex, flight("BA117", true));
    assert_eq!(updated.status, 200);
    assert_eq!(message_of(&updated), "Updated Successfully");

    let fetched = fetch_one(&store, &hex);
    match fetched.body {
        ReplyBody::MaybeFlight(Some(doc)) => {
            assert_eq!(doc.flight.content, "BA117");
            assert!(doc.flight.is_done);
        },
        other => panic!("expected the document, got {other:?}"),
    }
}

#[test]
fn update_of_absent_identifier_still_acknowledges() {
    let mut store = Store::new();
    let updated = update_flight(&mut store, "ffffffffffffffffffffffff", flight("BA117", true));
    assert_eq!(updated.status, 200);
    assert_eq!(message_of(&updated), "Updated Successfully");
    let listed = get_flights(&store);
    match listed.body {
        ReplyBody::Flights(docs) => assert!(docs.is_empty()),
        other => panic!("expected the collection, got {other:?}"),
    }
}

#[test]
fn delete_then_fetch_finds_nothing() {
    let mut store = Store::new();
    let id = store.insert_one(flight("LH400", false));
    let hex = id.to_hex();

    let deleted = delete_flight(&mut store, &hex);
    assert_eq!(deleted.status, 204);
    assert!(matches!(deleted.body, ReplyBody::Empty));

    let fetched = fetch_one(&store, &hex);
    assert_eq!(fetched.status, 200);
    assert!(matches!(fetched.body, ReplyBody::MaybeFlight(None)));

    // deleting the same identifier again is not an error
    let again = delete_flight(&mut store, &hex);
    assert_eq!(again.status, 204);
    assert!(matches!(again.body, ReplyBody::Empty));
}

#[test]
fn failed_round_trips_render_as_server_errors() {
    let listed = render_list_outcome(Err(StoreError));
    assert_eq!(listed.status, 500);
    assert!(matches!(listed.body, ReplyBody::Empty));

    let created = render_create_outcome(Err(StoreError));
    assert_eq!(created.status, 500);
    assert!(matches!(created.body, ReplyBody::Empty));

    let fetched = render_fetch_outcome(Err(StoreError));
    assert_eq!(fetched.status, 500);
    assert!(matches!(fetched.body, ReplyBody::Empty));

    let updated = render_update_outcome(Err(StoreError));
    assert_eq!(updated.status, 500);
    assert!(matches!(updated.body, ReplyBody::Empty));

    let deleted = render_delete_outcome(Err(StoreError));
    assert_eq!(deleted.status, 500);
    assert!(matches!(deleted.body, ReplyBody::Empty));
}

#[test]
fn successful_outcomes_render_with_their_statuses() {
    let listed = render_list_outcome(Ok(Vec::new()));
    assert_eq!(listed.status, 200);

    let created = render_create_outcome(Ok(FlightId { value: 7 }));
    assert_eq!(created.status, 201);
    assert_eq!(message_of(&created), "Successful");

    let fetched = render_fetch_outcome(Ok(None));
    assert_eq!(fetched.status, 200);
    assert!(matches!(fetched.body, ReplyBody::MaybeFlight(None)));

    let updated = render_update_outcome(Ok(true));
    assert_eq!(updated.status, 200);
    assert_eq!(message_of(&updated), "Updated Successfully");

    let deleted = render_delete_outcome(Ok(false));
    assert_eq!(deleted.status, 204);
    assert!(matches!(deleted.body, ReplyBody::Empty));

    let rejected = bad_identifier_reply();
    assert_eq!(rejected.status, 400);
    assert!(matches!(rejected.body, ReplyBody::Empty));
}
