use crate::flight::Flight;
use crate::flight_id::hex_val;
use crate::flight_id::is_id_str;
use crate::flight_id::parse_flight_id;
use crate::flight_id::FlightId;
use crate::flight_id::ID_LIMIT;
use crate::store::descending_ids;
use crate::store::docs_view;
use crate::store::find_doc;
use crate::store::has_id;
use crate::store::remove_docs;
use crate::store::replace_docs;
use crate::store::Document;
use crate::store::DocumentView;
use crate::store::Store;
use crate::store::StoreError;
use vstd::prelude::*;
use vstd::string::StringExecFns;

verus! {

/// The body of a rendered response.
#[derive(Debug)]
pub enum ReplyBody {
    /// The full collection, newest first.
    Flights(Vec<Document>),
    /// One document, or null when no document matched.
    MaybeFlight(Option<Document>),
    /// The acknowledgment envelope of a mutating operation.
    Message(String),
    /// No body at all.
    Empty,
}

/// A response as the controllers decide it: an HTTP status code and a body.
/// The edge only serialises it; nothing is decided after this point.
#[derive(Debug)]
pub struct Reply {
    pub status: u16,
    pub body: ReplyBody,
}

/// The value of an optional document.
pub open spec fn opt_doc_view(o: Option<Document>) -> Option<DocumentView> {
    match o {
        Some(d) => Some(d@),
        None => None,
    }
}

/// The identifier value a well-formed identifier string denotes.
pub open spec fn id_of_str(s: Seq<char>) -> u128 {
    hex_val(s) as u128
}

/// The client error for a malformed identifier, decided before any store
/// access: a 400 with no body, never a fault of the handling worker.
pub fn bad_identifier_reply() -> (r: Reply)
    ensures
        r.status == 400,
        r.body is Empty,
{
    Reply { status: 400, body: ReplyBody::Empty }
}

/// The outcome of a list round trip as a response: the documents as a 200,
/// or a 500 with nothing when the iteration failed anywhere -- partial
/// results are discarded, never sent.
pub fn render_list_outcome(outcome: Result<Vec<Document>, StoreError>) -> (r: Reply)
    ensures
        match outcome {
            Ok(v) => r.status == 200 && (r.body matches ReplyBody::Flights(w) && docs_view(w@)
                == docs_view(v@)),
            Err(_) => r.status == 500 && r.body is Empty,
        },
{
    match outcome {
        Ok(v) => Reply { status: 200, body: ReplyBody::Flights(v) },
        Err(_) => Reply { status: 500, body: ReplyBody::Empty },
    }
}

/// The outcome of a create round trip as a response. The store-assigned
/// identifier is not echoed to the caller: success is a 201 carrying only
/// the acknowledgment envelope; a failed round trip is a 500.
pub fn render_create_outcome(outcome: Result<FlightId, StoreError>) -> (r: Reply)
    ensures
        match outcome {
            Ok(_) => r.status == 201 && (r.body matches ReplyBody::Message(m) && m@
                == "Successful"@),
            Err(_) => r.status == 500 && r.body is Empty,
        },
{
    match outcome {
        Ok(_) => Reply {
            status: 201,
            body: ReplyBody::Message(String::from_str("Successful")),
        },
        Err(_) => Reply { status: 500, body: ReplyBody::Empty },
    }
}

/// The outcome of a single-document fetch as a response: a 200 carrying the
/// document, or null when none matched -- absence is not an error here --
/// and a 500 when the round trip failed.
pub fn render_fetch_outcome(outcome: Result<Option<Document>, StoreError>) -> (r: Reply)
    ensures
        match outcome {
            Ok(o) => r.status == 200 && (r.body matches ReplyBody::MaybeFlight(found)
                && opt_doc_view(found) == opt_doc_view(o)),
            Err(_) => r.status == 500 && r.body is Empty,
        },
{
    match outcome {
        Ok(o) => Reply { status: 200, body: ReplyBody::MaybeFlight(o) },
        Err(_) => Reply { status: 500, body: ReplyBody::Empty },
    }
}

/// The outcome of an update round trip as a response: a 200 with the
/// acknowledgment envelope whether or not a document matched -- a deliberate
/// design choice; the store operation itself reports the distinction -- and
/// a 500 when the round trip failed.
pub fn render_update_outcome(outcome: Result<bool, StoreError>) -> (r: Reply)
    ensures
        match outcome {
            Ok(_) => r.status == 200 && (r.body matches ReplyBody::Message(m) && m@
                == "Updated Successfully"@),
            Err(_) => r.status == 500 && r.body is Empty,
        },
{
    match outcome {
        Ok(_) => Reply {
            status: 200,
            body: ReplyBody::Message(String::from_str("Updated Successfully")),
        },
        Err(_) => Reply { status: 500, body: ReplyBody::Empty },
    }
}

/// The outcome of a delete round trip as a response: a 204 with no body
/// whether or not a document matched, and a 500 when the round trip failed.
pub fn render_delete_outcome(outcome: Result<bool, StoreError>) -> (r: Reply)
    ensures
        match outcome {
            Ok(_) => r.status == 204 && r.body is Empty,
            Err(_) => r.status == 500 && r.body is Empty,
        },
{
    match outcome {
        Ok(_) => Reply { status: 204, body: ReplyBody::Empty },
        Err(_) => Reply { status: 500, body: ReplyBody::Empty },
    }
}

/// List all flights: a 200 carrying every document, newest first, which is
/// strictly descending identifier order.
pub fn get_flights(store: &Store) -> (r: Reply)
    requires
        store.wf(),
    ensures
        r.status == 200,
        r.body matches ReplyBody::Flights(v) && docs_view(v@) == store@.reverse()
            && descending_ids(docs_view(v@)),
{
    let docs = store.find_many();
    render_list_outcome(Ok(docs))
}

/// Create a flight: insert it, then acknowledge with a 201. The new document
/// is appended under the store-assigned identifier; every existing document
/// is untouched.
pub fn create_flight(store: &mut Store, flight: Flight) -> (r: Reply)
    requires
        old(store).wf(),
        old(store).next_id() < ID_LIMIT,
    ensures
        final(store).wf(),
        final(store)@ == old(store)@.push(
            DocumentView { id: old(store).next_id(), flight: flight@ },
        ),
        final(store).next_id() == old(store).next_id() + 1,
        r.status == 201,
        r.body matches ReplyBody::Message(m) && m@ == "Successful"@,
{
    let id = store.insert_one(flight);
    render_create_outcome(Ok(id))
}

/// Fetch one flight by its identifier string. A malformed identifier is the
/// client's error: a 400, decided before any store access. A well-formed one
/// yields a 200 carrying the matching document, or null when none matches.
pub fn fetch_one(store: &Store, flight_id: &str) -> (r: Reply)
    requires
        store.wf(),
    ensures
        !is_id_str(flight_id@) ==> r.status == 400 && r.body is Empty,
        is_id_str(flight_id@) ==> r.status == 200 && (r.body matches ReplyBody::MaybeFlight(o)
            && opt_doc_view(o) == find_doc(store@, id_of_str(flight_id@))),
{
    match parse_flight_id(flight_id) {
        None => bad_identifier_reply(),
        Some(id) => {
            let found = store.find_one(id);
            render_fetch_outcome(Ok(found))
        },
    }
}

/// Update one flight by its identifier string: a full replace of `content`
/// and `is_done`, never a partial patch. A malformed identifier is a 400 and
/// the store is untouched. A well-formed one acknowledges with a 200 whether
/// or not a document matched.
pub fn update_flight(store: &mut Store, flight_id: &str, flight: Flight) -> (r: Reply)
    requires
        old(store).wf(),
    ensures
        final(store).wf(),
        final(store).next_id() == old(store).next_id(),
        !is_id_str(flight_id@) ==> r.status == 400 && r.body is Empty && final(store)@ == old(
            store,
        )@,
        is_id_str(flight_id@) ==> r.status == 200 && final(store)@ == replace_docs(
            old(store)@,
            id_of_str(flight_id@),
            flight@,
        ) && (r.body matches ReplyBody::Message(m) && m@ == "Updated Successfully"@),
        !has_id(old(store)@, id_of_str(flight_id@)) ==> final(store)@ == old(store)@,
{
    match parse_flight_id(flight_id) {
        None => bad_identifier_reply(),
        Some(id) => {
            let matched = store.update_one(id, flight);
            render_update_outcome(Ok(matched))
        },
    }
}

/// Delete one flight by its identifier string. A malformed identifier is a
/// 400 and the store is untouched. A well-formed one removes the matching
/// document if present and answers 204 with no body either way: deleting an
/// absent document is not an error.
pub fn delete_flight(store: &mut Store, flight_id: &str) -> (r: Reply)
    requires
        old(store).wf(),
    ensures
        final(store).wf(),
        final(store).next_id() == old(store).next_id(),
        !is_id_str(flight_id@) ==> r.status == 400 && r.body is Empty && final(store)@ == old(
            store,
        )@,
        is_id_str(flight_id@) ==> r.status == 204 && r.body is Empty && final(store)@
            == remove_docs(old(store)@, id_of_str(flight_id@)),
        !has_id(old(store)@, id_of_str(flight_id@)) ==> final(store)@ == old(store)@,
{
    match parse_flight_id(flight_id) {
        None => bad_identifier_reply(),
        Some(id) => {
            let deleted = store.delete_one(id);
            render_delete_outcome(Ok(deleted))
        },
    }
}

} // verus!
