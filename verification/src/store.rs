use crate::flight::Flight;
use crate::flight::FlightView;
use crate::flight_id::FlightId;
use crate::flight_id::ID_LIMIT;
use vstd::prelude::*;

verus! {

broadcast use vstd::seq_lib::group_filter_ensures;

/// A persisted flight: the store-assigned identifier with the payload.
#[derive(Debug)]
pub struct Document {
    pub id: FlightId,
    pub flight: Flight,
}

/// The mathematical value of a persisted flight.
#[verifier::ext_equal]
pub struct DocumentView {
    pub id: u128,
    pub flight: FlightView,
}

impl View for Document {
    type V = DocumentView;

    open spec fn view(&self) -> DocumentView {
        DocumentView { id: self.id.value, flight: self.flight@ }
    }
}

impl Clone for Document {
    fn clone(&self) -> (r: Self)
        ensures
            r@ == self@,
    {
        Document { id: self.id, flight: self.flight.clone() }
    }
}

/// A failed store round trip: the connection was unavailable, the operation
/// timed out, or the store itself reported an error. The cause is logged at
/// the edge; here every such failure renders as a server error.
#[derive(Debug, Clone, Copy)]
pub struct StoreError;

/// The value sequence of a sequence of documents.
pub open spec fn docs_view(s: Seq<Document>) -> Seq<DocumentView> {
    Seq::new(s.len(), |i: int| s[i]@)
}

/// Some document in the sequence carries the identifier.
pub open spec fn has_id(s: Seq<DocumentView>, id: u128) -> bool {
    exists|i: int| 0 <= i < s.len() && #[trigger] s[i].id == id
}

/// The first document carrying the identifier, if any.
pub open spec fn find_doc(s: Seq<DocumentView>, id: u128) -> Option<DocumentView>
    decreases s.len(),
{
    if s.len() == 0 {
        None
    } else if s[0].id == id {
        Some(s[0])
    } else {
        find_doc(s.drop_first(), id)
    }
}

/// Every document re-labelled with the new payload where the identifier
/// matches: a full replace of `content` and `is_done`, identifiers untouched.
pub open spec fn replace_docs(s: Seq<DocumentView>, id: u128, f: FlightView) -> Seq<DocumentView> {
    Seq::new(
        s.len(),
        |i: int|
            if s[i].id == id {
                DocumentView { id: s[i].id, flight: f }
            } else {
                s[i]
            },
    )
}

/// The sequence with every document carrying the identifier removed.
pub open spec fn remove_docs(s: Seq<DocumentView>, id: u128) -> Seq<DocumentView> {
    s.filter(|d: DocumentView| d.id != id)
}

/// Identifiers strictly increase along the sequence: creation order.
pub open spec fn ascending_ids(s: Seq<DocumentView>) -> bool {
    forall|i: int, j: int| 0 <= i < j < s.len() ==> #[trigger] s[i].id < #[trigger] s[j].id
}

/// Identifiers strictly decrease along the sequence: newest first.
pub open spec fn descending_ids(s: Seq<DocumentView>) -> bool {
    forall|i: int, j: int| 0 <= i < j < s.len() ==> #[trigger] s[i].id > #[trigger] s[j].id
}

/// An in-memory document store holding the one collection of flights.
///
/// This models the external document store as the service relies on it: the
/// four single-document operations below are the only ones ever issued, and
/// identifiers are assigned monotonically at creation, so creation order and
/// identifier order agree. It doubles as the substitutable in-memory handle
/// the request layer is exercised against.
#[derive(Debug)]
pub struct Store {
    docs: Vec<Document>,
    next: u128,
}

impl View for Store {
    type V = Seq<DocumentView>;

    closed spec fn view(&self) -> Seq<DocumentView> {
        docs_view(self.docs@)
    }
}

impl Store {
    /// The identifier the next created document will receive.
    pub closed spec fn next_id(self) -> u128 {
        self.next
    }

    /// Well-formed store: identifiers ascend in creation order, stay below
    /// the next free identifier, and the identifier space is not exceeded.
    pub closed spec fn wf(self) -> bool {
        &&& ascending_ids(self@)
        &&& forall|i: int| 0 <= i < self@.len() ==> #[trigger] self@[i].id < self.next
        &&& self.next <= ID_LIMIT
    }

    /// A fresh, empty store.
    pub fn new() -> (s: Store)
        ensures
            s.wf(),
            s@ == Seq::<DocumentView>::empty(),
            s.next_id() == 0,
    {
        let s = Store { docs: Vec::new(), next: 0 };
        proof {
            assert(s@ =~= Seq::<DocumentView>::empty());
        }
        s
    }

    /// Insert a new flight. The store assigns the next free identifier; the
    /// new document is appended and every existing document is untouched.
    pub fn insert_one(&mut self, flight: Flight) -> (id: FlightId)
        requires
            old(self).wf(),
            old(self).next_id() < ID_LIMIT,
        ensures
            final(self).wf(),
            id.wf(),
            id.value == old(self).next_id(),
            final(self)@ == old(self)@.push(DocumentView { id: id.value, flight: flight@ }),
            final(self).next_id() == old(self).next_id() + 1,
    {
        let id = FlightId { value: self.next };
        let ghost pre = self@;
        self.docs.push(Document { id, flight });
        self.next = self.next + 1;
        proof {
            assert(self@ =~= pre.push(DocumentView { id: id.value, flight: flight@ }));
        }
        id
    }

    /// All documents, newest first: the reverse of creation order, which is
    /// strictly descending identifier order.
    pub fn find_many(&self) -> (r: Vec<Document>)
        requires
            self.wf(),
        ensures
            docs_view(r@) == self@.reverse(),
            descending_ids(docs_view(r@)),
    {
        let mut r: Vec<Document> = Vec::new();
        let mut i: usize = self.docs.len();
        while i > 0
            invariant
                i <= self.docs@.len(),
                r@.len() == self.docs@.len() - i,
                forall|j: int|
                    0 <= j < r@.len() ==> #[trigger] r@[j]@ == self@[self@.len() - 1 - j],
            decreases i,
        {
            i = i - 1;
            let d = self.docs[i].clone();
            r.push(d);
        }
        proof {
            assert(docs_view(r@) =~= self@.reverse());
            assert forall|i: int, j: int| 0 <= i < j < docs_view(r@).len() implies #[trigger] docs_view(
                r@,
            )[i].id > #[trigger] docs_view(r@)[j].id by {
                assert(docs_view(r@)[i] == self@[self@.len() - 1 - i]);
                assert(docs_view(r@)[j] == self@[self@.len() - 1 - j]);
            }
        }
        r
    }

    /// Index of the first document carrying the identifier, if any.
    fn find_index(&self, id: FlightId) -> (r: Option<usize>)
        ensures
            match r {
                Some(i) => 0 <= i < self@.len() && self@[i as int].id == id.value && (forall|
                    j: int,
                |
                    0 <= j < i ==> #[trigger] self@[j].id != id.value),
                None => !has_id(self@, id.value),
            },
    {
        let mut i: usize = 0;
        while i < self.docs.len()
            invariant
                i <= self@.len(),
                forall|j: int| 0 <= j < i ==> #[trigger] self@[j].id != id.value,
            decreases self.docs@.len() - i,
        {
            if self.docs[i].id.value == id.value {
                return Some(i);
            }
            i = i + 1;
        }
        None
    }

    /// The document carrying the identifier, if any. Absence is not an
    /// error: it is reported as `None`.
    pub fn find_one(&self, id: FlightId) -> (r: Option<Document>)
        requires
            self.wf(),
        ensures
            match r {
                Some(d) => find_doc(self@, id.value) == Some(d@),
                None => find_doc(self@, id.value) is None,
            },
    {
        match self.find_index(id) {
            Some(i) => {
                proof {
                    lemma_find_doc_at(self@, id.value, i as int);
                }
                Some(self.docs[i].clone())
            },
            None => {
                proof {
                    lemma_find_doc_some(self@, id.value);
                }
                None
            },
        }
    }

    /// Replace the payload of the document carrying the identifier: a full
    /// replace of `content` and `is_done`, never a partial patch. Reports
    /// whether any document matched; the store is unchanged when none does.
    pub fn update_one(&mut self, id: FlightId, flight: Flight) -> (matched: bool)
        requires
            old(self).wf(),
        ensures
            final(self).wf(),
            matched == has_id(old(self)@, id.value),
            final(self)@ == replace_docs(old(self)@, id.value, flight@),
            !has_id(old(self)@, id.value) ==> final(self)@ == old(self)@,
            final(self).next_id() == old(self).next_id(),
    {
        let ghost pre = self@;
        match self.find_index(id) {
            Some(i) => {
                proof {
                    assert forall|j: int| 0 <= j < pre.len() && j != i implies #[trigger] pre[j].id
                        != id.value by {
                        if j < i {
                        } else {
                            assert(pre[i as int].id < pre[j].id);
                        }
                    }
                }
                let newdoc = Document { id: self.docs[i].id, flight };
                self.docs[i] = newdoc;
                proof {
                    assert(self@ =~= replace_docs(pre, id.value, flight@));
                    assert forall|a: int| 0 <= a < self@.len() implies #[trigger] self@[a].id
                        == pre[a].id by {}
                }
                true
            },
            None => {
                proof {
                    assert(self@ =~= replace_docs(pre, id.value, flight@));
                }
                false
            },
        }
    }

    /// Remove the document carrying the identifier, if present. Reports
    /// whether any document matched; deleting an absent identifier is not an
    /// error and leaves the store unchanged.
    pub fn delete_one(&mut self, id: FlightId) -> (deleted: bool)
        requires
            old(self).wf(),
        ensures
            final(self).wf(),
            deleted == has_id(old(self)@, id.value),
            final(self)@ == remove_docs(old(self)@, id.value),
            !has_id(old(self)@, id.value) ==> final(self)@ == old(self)@,
            final(self).next_id() == old(self).next_id(),
    {
        let ghost pred = |d: DocumentView| d.id != id.value;
        let ghost pre = self@;
        let mut kept: Vec<Document> = Vec::new();
        let mut found = false;
        let mut i: usize = 0;
        proof {
            reveal(Seq::filter);
            assert(pre.take(0).filter(pred) =~= docs_view(kept@));
        }
        while i < self.docs.len()
            invariant
                self.docs@.len() == pre.len(),
                self@ == pre,
                self.next == old(self).next,
                old(self).wf(),
                pred == (|d: DocumentView| d.id != id.value),
                i <= pre.len(),
                docs_view(kept@) == pre.take(i as int).filter(pred),
                found == has_id(pre.take(i as int), id.value),
            decreases pre.len() - i,
        {
            proof {
                reveal(Seq::filter);
                assert(pre.take(i + 1).drop_last() =~= pre.take(i as int));
                assert(pre.take(i + 1).last() == pre[i as int]);
            }
            let d = &self.docs[i];
            if d.id.value == id.value {
                found = true;
                proof {
                    assert(pre.take(i + 1)[i as int].id == id.value);
                    assert(has_id(pre.take(i + 1), id.value));
                }
            } else {
                let kd = d.clone();
                kept.push(kd);
                proof {
                    assert(docs_view(kept@) =~= pre.take(i as int).filter(pred).push(
                        pre[i as int],
                    ));
                    assert forall|j: int|
                        0 <= j < i + 1 && #[trigger] pre.take(i + 1)[j].id == id.value implies j
                        < i by {}
                }
            }
            i = i + 1;
        }
        proof {
            assert(pre.take(pre.len() as int) =~= pre);
            lemma_remove_docs_wf(pre, id.value, old(self).next);
            if !has_id(pre, id.value) {
                assert(forall|k: int| 0 <= k < pre.len() ==> pred(#[trigger] pre[k]));
                lemma_filter_all(pre, pred);
            }
        }
        self.docs = kept;
        found
    }

    /// A well-formed store never already holds the identifier it will assign
    /// next: every created document is fresh.
    pub proof fn lemma_next_id_fresh(self)
        requires
            self.wf(),
        ensures
            !has_id(self@, self.next_id()),
    {
    }
}

/// `find_doc` succeeds exactly when some document carries the identifier.
pub proof fn lemma_find_doc_some(s: Seq<DocumentView>, id: u128)
    ensures
        find_doc(s, id) is Some <==> has_id(s, id),
    decreases s.len(),
{
    if s.len() > 0 && s[0].id != id {
        lemma_find_doc_some(s.drop_first(), id);
        if has_id(s, id) {
            let i = choose|i: int| 0 <= i < s.len() && #[trigger] s[i].id == id;
            assert(s.drop_first()[i - 1].id == id);
        }
        if has_id(s.drop_first(), id) {
            let i = choose|i: int|
                0 <= i < s.drop_first().len() && #[trigger] s.drop_first()[i].id == id;
            assert(s[i + 1].id == id);
        }
    }
}

/// When the first match is at index i, `find_doc` returns that document.
pub proof fn lemma_find_doc_at(s: Seq<DocumentView>, id: u128, i: int)
    requires
        0 <= i < s.len(),
        s[i].id == id,
        forall|j: int| 0 <= j < i ==> #[trigger] s[j].id != id,
    ensures
        find_doc(s, id) == Some(s[i]),
    decreases i,
{
    if i > 0 {
        assert(s[0].id != id);
        assert(forall|j: int|
            0 <= j < i - 1 ==> #[trigger] s.drop_first()[j].id == s[j + 1].id);
        lemma_find_doc_at(s.drop_first(), id, i - 1);
        assert(s.drop_first()[i - 1] == s[i]);
    }
}

/// Removing an identifier keeps the store well formed: what remains is still
/// in creation order and below the next free identifier.
proof fn lemma_remove_docs_wf(s: Seq<DocumentView>, id: u128, next: u128)
    requires
        ascending_ids(s),
        forall|i: int| 0 <= i < s.len() ==> #[trigger] s[i].id < next,
    ensures
        ascending_ids(remove_docs(s, id)),
        forall|i: int| 0 <= i < remove_docs(s, id).len() ==> #[trigger] remove_docs(s, id)[i].id
            < next,
    decreases s.len(),
{
    reveal(Seq::filter);
    let pred = |d: DocumentView| d.id != id;
    let r = remove_docs(s, id);
    if s.len() > 0 {
        assert(forall|i: int, j: int|
            0 <= i < j < s.drop_last().len() ==> #[trigger] s.drop_last()[i].id
                < #[trigger] s.drop_last()[j].id);
        lemma_remove_docs_wf(s.drop_last(), id, next);
        let rd = remove_docs(s.drop_last(), id);
        if pred(s.last()) {
            assert(r == rd.push(s.last()));
            assert forall|a: int, b: int| 0 <= a < b < r.len() implies #[trigger] r[a].id
                < #[trigger] r[b].id by {
                if b < r.len() - 1 {
                } else {
                    let x = rd[a];
                    assert(rd.contains(x));
                    s.drop_last().lemma_filter_contains_rev(pred, x);
                    let w = choose|w: int|
                        0 <= w < s.drop_last().len() && #[trigger] s.drop_last()[w] == x;
                    assert(s.drop_last()[w] == s[w]);
                    assert(s[w].id < s.last().id);
                }
            }
        } else {
            assert(r == rd);
        }
    }
}

/// Every document of a filtered sequence already satisfies the test, so
/// filtering again changes nothing.
pub proof fn lemma_filter_idempotent(s: Seq<DocumentView>, pred: spec_fn(DocumentView) -> bool)
    ensures
        s.filter(pred).filter(pred) == s.filter(pred),
{
    lemma_filter_all(s.filter(pred), pred);
}

proof fn lemma_filter_all(s: Seq<DocumentView>, pred: spec_fn(DocumentView) -> bool)
    requires
        forall|i: int| 0 <= i < s.len() ==> pred(#[trigger] s[i]),
    ensures
        s.filter(pred) == s,
    decreases s.len(),
{
    reveal(Seq::filter);
    if s.len() > 0 {
        assert(forall|i: int| 0 <= i < s.drop_last().len() ==> pred(#[trigger] s.drop_last()[i]));
        lemma_filter_all(s.drop_last(), pred);
        assert(s.filter(pred) == s.drop_last().push(s.last()));
        assert(s.drop_last().push(s.last()) =~= s);
    }
}

/// Creating a flight and then fetching the identifier the store assigned
/// finds exactly the created document: same `content`, same `is_done`.
pub proof fn lemma_create_then_fetch(s: Seq<DocumentView>, id: u128, f: FlightView)
    requires
        !has_id(s, id),
    ensures
        find_doc(s.push(DocumentView { id, flight: f }), id) == Some(
            DocumentView { id, flight: f },
        ),
    decreases s.len(),
{
    let d = DocumentView { id, flight: f };
    if s.len() == 0 {
        assert(s.push(d)[0] == d);
    } else {
        assert(s[0].id != id);
        assert(s.push(d)[0] == s[0]);
        assert forall|i: int|
            0 <= i < s.drop_first().len() implies #[trigger] s.drop_first()[i].id != id by {
            assert(s[i + 1].id != id);
        }
        lemma_create_then_fetch(s.drop_first(), id, f);
        assert(s.push(d).drop_first() =~= s.drop_first().push(d));
    }
}

/// Updating a document and then fetching it yields the new payload in full:
/// the previous `content` is gone, the identifier untouched.
pub proof fn lemma_update_then_fetch(s: Seq<DocumentView>, id: u128, f: FlightView)
    requires
        has_id(s, id),
    ensures
        find_doc(replace_docs(s, id, f), id) == Some(DocumentView { id, flight: f }),
    decreases s.len(),
{
    let u = replace_docs(s, id, f);
    if s[0].id == id {
        assert(u[0] == DocumentView { id, flight: f });
    } else {
        assert(u[0] == s[0]);
        let i = choose|i: int| 0 <= i < s.len() && #[trigger] s[i].id == id;
        assert(s.drop_first()[i - 1].id == id);
        lemma_update_then_fetch(s.drop_first(), id, f);
        assert(u.drop_first() =~= replace_docs(s.drop_first(), id, f));
    }
}

/// Deleting an identifier and then fetching it finds nothing, and deleting
/// it again removes nothing further.
pub proof fn lemma_delete_then_fetch(s: Seq<DocumentView>, id: u128)
    ensures
        !has_id(remove_docs(s, id), id),
        find_doc(remove_docs(s, id), id) is None,
        remove_docs(remove_docs(s, id), id) == remove_docs(s, id),
{
    let pred = |d: DocumentView| d.id != id;
    let r = remove_docs(s, id);
    assert forall|i: int| 0 <= i < r.len() implies #[trigger] r[i].id != id by {
        s.lemma_filter_pred(pred, i);
    }
    lemma_find_doc_some(r, id);
    lemma_filter_idempotent(s, pred);
}

/// A create loses no earlier write: every document visible before it stays
/// visible after it, together with the created one.
pub proof fn lemma_create_keeps_all(s: Seq<DocumentView>, d: DocumentView)
    ensures
        s.push(d).contains(d),
        forall|x: DocumentView| s.contains(x) ==> s.push(d).contains(x),
{
    assert(s.push(d)[s.len() as int] == d);
    assert forall|x: DocumentView| s.contains(x) implies s.push(d).contains(x) by {
        let i = choose|i: int| 0 <= i < s.len() && s[i] == x;
        assert(s.push(d)[i] == x);
    }
}

} // verus!
