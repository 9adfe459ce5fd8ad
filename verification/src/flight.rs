use vstd::prelude::*;

verus! {

/// A flight record as a client supplies it: free-form text and a completion
/// flag. The store-assigned identifier is never part of the payload.
#[derive(Debug)]
pub struct Flight {
    pub content: String,
    pub is_done: bool,
}

/// The mathematical value of a `Flight`: its text as a sequence of characters
/// and its flag.
#[verifier::ext_equal]
pub struct FlightView {
    pub content: Seq<char>,
    pub is_done: bool,
}

impl View for Flight {
    type V = FlightView;

    open spec fn view(&self) -> FlightView {
        FlightView { content: self.content@, is_done: self.is_done }
    }
}

impl Clone for Flight {
    fn clone(&self) -> (r: Self)
        ensures
            r@ == self@,
    {
        Flight { content: self.content.clone(), is_done: self.is_done }
    }
}

} // verus!
