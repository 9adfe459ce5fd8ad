//! A verified core for a small flight-tracking CRUD service.
//!
//! The service keeps one kind of record, a flight, in a document store and
//! serves it over five HTTP endpoints. This crate holds everything that can
//! be decided without the network: the store-native identifier format with
//! its parser and renderer, an in-memory model of the document store's four
//! single-document operations, and the controller layer that turns a request
//! and a store outcome into a status code and a body. The process edge --
//! the HTTP server and the real store client -- lives outside and only moves
//! bytes between the wire and these functions.

pub mod controllers;
pub mod flight;
pub mod flight_id;
pub mod store;
