//! Storage core of a federated messaging server: key-value stores that stack.
//!
//! * [`utils::key_value`] is the store interface, with an in-memory backend, a
//!   cache decorator and a decorator that keeps one canonical entry for each key.
//! * [`utils::persisted`] decides when a value is written back to durable storage.
//! * [`utils::cached`] is a store that loads values on demand and keeps the most
//!   recently used ones, with lazy handles on its values.
//! * [`endpoints`] names the places where the HTTP layer mounts the protocol.
//!
//! Everything here is single-owner, sequential code. A store owns the values it
//! holds; an entry is a small handle that names one value inside its store, and
//! reading or writing through an entry takes the store as an argument. Sharing a
//! store between threads is the caller's business (one lock around the store).

pub mod endpoints;
pub mod utils;
