//! Core of a lock-free broadcast queue: every enqueued item is delivered to
//! every currently subscribed consumer exactly once, consumers may join and
//! leave dynamically, and the writer consults an aggregate backpressure query
//! before reusing a ring slot.
//!
//! The crate models the coordination state of that protocol with plain owned
//! data under Rust's ownership discipline: a position counter packing an
//! `(epoch, index)` pair into one machine word, a per-consumer cursor with a
//! single/multi fast-path tag, an immutable reader-group snapshot rebuilt on
//! every subscribe or unsubscribe, and the per-slot signal flags used to agree
//! on safe slot reuse. Readers live in a caller-managed arena and are named by
//! their arena index; a reader group is a snapshot of such indices.

pub mod atomicsignal;
pub mod countedindex;
pub mod read_cursor;
