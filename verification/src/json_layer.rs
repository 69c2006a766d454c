//! The layer that writes each log event as one JSON line, behind a lock shared by the threads
//! that log.
use std::sync::Mutex;
use vstd::prelude::*;

verus! {

/// Declares `std::sync::Mutex` so that a layer can hold its writer behind one.
#[verifier::external_type_specification]
#[verifier::external_body]
#[verifier::reject_recursive_types(T)]
pub struct ExMutex<T: ?Sized>(Mutex<T>);

/// `Mutex::new(value)`: a lock that holds `value`. Nothing is stated of the lock, whose
/// contents are hidden from proofs.
#[verifier::external_body]
fn new_mutex<T>(value: T) -> Mutex<T> {
    Mutex::new(value)
}

/// A tracing layer that outputs structured JSON lines with a fixed schema:
/// `{"ts": <unix millis>, "level": "...", "target": "...", "msg": "...", "fields": {...}}`.
#[verifier::reject_recursive_types(W)]
pub struct JsonLayer<W> {
    pub writer: Mutex<W>,
}

impl<W> JsonLayer<W> {
    /// A layer that writes to `writer`.
    pub fn new(writer: W) -> Self {
        JsonLayer { writer: new_mutex(writer) }
    }
}

} // verus!
