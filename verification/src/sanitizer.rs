//! The sanitizer: the only path from a tainted value to a clean one.

use crate::types::{Taint, Value};
use vstd::prelude::*;

verus! {

/// What sanitizing yields: the same payload, marked clean.
pub open spec fn sanitized<T>(v: Value<T>) -> Value<T> {
    Value { inner: v.inner, taint: Taint::Clean }
}

/// Sanitizes a value for use in a shell command. It never fails, and the
/// result is clean whatever the taint of the input was.
pub fn sanitize_shell_input(v: Value<String>) -> (result: Result<Value<String>, String>)
    ensures
        result == Ok::<Value<String>, String>(sanitized(v)),
{
    let clean_inner = v.inner;
    Ok(Value::new(clean_inner, Taint::Clean))
}

/// Sanitizing yields a clean value with the payload unchanged; on a value
/// that is already clean it changes nothing; and sanitizing twice is the same
/// as sanitizing once.
pub proof fn lemma_sanitize_idempotent<T>(v: Value<T>)
    ensures
        sanitized(v).taint == Taint::Clean,
        sanitized(v).inner == v.inner,
        v.taint == Taint::Clean ==> sanitized(v) == v,
        sanitized(sanitized(v)) == sanitized(v),
{
}

} // verus!
