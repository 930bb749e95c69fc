//! The mutations that request handlers hand to the persistence worker.

use vstd::prelude::*;

verus! {

/// Opcode of an action that stores a value under a key.
pub const ACTION_STORE: u8 = 0;

/// Opcode of an action that deletes a key.
pub const ACTION_DELETE: u8 = 1;

/// A key and its value.
pub struct KeyValuePair {
    pub key: String,
    pub value: String,
}

/// One mutation: a key, a value (empty for a delete) and an opcode.
pub struct QueueAction {
    pub kv: KeyValuePair,
    pub action: u8,
}

} // verus!
