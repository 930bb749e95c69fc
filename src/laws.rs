//! Properties that relate several operations of the store.

use vstd::prelude::*;
use vstd::utf8::encode_utf8;
use crate::actions::{ACTION_DELETE, ACTION_STORE};
use crate::crypto::is_envelope_of;
use crate::error::StoreError;
use crate::file_store::{filename_usable, seals_value, MetaView};
use crate::json_store::{json_applied, MAP_SIZE_MAX};
use crate::regex_pattern::regex_matches;
use crate::service::{store_verdict, trimmed};
use crate::validation::{
    is_valid_key, is_valid_value, KEY_PATTERN, VALUE_LEN_MAX, VALUE_PATTERN,
};

verus! {

/// The JSON map holds `value` under `key`: a get of `key` gives `value`
/// back (see `JsonStore::get_value`).
pub open spec fn holds_value(m: Map<Seq<char>, Seq<char>>, key: Seq<char>, value: Seq<char>) -> bool {
    m.contains_key(key) && is_envelope_of(m[key], encode_utf8(value))
}

/// Round trip, JSON backend: once a store of `value` under `key` is applied,
/// the map holds `value` under `key`, and every other key is left as it was.
pub proof fn lemma_json_store_then_get(
    before: Map<Seq<char>, Seq<char>>,
    after: Map<Seq<char>, Seq<char>>,
    key: Seq<char>,
    value: Seq<char>,
)
    requires
        json_applied(before, after, key, value, ACTION_STORE),
    ensures
        holds_value(after, key, value),
        forall|k: Seq<char>| k != key ==> (#[trigger] after.contains_key(k) == before.contains_key(k)),
        forall|k: Seq<char>| k != key && before.contains_key(k) ==> #[trigger] after[k] == before[k],
{
    assert forall|k: Seq<char>| k != key && before.contains_key(k) implies #[trigger] after[k]
        == before[k] by {
        assert(after.remove(key)[k] == before.remove(key)[k]);
    }
    assert forall|k: Seq<char>| k != key implies (#[trigger] after.contains_key(k)
        == before.contains_key(k)) by {
        assert(after.dom().contains(k) == before.dom().insert(key).contains(k));
    }
}

/// Round trip, file backend: once a prepared store of `value` under `key`
/// is committed, the index points `key` at a file whose contents
/// `ciphertext` seal `value`, so a get of `key` on those contents gives
/// `value` back (see `FileStore::get_value`).
pub proof fn lemma_file_store_then_get(
    before: Map<Seq<char>, MetaView>,
    after: Map<Seq<char>, MetaView>,
    key: Seq<char>,
    value: Seq<char>,
    meta: MetaView,
    ciphertext: Seq<char>,
)
    requires
        filename_usable(before, key, meta.0),
        seals_value(meta, ciphertext, value),
        after == before.insert(key, meta),
    ensures
        after.contains_key(key),
        seals_value(after[key], ciphertext, value),
        before.contains_key(key) ==> after[key].0 == before[key].0,
{
}

/// Application in queue order: when stores of distinct keys are applied
/// one after the other, the final map holds every stored value.
pub proof fn lemma_fifo_application(
    states: Seq<Map<Seq<char>, Seq<char>>>,
    stores: Seq<(Seq<char>, Seq<char>)>,
)
    requires
        states.len() == stores.len() + 1,
        forall|i: int|
            0 <= i < stores.len() ==> json_applied(
                #[trigger] states[i],
                states[i + 1],
                stores[i].0,
                stores[i].1,
                ACTION_STORE,
            ),
        forall|i: int, j: int|
            0 <= i < stores.len() && 0 <= j < stores.len() && i != j ==> #[trigger] stores[i].0
                != #[trigger] stores[j].0,
    ensures
        forall|i: int|
            0 <= i < stores.len() ==> holds_value(states.last(), #[trigger] stores[i].0, stores[i].1),
    decreases stores.len(),
{
    if stores.len() > 0 {
        let n = stores.len() - 1;
        let init_states = states.drop_last();
        let init_stores = stores.drop_last();
        assert forall|i: int| 0 <= i < init_stores.len() implies json_applied(
            #[trigger] init_states[i],
            init_states[i + 1],
            init_stores[i].0,
            init_stores[i].1,
            ACTION_STORE,
        ) by {
            assert(json_applied(states[i], states[i + 1], stores[i].0, stores[i].1, ACTION_STORE));
        }
        assert forall|i: int, j: int|
            0 <= i < init_stores.len() && 0 <= j < init_stores.len() && i != j implies #[trigger] init_stores[i].0
            != #[trigger] init_stores[j].0 by {
            assert(stores[i].0 != stores[j].0);
        }
        lemma_fifo_application(init_states, init_stores);
        assert(json_applied(states[n], states[n + 1], stores[n].0, stores[n].1, ACTION_STORE));
        lemma_json_store_then_get(states[n], states[n + 1], stores[n].0, stores[n].1);
        assert forall|i: int| 0 <= i < stores.len() implies holds_value(
            states.last(),
            #[trigger] stores[i].0,
            stores[i].1,
        ) by {
            if i < n {
                assert(init_stores[i] == stores[i]);
                assert(init_states.last() == states[n]);
                assert(holds_value(states[n], stores[i].0, stores[i].1));
                assert(stores[i].0 != stores[n].0);
            }
        }
    }
}

/// Capacity boundary, JSON backend: with 9,999 entries a store of a new
/// valid entry is accepted; once it is applied the store holds 10,000
/// entries and the next valid store is refused as over capacity.
pub proof fn lemma_capacity_boundary(
    before: Map<Seq<char>, Seq<char>>,
    after: Map<Seq<char>, Seq<char>>,
    key: Seq<char>,
    value: Seq<char>,
    next_key: Seq<char>,
    next_value: Seq<char>,
)
    requires
        before.dom().finite(),
        before.len() == MAP_SIZE_MAX - 1,
        !before.contains_key(key),
        is_valid_key(key) && is_valid_value(value, true),
        is_valid_key(next_key) && is_valid_value(next_value, true),
        json_applied(before, after, key, value, ACTION_STORE),
    ensures
        store_verdict(true, before.len() >= MAP_SIZE_MAX, key, value) is Ok,
        after.len() == MAP_SIZE_MAX,
        store_verdict(true, after.len() >= MAP_SIZE_MAX, next_key, next_value) == Err::<
            (),
            StoreError,
        >(StoreError::CapacityExceededError),
{
    assert(after.dom() == before.dom().insert(key));
    assert(after.dom().len() == before.dom().len() + 1);
}

/// Key length boundary: no key of 0 or 33 characters is valid; a key of 1
/// or 32 characters is valid when it consists of word characters.
pub proof fn lemma_key_length_boundary(key: Seq<char>)
    ensures
        key.len() == 0 || key.len() == 33 ==> !is_valid_key(key) && store_verdict(
            true,
            false,
            key,
            seq!['a'],
        ) == Err::<(), StoreError>(StoreError::ValidationError),
        (key.len() == 1 || key.len() == 32) && regex_matches(KEY_PATTERN@, key) ==> is_valid_key(key),
{
}

/// Value length boundary: for the JSON backend a value of 1,025 characters
/// is refused, one of 1 or 1,024 base64 characters accepted; the file
/// backend takes base64 values of any length.
pub proof fn lemma_value_length_boundary(value: Seq<char>)
    ensures
        value.len() == VALUE_LEN_MAX + 1 ==> !is_valid_value(value, true),
        (value.len() == 1 || value.len() == VALUE_LEN_MAX) && regex_matches(VALUE_PATTERN@, value)
            ==> is_valid_value(value, true),
        regex_matches(VALUE_PATTERN@, value) ==> is_valid_value(value, false),
{
}

/// Delete, JSON backend: once a delete of `key` is applied the key is gone,
/// so a get of it fails as not found (see `JsonStore::get_value`), and every
/// other key is left as it was.
pub proof fn lemma_json_delete_then_get(
    before: Map<Seq<char>, Seq<char>>,
    after: Map<Seq<char>, Seq<char>>,
    key: Seq<char>,
    value: Seq<char>,
)
    requires
        json_applied(before, after, key, value, ACTION_DELETE),
    ensures
        !after.contains_key(key),
        forall|k: Seq<char>| k != key ==> (#[trigger] after.contains_key(k) == before.contains_key(k)),
        forall|k: Seq<char>| k != key && before.contains_key(k) ==> #[trigger] after[k] == before[k],
{
}

/// Application in queue order, file backend: when prepared stores of
/// distinct keys (key, metadata, file contents, value) are committed one
/// after the other, the final index points each key at contents that seal
/// its value.
pub proof fn lemma_file_fifo_application(
    states: Seq<Map<Seq<char>, MetaView>>,
    stores: Seq<(Seq<char>, MetaView, Seq<char>, Seq<char>)>,
)
    requires
        states.len() == stores.len() + 1,
        forall|i: int|
            0 <= i < stores.len() ==> {
                &&& filename_usable(#[trigger] states[i], stores[i].0, stores[i].1.0)
                &&& seals_value(stores[i].1, stores[i].2, stores[i].3)
                &&& states[i + 1] == states[i].insert(stores[i].0, stores[i].1)
            },
        forall|i: int, j: int|
            0 <= i < stores.len() && 0 <= j < stores.len() && i != j ==> #[trigger] stores[i].0
                != #[trigger] stores[j].0,
    ensures
        forall|i: int|
            0 <= i < stores.len() ==> states.last().contains_key(#[trigger] stores[i].0)
                && seals_value(states.last()[stores[i].0], stores[i].2, stores[i].3),
    decreases stores.len(),
{
    if stores.len() > 0 {
        let n = stores.len() - 1;
        let init_states = states.drop_last();
        let init_stores = stores.drop_last();
        assert forall|i: int| 0 <= i < init_stores.len() implies {
            &&& filename_usable(#[trigger] init_states[i], init_stores[i].0, init_stores[i].1.0)
            &&& seals_value(init_stores[i].1, init_stores[i].2, init_stores[i].3)
            &&& init_states[i + 1] == init_states[i].insert(init_stores[i].0, init_stores[i].1)
        } by {
            assert(filename_usable(states[i], stores[i].0, stores[i].1.0));
        }
        assert forall|i: int, j: int|
            0 <= i < init_stores.len() && 0 <= j < init_stores.len() && i != j implies #[trigger] init_stores[i].0
            != #[trigger] init_stores[j].0 by {
            assert(stores[i].0 != stores[j].0);
        }
        lemma_file_fifo_application(init_states, init_stores);
        assert(filename_usable(states[n], stores[n].0, stores[n].1.0));
        assert forall|i: int| 0 <= i < stores.len() implies states.last().contains_key(
            #[trigger] stores[i].0,
        ) && seals_value(states.last()[stores[i].0], stores[i].2, stores[i].3) by {
            if i < n {
                assert(init_stores[i] == stores[i]);
                assert(init_states.last() == states[n]);
                assert(stores[i].0 != stores[n].0);
            }
        }
    }
}

/// Round trip through the request layer, JSON backend: a store request
/// that `Backend::store_request` accepts becomes an action on the trimmed
/// key and value; once the worker has applied it, the map holds the trimmed
/// value under the trimmed key, which is a valid key, so a get request for
/// that key gives the value back (see `Backend::get_request`).
pub proof fn lemma_json_request_store_then_get(
    full: bool,
    before: Map<Seq<char>, Seq<char>>,
    after: Map<Seq<char>, Seq<char>>,
    key: Seq<char>,
    value: Seq<char>,
)
    requires
        store_verdict(true, full, trimmed(key), trimmed(value)) is Ok,
        json_applied(before, after, trimmed(key), trimmed(value), ACTION_STORE),
    ensures
        is_valid_key(trimmed(key)),
        is_valid_value(trimmed(value), true),
        holds_value(after, trimmed(key), trimmed(value)),
{
    lemma_json_store_then_get(before, after, trimmed(key), trimmed(value));
}

/// Round trip through the request layer, file backend: a store request
/// that `Backend::store_request` accepts, prepared and committed, leaves the
/// trimmed key pointing at file contents that seal the trimmed value, so a
/// get request for that key, on those contents, gives the value back (see
/// `Backend::get_request` and `FileStore::get_value`).
pub proof fn lemma_file_request_store_then_get(
    before: Map<Seq<char>, MetaView>,
    after: Map<Seq<char>, MetaView>,
    key: Seq<char>,
    value: Seq<char>,
    meta: MetaView,
    ciphertext: Seq<char>,
)
    requires
        store_verdict(false, false, trimmed(key), trimmed(value)) is Ok,
        filename_usable(before, trimmed(key), meta.0),
        seals_value(meta, ciphertext, trimmed(value)),
        after == before.insert(trimmed(key), meta),
    ensures
        is_valid_key(trimmed(key)),
        after.contains_key(trimmed(key)),
        seals_value(after[trimmed(key)], ciphertext, trimmed(value)),
{
}

} // verus!
