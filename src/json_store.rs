//! The JSON backend: every entry in memory, each value sealed in an envelope,
//! the whole map persisted as one JSON object.

use vstd::prelude::*;
use vstd::utf8::encode_utf8;
use crate::actions::{QueueAction, ACTION_DELETE, ACTION_STORE};
use crate::crypto::{
    as_text, is_envelope_of, json_decrypt, json_encrypt, ok_text, opened_envelope, PLAINTEXT_MAX,
};
use crate::error::StoreError;
use crate::index::{map_of, KeyIndex};
use crate::json::{from_json_object, json_object_parsed, json_object_text, text_pairs, to_json_object};

verus! {

/// Most entries that the JSON backend accepts.
pub const MAP_SIZE_MAX: usize = 10000;

/// What applying an action with opcode `code` to `key` and `value` makes of
/// the map `before`, when it succeeds.
pub open spec fn json_applied(
    before: Map<Seq<char>, Seq<char>>,
    after: Map<Seq<char>, Seq<char>>,
    key: Seq<char>,
    value: Seq<char>,
    code: u8,
) -> bool {
    if code == ACTION_STORE {
        &&& after.dom() == before.dom().insert(key)
        &&& after.remove(key) == before.remove(key)
        &&& is_envelope_of(after[key], encode_utf8(value))
    } else {
        after == before.remove(key)
    }
}

/// When applying an action fails: an unknown opcode, or a value too large to
/// encrypt.
pub open spec fn json_action_fails(value: Seq<char>, code: u8) -> bool {
    (code != ACTION_STORE && code != ACTION_DELETE) || (code == ACTION_STORE && encode_utf8(value).len()
        > PLAINTEXT_MAX)
}

/// The map of a loaded store, if loading succeeded.
pub open spec fn loaded_map(r: Result<JsonStore, StoreError>) -> Option<Map<Seq<char>, Seq<char>>> {
    match r {
        Ok(s) => Some(s@),
        Err(_) => None,
    }
}

/// The JSON backend's map from keys to envelope texts.
pub struct JsonStore {
    elements: KeyIndex<String>,
}

impl View for JsonStore {
    type V = Map<Seq<char>, Seq<char>>;

    closed spec fn view(&self) -> Map<Seq<char>, Seq<char>> {
        self.elements.view()
    }
}

impl JsonStore {
    pub closed spec fn wf(&self) -> bool {
        self.elements.wf()
    }

    /// The entries, in the order in which their keys were first stored.
    pub closed spec fn entries(&self) -> Seq<(Seq<char>, Seq<char>)> {
        self.elements.pairs()
    }

    /// An empty store.
    pub fn new() -> (r: JsonStore)
        ensures
            r.wf(),
            r@ == Map::<Seq<char>, Seq<char>>::empty(),
    {
        JsonStore { elements: KeyIndex::new() }
    }

    /// Number of entries.
    pub fn len(&self) -> (r: usize)
        requires
            self.wf(),
        ensures
            r == self@.len(),
    {
        self.elements.len()
    }

    /// Whether the store holds `MAP_SIZE_MAX` entries or more.
    pub fn is_store_full(&self) -> (r: bool)
        requires
            self.wf(),
        ensures
            r == (self@.len() >= MAP_SIZE_MAX),
    {
        self.elements.len() >= MAP_SIZE_MAX
    }

    /// Whether `key` is in the store.
    pub fn key_exists(&self, key: &String) -> (r: bool)
        requires
            self.wf(),
        ensures
            r == self@.contains_key(key@),
    {
        self.elements.contains_key(key)
    }

    /// The value stored under `key`, decrypted from its envelope.
    pub fn get_value(&self, key: &String) -> (r: Result<String, StoreError>)
        requires
            self.wf(),
        ensures
            match r {
                Ok(s) => self@.contains_key(key@) && as_text(opened_envelope(self@[key@])) == Some(s@),
                Err(e) => if self@.contains_key(key@) {
                    e == StoreError::CryptoError && as_text(opened_envelope(self@[key@])) is None
                } else {
                    e == StoreError::NotFoundError
                },
            },
            forall|p: Seq<char>|
                self@.contains_key(key@) && is_envelope_of(self@[key@], #[trigger] encode_utf8(p))
                    ==> ok_text(r) == Some(p),
    {
        match self.elements.get(key) {
            Some(envelope) => json_decrypt(envelope.clone()),
            None => Err(StoreError::NotFoundError),
        }
    }

    /// Applies one action: a store seals the value and puts it under the key,
    /// a delete removes the key (absent keys are left alone).
    pub fn handle_action(&mut self, action: QueueAction) -> (r: Result<(), StoreError>)
        requires
            old(self).wf(),
        ensures
            final(self).wf(),
            r is Err <==> json_action_fails(action.kv.value@, action.action),
            r is Ok ==> json_applied(old(self)@, final(self)@, action.kv.key@, action.kv.value@, action.action),
            r is Err ==> final(self)@ == old(self)@,
    {
        let QueueAction { kv, action: code } = action;
        if code == ACTION_STORE {
            let envelope = json_encrypt(kv.value);
            match envelope {
                Ok(e) => {
                    let ghost ev = e@;
                    let ghost kv_key = kv.key@;
                    self.elements.insert(kv.key, e);
                    proof {
                        assert(self@.remove(kv_key) =~= old(self)@.remove(kv_key));
                        assert(self@.dom() =~= old(self)@.dom().insert(kv_key));
                    }
                    Ok(())
                },
                Err(x) => Err(x),
            }
        } else if code == ACTION_DELETE {
            self.elements.remove(&kv.key);
            Ok(())
        } else {
            Err(StoreError::ValidationError)
        }
    }

    /// The JSON object text of the store: each key with its envelope text.
    pub fn to_json(&self) -> (r: String)
        requires
            self.wf(),
        ensures
            r@ == json_object_text(self.entries()),
            self@ == map_of(self.entries()),
    {
        let mut pairs: Vec<(String, String)> = Vec::new();
        let n = self.elements.len();
        let mut i: usize = 0;
        while i < n
            invariant
                self.wf(),
                n == self.entries().len(),
                i <= n,
                text_pairs(pairs@) =~= self.entries().take(i as int),
            decreases n - i,
        {
            let (k, v) = self.elements.entry(i);
            let ghost before = pairs@;
            let kc = k.clone();
            let vc = v.clone();
            pairs.push((kc, vc));
            proof {
                assert(pairs@ == before.push((kc, vc)));
                assert(text_pairs(pairs@).drop_last() =~= text_pairs(before));
                assert(text_pairs(pairs@)[i as int] == (kc@, vc@));
                assert(text_pairs(pairs@) =~= self.entries().take(i as int + 1));
            }
            i = i + 1;
        }
        proof {
            assert(self.entries().take(n as int) =~= self.entries());
        }
        match to_json_object(&pairs) {
            Some(t) => t,
            None => String::new(),
        }
    }

    /// A store holding the entries of a JSON object text.
    pub fn from_json(text: &str) -> (r: Result<JsonStore, StoreError>)
        ensures
            match r {
                Ok(s) => s.wf() && json_object_parsed(text@) is Some && s@ == map_of(
                    json_object_parsed(text@)->0,
                ),
                Err(e) => e == StoreError::LoadError && json_object_parsed(text@) is None,
            },
            forall|p: Seq<(Seq<char>, Seq<char>)>|
                #[trigger] json_object_text(p) == text@ ==> loaded_map(r) == Some(map_of(p)),
    {
        let pairs = match from_json_object(text) {
            Some(p) => p,
            None => {
                return Err(StoreError::LoadError);
            },
        };
        let mut store = JsonStore::new();
        let n = pairs.len();
        let mut i: usize = 0;
        while i < n
            invariant
                store.wf(),
                n == pairs@.len(),
                i <= n,
                crate::index::keys_distinct(text_pairs(pairs@)),
                store@ == map_of(text_pairs(pairs@).take(i as int)),
            decreases n - i,
        {
            let (k, v) = (pairs[i].0.clone(), pairs[i].1.clone());
            store.elements.insert(k, v);
            proof {
                let t = text_pairs(pairs@).take(i as int + 1);
                assert(t.drop_last() =~= text_pairs(pairs@).take(i as int));
            }
            i = i + 1;
        }
        proof {
            assert(text_pairs(pairs@).take(n as int) =~= text_pairs(pairs@));
        }
        Ok(store)
    }
}

/// Loads the JSON backend from the contents of its store file, `None` when
/// there is no file: then the store starts empty.
pub fn initialize_store_from_file(contents: Option<String>) -> (r: Result<JsonStore, StoreError>)
    ensures
        match contents {
            None => (r matches Ok(s) && s.wf() && s@ == Map::<Seq<char>, Seq<char>>::empty()),
            Some(t) => match r {
                Ok(s) => s.wf() && json_object_parsed(t@) is Some && s@ == map_of(
                    json_object_parsed(t@)->0,
                ),
                Err(e) => e == StoreError::LoadError && json_object_parsed(t@) is None,
            },
        },
        forall|p: Seq<(Seq<char>, Seq<char>)>|
            contents matches Some(t) && #[trigger] json_object_text(p) == t@ ==> loaded_map(r)
                == Some(map_of(p)),
{
    match contents {
        None => Ok(JsonStore::new()),
        Some(t) => JsonStore::from_json(t.as_str()),
    }
}

} // verus!
