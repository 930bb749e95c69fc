//! The decisions of the request handlers: each call is trimmed and
//! validated, and a mutation becomes an action for the write queue.

use vstd::prelude::*;
use crate::actions::{KeyValuePair, QueueAction, ACTION_DELETE, ACTION_STORE};
use crate::crypto::{chars_of, string_of};
use crate::error::StoreError;
use crate::file_store::FileStore;
use crate::json_store::{JsonStore, MAP_SIZE_MAX};
use crate::validation::{is_valid_key, is_valid_value, Validator};

verus! {

/// A character of the Unicode White_Space property.
pub open spec fn is_whitespace(c: char) -> bool {
    ('\u{9}' <= c <= '\u{d}') || c == ' ' || c == '\u{85}' || c == '\u{a0}' || c == '\u{1680}'
        || ('\u{2000}' <= c <= '\u{200a}') || c == '\u{2028}' || c == '\u{2029}' || c
        == '\u{202f}' || c == '\u{205f}' || c == '\u{3000}'
}

/// A text without its leading whitespace.
pub open spec fn trim_start(s: Seq<char>) -> Seq<char>
    decreases s.len(),
{
    if s.len() > 0 && is_whitespace(s[0]) {
        trim_start(s.drop_first())
    } else {
        s
    }
}

/// A text without its trailing whitespace.
pub open spec fn trim_end(s: Seq<char>) -> Seq<char>
    decreases s.len(),
{
    if s.len() > 0 && is_whitespace(s.last()) {
        trim_end(s.drop_last())
    } else {
        s
    }
}

/// A text without its leading and trailing whitespace.
pub open spec fn trimmed(s: Seq<char>) -> Seq<char> {
    trim_end(trim_start(s))
}

fn whitespace(c: char) -> (r: bool)
    ensures
        r == is_whitespace(c),
{
    ('\u{9}' <= c && c <= '\u{d}') || c == ' ' || c == '\u{85}' || c == '\u{a0}' || c == '\u{1680}'
        || ('\u{2000}' <= c && c <= '\u{200a}') || c == '\u{2028}' || c == '\u{2029}' || c
        == '\u{202f}' || c == '\u{205f}' || c == '\u{3000}'
}

/// The text without its leading and trailing whitespace.
pub fn trim(s: &str) -> (r: String)
    ensures
        r@ == trimmed(s@),
{
    let cs = chars_of(s);
    let n = cs.len();
    let mut i: usize = 0;
    proof {
        assert(cs@.subrange(0, n as int) =~= cs@);
    }
    while i < n && whitespace(cs[i])
        invariant
            n == cs@.len(),
            i <= n,
            trim_start(cs@) == trim_start(cs@.subrange(i as int, n as int)),
        decreases n - i,
    {
        assert(cs@.subrange(i as int, n as int).drop_first() =~= cs@.subrange(i as int + 1, n as int));
        i = i + 1;
    }
    let mut j: usize = n;
    while j > i && whitespace(cs[j - 1])
        invariant
            n == cs@.len(),
            i <= j <= n,
            trim_start(cs@) == cs@.subrange(i as int, n as int),
            trimmed(cs@) == trim_end(cs@.subrange(i as int, j as int)),
        decreases j - i,
    {
        assert(cs@.subrange(i as int, j as int).drop_last() =~= cs@.subrange(i as int, j - 1));
        j = j - 1;
    }
    string_of(&cs.as_slice()[i..j])
}

/// One of the two storage backends.
pub enum Backend {
    Json(JsonStore),
    File(FileStore),
}

/// What a get of a key yields: the JSON backend gives the value; the file
/// backend gives the name of the file to read and decrypt.
pub enum GetOutcome {
    Value(String),
    ReadFile(String),
}

/// How a store request of `key` and `value` ends.
pub open spec fn store_verdict(is_json: bool, full: bool, key: Seq<char>, value: Seq<char>) -> Result<
    (),
    StoreError,
> {
    if !is_valid_key(key) {
        Err(StoreError::ValidationError)
    } else if !is_valid_value(value, is_json) {
        Err(StoreError::ValidationError)
    } else if is_json && full {
        Err(StoreError::CapacityExceededError)
    } else {
        Ok(())
    }
}

/// How a delete request of `key` ends.
pub open spec fn delete_verdict(present: bool, key: Seq<char>) -> Result<(), StoreError> {
    if !is_valid_key(key) {
        Err(StoreError::ValidationError)
    } else if !present {
        Err(StoreError::NotFoundError)
    } else {
        Ok(())
    }
}

pub open spec fn action_is(a: QueueAction, key: Seq<char>, value: Seq<char>, code: u8) -> bool {
    &&& a.kv.key@ == key
    &&& a.kv.value@ == value
    &&& a.action == code
}

impl Backend {
    pub open spec fn wf(&self) -> bool {
        match self {
            Backend::Json(s) => s.wf(),
            Backend::File(s) => s.wf(),
        }
    }

    pub open spec fn is_json(&self) -> bool {
        self is Json
    }

    /// Whether the backend refuses new entries: the JSON backend at its
    /// maximum size.
    pub open spec fn is_full(&self) -> bool {
        match self {
            Backend::Json(s) => s@.len() >= MAP_SIZE_MAX,
            Backend::File(_) => false,
        }
    }

    pub open spec fn contains(&self, key: Seq<char>) -> bool {
        match self {
            Backend::Json(s) => s@.contains_key(key),
            Backend::File(s) => s@.contains_key(key),
        }
    }

    /// Whether `key` is in the backend.
    pub fn key_exists(&self, key: &String) -> (r: bool)
        requires
            self.wf(),
        ensures
            r == self.contains(key@),
    {
        match self {
            Backend::Json(s) => s.key_exists(key),
            Backend::File(s) => s.key_exists(key),
        }
    }

    /// Whether the backend refuses new entries.
    pub fn is_store_full(&self) -> (r: bool)
        requires
            self.wf(),
        ensures
            r == self.is_full(),
    {
        match self {
            Backend::Json(s) => s.is_store_full(),
            Backend::File(_) => false,
        }
    }

    /// A store request: the trimmed key and value become a store action,
    /// unless one is malformed or the JSON backend is full.
    pub fn store_request(&self, validator: &Validator, key: String, value: String) -> (r: Result<
        QueueAction,
        StoreError,
    >)
        requires
            self.wf(),
            validator.wf(),
        ensures
            match r {
                Ok(a) => store_verdict(self.is_json(), self.is_full(), trimmed(key@), trimmed(value@))
                    is Ok && action_is(a, trimmed(key@), trimmed(value@), ACTION_STORE),
                Err(e) => store_verdict(self.is_json(), self.is_full(), trimmed(key@), trimmed(value@))
                    == Err::<(), StoreError>(e),
            },
    {
        let key = trim(key.as_str());
        let value = trim(value.as_str());
        if !validator.check_key(&key) {
            return Err(StoreError::ValidationError);
        }
        let check_length = match self {
            Backend::Json(_) => true,
            Backend::File(_) => false,
        };
        if !validator.check_value(&value, check_length) {
            return Err(StoreError::ValidationError);
        }
        if self.is_store_full() {
            return Err(StoreError::CapacityExceededError);
        }
        Ok(QueueAction { kv: KeyValuePair { key, value }, action: ACTION_STORE })
    }

    /// A delete request: the trimmed key becomes a delete action, unless it
    /// is malformed or absent.
    pub fn delete_request(&self, validator: &Validator, key: String) -> (r: Result<
        QueueAction,
        StoreError,
    >)
        requires
            self.wf(),
            validator.wf(),
        ensures
            match r {
                Ok(a) => delete_verdict(self.contains(trimmed(key@)), trimmed(key@)) is Ok && action_is(
                    a,
                    trimmed(key@),
                    Seq::empty(),
                    ACTION_DELETE,
                ),
                Err(e) => delete_verdict(self.contains(trimmed(key@)), trimmed(key@)) == Err::<
                    (),
                    StoreError,
                >(e),
            },
    {
        let key = trim(key.as_str());
        if !validator.check_key(&key) {
            return Err(StoreError::ValidationError);
        }
        if !self.key_exists(&key) {
            return Err(StoreError::NotFoundError);
        }
        Ok(QueueAction { kv: KeyValuePair { key, value: String::new() }, action: ACTION_DELETE })
    }

    /// A get request of the trimmed key: the JSON backend decrypts the value,
    /// the file backend names the file that holds it.
    pub fn get_request(&self, validator: &Validator, key: String) -> (r: Result<
        GetOutcome,
        StoreError,
    >)
        requires
            self.wf(),
            validator.wf(),
        ensures
            !is_valid_key(trimmed(key@)) ==> r == Err::<GetOutcome, StoreError>(
                StoreError::ValidationError,
            ),
            is_valid_key(trimmed(key@)) && !self.contains(trimmed(key@)) ==> r == Err::<
                GetOutcome,
                StoreError,
            >(StoreError::NotFoundError),
            is_valid_key(trimmed(key@)) ==> match self {
                Backend::Json(s) => match r {
                    Ok(GetOutcome::Value(v)) => s@.contains_key(trimmed(key@))
                        && crate::crypto::as_text(crate::crypto::opened_envelope(s@[trimmed(key@)]))
                        == Some(v@),
                    Ok(GetOutcome::ReadFile(_)) => false,
                    Err(e) => !s@.contains_key(trimmed(key@)) || (e == StoreError::CryptoError
                        && crate::crypto::as_text(crate::crypto::opened_envelope(s@[trimmed(key@)]))
                        is None),
                },
                Backend::File(s) => match r {
                    Ok(GetOutcome::ReadFile(f)) => s@.contains_key(trimmed(key@)) && f@ == s@[trimmed(
                        key@,
                    )].0,
                    Ok(GetOutcome::Value(_)) => false,
                    Err(e) => !s@.contains_key(trimmed(key@)) && e == StoreError::NotFoundError,
                },
            },
            forall|p: Seq<char>|
                #![trigger vstd::utf8::encode_utf8(p)]
                self is Json && is_valid_key(trimmed(key@)) && self->Json_0@.contains_key(trimmed(key@))
                    && crate::crypto::is_envelope_of(
                    self->Json_0@[trimmed(key@)],
                    vstd::utf8::encode_utf8(p),
                ) ==> (r matches Ok(GetOutcome::Value(v)) && v@ == p),
    {
        let key = trim(key.as_str());
        if !validator.check_key(&key) {
            return Err(StoreError::ValidationError);
        }
        match self {
            Backend::Json(s) => {
                let v = s.get_value(&key)?;
                Ok(GetOutcome::Value(v))
            },
            Backend::File(s) => {
                let f = s.locate(&key)?;
                Ok(GetOutcome::ReadFile(f))
            },
        }
    }
}

} // verus!
