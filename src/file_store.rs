//! The file backend: an in-memory index from keys to the metadata of one
//! encrypted file per value, the index itself persisted as an envelope.
//!
//! Reading and writing the files is the caller's part. A store is prepared
//! here, its file written by the caller, then committed here; a delete
//! removes the entry once the caller has deleted its file.

use vstd::prelude::*;
use vstd::utf8::encode_utf8;
use crate::crypto::{
    as_text, json_decrypt, opened_envelope, base64_encode, base64_of, generate_derivation_value, generate_initialization_vector,
    file_decrypt, is_derivation_value, is_envelope_of, json_encrypt, ok_text, opened_fields,
    sealed_len_ok, sealed_text, seal_to_text, IV_LEN, PLAINTEXT_MAX,
};
use crate::actions::{QueueAction, ACTION_DELETE, ACTION_STORE};
use crate::error::StoreError;
use crate::index::KeyIndex;
use crate::json::{
    from_json_nested, json_nested_parsed, json_nested_text, nested_pairs, text_pairs, to_json_nested,
};

verus! {

/// How many random file names a store tries before it gives up.
pub const FILENAME_ATTEMPTS: usize = 8;

/// Field names of a metadata record in the persisted index.
pub const FIELD_FILENAME: &'static str = "filename";

pub const FIELD_DERIVATION_VALUE: &'static str = "derivation_value";

pub const FIELD_INITIALIZATION_VECTOR: &'static str = "initialization_vector";

/// Where the value of a key lives and how it was sealed.
pub struct ValueMetaData {
    pub filename: String,
    pub derivation_value: String,
    pub initialization_vector: String,
}

/// A metadata record as texts: file name, derivation value, base64 IV.
pub type MetaView = (Seq<char>, Seq<char>, Seq<char>);

impl View for ValueMetaData {
    type V = MetaView;

    open spec fn view(&self) -> MetaView {
        (self.filename@, self.derivation_value@, self.initialization_vector@)
    }
}

/// No two keys of the index share a file name.
pub open spec fn filenames_distinct(m: Map<Seq<char>, MetaView>) -> bool {
    forall|k1: Seq<char>, k2: Seq<char>|
        m.contains_key(k1) && m.contains_key(k2) && k1 != k2 ==> #[trigger] m[k1].0 != #[trigger] m[k2].0
}

/// No key of the index uses the file name.
pub open spec fn filename_free(m: Map<Seq<char>, MetaView>, name: Seq<char>) -> bool {
    forall|k: Seq<char>| #[trigger] m.contains_key(k) ==> m[k].0 != name
}

/// No key's file is named like the key itself.
pub open spec fn names_differ_from_keys(m: Map<Seq<char>, MetaView>) -> bool {
    forall|k: Seq<char>| #[trigger] m.contains_key(k) ==> m[k].0 != k
}

/// A file name that a store of `key` may use: never the key itself; the
/// key's own, or a free one for a new key.
pub open spec fn filename_usable(m: Map<Seq<char>, MetaView>, key: Seq<char>, name: Seq<char>) -> bool {
    &&& name != key
    &&& if m.contains_key(key) {
        m[key].0 == name
    } else {
        filename_free(m, name)
    }
}

/// The fields of a metadata record in the persisted index.
pub open spec fn meta_fields(m: MetaView) -> Seq<(Seq<char>, Seq<char>)> {
    seq![(FIELD_FILENAME@, m.0), (FIELD_DERIVATION_VALUE@, m.1), (FIELD_INITIALIZATION_VECTOR@, m.2)]
}

/// The persisted form of index entries.
pub open spec fn meta_entries(entries: Seq<(Seq<char>, MetaView)>) -> Seq<
    (Seq<char>, Seq<(Seq<char>, Seq<char>)>),
> {
    entries.map_values(|e: (Seq<char>, MetaView)| (e.0, meta_fields(e.1)))
}

/// A store of `value` made ready: its metadata and its file's contents.
pub struct PendingStore {
    pub meta: ValueMetaData,
    pub ciphertext: String,
}

/// `meta` and `ciphertext` seal `value` with a fresh derivation value and IV.
pub open spec fn seals_value(meta: MetaView, ciphertext: Seq<char>, value: Seq<char>) -> bool {
    exists|iv: Seq<u8>|
        {
            &&& iv.len() == IV_LEN
            &&& is_derivation_value(meta.1)
            &&& encode_utf8(value).len() <= PLAINTEXT_MAX
            &&& sealed_len_ok(meta.1, iv, encode_utf8(value))
            &&& meta.2 == base64_of(iv)
            &&& ciphertext == #[trigger] sealed_text(meta.1, iv, encode_utf8(value))
        }
}

/// The file backend's index from keys to metadata.
pub struct FileStore {
    elements: KeyIndex<ValueMetaData>,
}

impl View for FileStore {
    type V = Map<Seq<char>, MetaView>;

    closed spec fn view(&self) -> Map<Seq<char>, MetaView> {
        self.elements.view()
    }
}

impl FileStore {
    pub closed spec fn wf(&self) -> bool {
        &&& self.elements.wf()
        &&& filenames_distinct(self@)
        &&& names_differ_from_keys(self@)
    }

    /// The entries, in the order in which their keys were first stored.
    pub closed spec fn entries(&self) -> Seq<(Seq<char>, MetaView)> {
        self.elements.pairs()
    }

    /// An empty index.
    pub fn new() -> (r: FileStore)
        ensures
            r.wf(),
            r@ == Map::<Seq<char>, MetaView>::empty(),
    {
        FileStore { elements: KeyIndex::new() }
    }

    /// Number of entries.
    pub fn len(&self) -> (r: usize)
        requires
            self.wf(),
        ensures
            r == self@.len(),
    {
        self.elements.len()
    }

    /// Whether `key` is in the index.
    pub fn key_exists(&self, key: &String) -> (r: bool)
        requires
            self.wf(),
        ensures
            r == self@.contains_key(key@),
    {
        self.elements.contains_key(key)
    }

    /// The name of the file that holds the value of `key`.
    pub fn locate(&self, key: &String) -> (r: Result<String, StoreError>)
        requires
            self.wf(),
        ensures
            match r {
                Ok(f) => self@.contains_key(key@) && f@ == self@[key@].0,
                Err(e) => e == StoreError::NotFoundError && !self@.contains_key(key@),
            },
    {
        match self.elements.get(key) {
            Some(m) => Ok(m.filename.clone()),
            None => Err(StoreError::NotFoundError),
        }
    }

    /// The value of `key`, decrypted from `base64_ciphertext`, the contents
    /// of its file.
    pub fn get_value(&self, key: &String, base64_ciphertext: String) -> (r: Result<String, StoreError>)
        requires
            self.wf(),
        ensures
            match r {
                Ok(s) => self@.contains_key(key@) && as_text(
                    opened_fields(self@[key@].1, self@[key@].2, base64_ciphertext@),
                ) == Some(s@),
                Err(e) => if self@.contains_key(key@) {
                    e == StoreError::CryptoError && as_text(
                        opened_fields(self@[key@].1, self@[key@].2, base64_ciphertext@),
                    ) is None
                } else {
                    e == StoreError::NotFoundError
                },
            },
            forall|p: Seq<char>|
                self@.contains_key(key@) && #[trigger] seals_value(
                    self@[key@],
                    base64_ciphertext@,
                    p,
                ) ==> ok_text(r) == Some(p),
    {
        match self.elements.get(key) {
            Some(m) => {
                let r = file_decrypt(
                    base64_ciphertext,
                    m.derivation_value.clone(),
                    m.initialization_vector.clone(),
                );
                proof {
                    assert forall|p: Seq<char>|
                        self@.contains_key(key@) && #[trigger] seals_value(
                            self@[key@],
                            base64_ciphertext@,
                            p,
                        ) implies ok_text(r) == Some(p) by {
                        let iv = choose|iv: Seq<u8>|
                            {
                                &&& iv.len() == IV_LEN
                                &&& is_derivation_value(self@[key@].1)
                                &&& encode_utf8(p).len() <= PLAINTEXT_MAX
                                &&& sealed_len_ok(self@[key@].1, iv, encode_utf8(p))
                                &&& self@[key@].2 == base64_of(iv)
                                &&& base64_ciphertext@ == #[trigger] sealed_text(
                                    self@[key@].1,
                                    iv,
                                    encode_utf8(p),
                                )
                            };
                        assert(base64_of(iv) == m.initialization_vector@);
                    }
                }
                r
            },
            None => Err(StoreError::NotFoundError),
        }
    }

    /// Whether some key's file has the name `name`.
    pub fn filename_in_use(&self, name: &String) -> (r: bool)
        requires
            self.wf(),
        ensures
            r == !filename_free(self@, name@),
    {
        proof {
            self.elements.lemma_view();
        }
        let n = self.elements.len();
        let mut i: usize = 0;
        while i < n
            invariant
                self.wf(),
                n == self.entries().len(),
                i <= n,
                forall|j: int| 0 <= j < i ==> #[trigger] self.entries()[j].1.0 != name@,
            decreases n - i,
        {
            let (_, m) = self.elements.entry(i);
            if m.filename == *name {
                proof {
                    self.elements.lemma_view();
                    let k = self.elements.pairs()[i as int].0;
                    assert(self.elements.pairs()[i as int].0 == k);
                    assert(self@.contains_key(k));
                    assert(self@[k] == self.elements.pairs()[i as int].1);
                    assert(self@[k].0 == name@);
                }
                return true;
            }
            i = i + 1;
        }
        proof {
            assert forall|k: Seq<char>| #[trigger] self@.contains_key(k) implies self@[k].0 != name@ by {
                let j = choose|j: int| 0 <= j < self.entries().len() && #[trigger] self.entries()[j].0 == k;
                assert(self@[self.entries()[j].0] == self.entries()[j].1);
            }
        }
        false
    }

    /// A random file name that no key uses yet and that differs from `key`.
    fn fresh_filename(&self, key: &String) -> (r: Result<String, StoreError>)
        requires
            self.wf(),
        ensures
            match r {
                Ok(f) => filename_free(self@, f@) && f@ != key@ && is_derivation_value(f@),
                Err(e) => e == StoreError::IOError,
            },
    {
        let mut attempt: usize = 0;
        while attempt < FILENAME_ATTEMPTS
            invariant
                self.wf(),
            decreases FILENAME_ATTEMPTS - attempt,
        {
            let name = generate_derivation_value();
            if name != *key && !self.filename_in_use(&name) {
                return Ok(name);
            }
            attempt = attempt + 1;
        }
        Err(StoreError::IOError)
    }

    /// Makes a store of `value` under `key` ready: a fresh derivation value
    /// and IV, the value sealed with them, and the key's file name (a new
    /// random one for a new key).
    pub fn prepare_store(&self, key: &String, value: &String) -> (r: Result<PendingStore, StoreError>)
        requires
            self.wf(),
        ensures
            match r {
                Ok(p) => filename_usable(self@, key@, p.meta.filename@) && seals_value(
                    p.meta@,
                    p.ciphertext@,
                    value@,
                ),
                Err(e) => (e == StoreError::CryptoError && encode_utf8(value@).len() > PLAINTEXT_MAX)
                    || (e == StoreError::IOError && !self@.contains_key(key@)),
            },
            self@.contains_key(key@) && encode_utf8(value@).len() <= PLAINTEXT_MAX ==> r is Ok,
    {
        let derivation_value = generate_derivation_value();
        let iv = generate_initialization_vector();
        let iv_text = base64_encode(iv.as_slice());
        let ciphertext = match seal_to_text(value, &derivation_value, iv.as_slice()) {
            Ok(c) => c,
            Err(e) => {
                return Err(e);
            },
        };
        let filename = match self.elements.get(key) {
            Some(m) => m.filename.clone(),
            None => match self.fresh_filename(key) {
                Ok(f) => f,
                Err(e) => {
                    return Err(e);
                },
            },
        };
        let meta = ValueMetaData { filename, derivation_value, initialization_vector: iv_text };
        proof {
            assert(ciphertext@ == sealed_text(meta@.1, iv@, encode_utf8(value@)));
        }
        Ok(PendingStore { meta, ciphertext })
    }

    /// Records the metadata of a stored value once its file is written.
    pub fn commit_store(&mut self, key: String, meta: ValueMetaData)
        requires
            old(self).wf(),
            filename_usable(old(self)@, key@, meta.filename@),
        ensures
            final(self).wf(),
            final(self)@ == old(self)@.insert(key@, meta@),
    {
        let ghost kv = key@;
        let ghost mv = meta@;
        self.elements.insert(key, meta);
        proof {
            assert forall|k1: Seq<char>, k2: Seq<char>|
                self@.contains_key(k1) && self@.contains_key(k2) && k1 != k2 implies #[trigger] self@[k1].0
                != #[trigger] self@[k2].0 by {
                if k1 == kv {
                    assert(old(self)@.contains_key(k2));
                } else if k2 == kv {
                    assert(old(self)@.contains_key(k1));
                }
            }
        }
    }

    /// Removes `key` once its file is deleted; tells whether it was there.
    pub fn remove_entry(&mut self, key: &String) -> (r: bool)
        requires
            old(self).wf(),
        ensures
            final(self).wf(),
            r == old(self)@.contains_key(key@),
            final(self)@ == old(self)@.remove(key@),
    {
        self.elements.remove(key)
    }

    /// The JSON text of the index: each key with its metadata record.
    pub fn meta_data_json(&self) -> (r: String)
        requires
            self.wf(),
        ensures
            r@ == json_nested_text(meta_entries(self.entries())),
    {
        let mut entries: Vec<(String, Vec<(String, String)>)> = Vec::new();
        let n = self.elements.len();
        let mut i: usize = 0;
        while i < n
            invariant
                self.wf(),
                n == self.entries().len(),
                i <= n,
                nested_pairs(entries@) =~= meta_entries(self.entries()).take(i as int),
            decreases n - i,
        {
            let (k, m) = self.elements.entry(i);
            let mut fields: Vec<(String, String)> = Vec::new();
            fields.push((String::from_str(FIELD_FILENAME), m.filename.clone()));
            fields.push((String::from_str(FIELD_DERIVATION_VALUE), m.derivation_value.clone()));
            fields.push(
                (String::from_str(FIELD_INITIALIZATION_VECTOR), m.initialization_vector.clone()),
            );
            let ghost before = entries@;
            let kc = k.clone();
            proof {
                assert(text_pairs(fields@) =~= meta_fields(m@));
            }
            entries.push((kc, fields));
            proof {
                assert(nested_pairs(entries@).drop_last() =~= nested_pairs(before));
                assert(nested_pairs(entries@) =~= meta_entries(self.entries()).take(i as int + 1));
            }
            i = i + 1;
        }
        proof {
            assert(meta_entries(self.entries()).take(n as int) =~= meta_entries(self.entries()));
        }
        match to_json_nested(&entries) {
            Some(t) => t,
            None => String::new(),
        }
    }

    /// The persisted index: its JSON text sealed in an envelope of its own.
    pub fn save_meta_data_to_file(&self) -> (r: Result<String, StoreError>)
        requires
            self.wf(),
        ensures
            r is Ok <==> encode_utf8(json_nested_text(meta_entries(self.entries()))).len()
                <= PLAINTEXT_MAX,
            r matches Ok(e) ==> is_envelope_of(
                e@,
                encode_utf8(json_nested_text(meta_entries(self.entries()))),
            ),
            r matches Err(x) ==> x == StoreError::CryptoError,
    {
        let text = self.meta_data_json();
        json_encrypt(text)
    }
}

/// The value of the first field named `name`.
pub open spec fn field_of(fields: Seq<(Seq<char>, Seq<char>)>, name: Seq<char>) -> Option<Seq<char>>
    decreases fields.len(),
{
    if fields.len() == 0 {
        None
    } else if fields[0].0 == name {
        Some(fields[0].1)
    } else {
        field_of(fields.drop_first(), name)
    }
}

/// The metadata record that persisted fields hold, if all three are there.
pub open spec fn meta_of(fields: Seq<(Seq<char>, Seq<char>)>) -> Option<MetaView> {
    match (
        field_of(fields, FIELD_FILENAME@),
        field_of(fields, FIELD_DERIVATION_VALUE@),
        field_of(fields, FIELD_INITIALIZATION_VECTOR@),
    ) {
        (Some(f), Some(d), Some(i)) => Some((f, d, i)),
        _ => None,
    }
}

/// The index that persisted entries describe: none if a record lacks a
/// field, if a key or a file name comes twice, or if a file is named like
/// its key.
pub open spec fn loaded_index(entries: Seq<(Seq<char>, Seq<(Seq<char>, Seq<char>)>)>) -> Option<
    Map<Seq<char>, MetaView>,
>
    decreases entries.len(),
{
    if entries.len() == 0 {
        Some(Map::empty())
    } else {
        match loaded_index(entries.drop_last()) {
            Some(m) => match meta_of(entries.last().1) {
                Some(meta) => if !m.contains_key(entries.last().0) && meta.0 != entries.last().0
                    && filename_free(m, meta.0) {
                    Some(m.insert(entries.last().0, meta))
                } else {
                    None
                },
                None => None,
            },
            None => None,
        }
    }
}

/// The index that a persisted index text holds.
pub open spec fn loaded_meta(t: Seq<char>) -> Option<Map<Seq<char>, MetaView>> {
    match as_text(opened_envelope(t)) {
        Some(j) => match json_nested_parsed(j) {
            Some(p) => loaded_index(p),
            None => None,
        },
        None => None,
    }
}

proof fn lemma_loaded_index_fails(
    entries: Seq<(Seq<char>, Seq<(Seq<char>, Seq<char>)>)>,
    i: int,
)
    requires
        0 <= i <= entries.len(),
        loaded_index(entries.take(i)) is None,
    ensures
        loaded_index(entries) is None,
    decreases entries.len() - i,
{
    if i < entries.len() {
        assert(entries.take(i + 1).drop_last() =~= entries.take(i));
        lemma_loaded_index_fails(entries, i + 1);
    } else {
        assert(entries.take(i) =~= entries);
    }
}

/// The value of the first field named `name`.
fn find_field(fields: &Vec<(String, String)>, name: &str) -> (r: Option<String>)
    ensures
        match r {
            Some(v) => field_of(text_pairs(fields@), name@) == Some(v@),
            None => field_of(text_pairs(fields@), name@) is None,
        },
{
    let ghost all = text_pairs(fields@);
    assert(all.subrange(0, all.len() as int) =~= all);
    let mut i: usize = 0;
    while i < fields.len()
        invariant
            i <= fields@.len(),
            all == text_pairs(fields@),
            field_of(all, name@) == field_of(all.subrange(i as int, all.len() as int), name@),
        decreases fields@.len() - i,
    {
        let ghost rest = all.subrange(i as int, all.len() as int);
        assert(rest[0] == (fields@[i as int].0@, fields@[i as int].1@));
        if str_equal(fields[i].0.as_str(), name) {
            return Some(fields[i].1.clone());
        }
        assert(rest.drop_first() =~= all.subrange(i as int + 1, all.len() as int));
        i = i + 1;
    }
    None
}

/// Whether two texts are equal.
fn str_equal(a: &str, b: &str) -> (r: bool)
    ensures
        r == (a@ == b@),
{
    let x = crate::crypto::chars_of(a);
    let y = crate::crypto::chars_of(b);
    if x.len() != y.len() {
        return false;
    }
    let mut i: usize = 0;
    while i < x.len()
        invariant
            x@ == a@,
            y@ == b@,
            x@.len() == y@.len(),
            i <= x@.len(),
            forall|j: int| 0 <= j < i ==> x@[j] == y@[j],
        decreases x@.len() - i,
    {
        if x[i] != y[i] {
            return false;
        }
        i = i + 1;
    }
    assert(x@ =~= y@);
    true
}

/// Loads the file backend's index from the contents of its metadata file,
/// `None` when there is no file: then the index starts empty.
pub fn load_meta_data_from_file(contents: Option<String>) -> (r: Result<FileStore, StoreError>)
    ensures
        match contents {
            None => (r matches Ok(s) && s.wf() && s@ == Map::<Seq<char>, MetaView>::empty()),
            Some(t) => match r {
                Ok(s) => s.wf() && loaded_meta(t@) == Some(s@),
                Err(e) => e == StoreError::LoadError && loaded_meta(t@) is None,
            },
        },
{
    let ghost orig = contents;
    let text = match contents {
        None => {
            return Ok(FileStore::new());
        },
        Some(t) => t,
    };
    let ghost t_view = text@;
    let json = match json_decrypt(text) {
        Ok(j) => j,
        Err(_) => {
            return Err(StoreError::LoadError);
        },
    };
    let entries = match from_json_nested(json.as_str()) {
        Some(e) => e,
        None => {
            return Err(StoreError::LoadError);
        },
    };
    let ghost all = nested_pairs(entries@);
    let mut store = FileStore::new();
    let n = entries.len();
    let mut i: usize = 0;
    while i < n
        invariant
            store.wf(),
            n == entries@.len(),
            i <= n,
            all == nested_pairs(entries@),
            loaded_index(all.take(i as int)) == Some(store@),
            orig matches Some(t) && t@ == t_view,
            contents == orig,
            loaded_meta(t_view) == loaded_index(all),
        decreases n - i,
    {
        let (key, fields) = (&entries[i].0, &entries[i].1);
        let ghost prefix = all.take(i as int + 1);
        proof {
            assert(prefix.drop_last() =~= all.take(i as int));
            assert(prefix.last() == (key@, text_pairs(fields@)));
        }
        let filename = find_field(fields, FIELD_FILENAME);
        let derivation_value = find_field(fields, FIELD_DERIVATION_VALUE);
        let initialization_vector = find_field(fields, FIELD_INITIALIZATION_VECTOR);
        let meta = match (filename, derivation_value, initialization_vector) {
            (Some(f), Some(d), Some(v)) => ValueMetaData {
                filename: f,
                derivation_value: d,
                initialization_vector: v,
            },
            _ => {
                proof {
                    lemma_loaded_index_fails(all, i as int + 1);
                }
                return Err(StoreError::LoadError);
            },
        };
        if store.key_exists(key) || meta.filename == *key || store.filename_in_use(&meta.filename) {
            proof {
                lemma_loaded_index_fails(all, i as int + 1);
            }
            return Err(StoreError::LoadError);
        }
        store.commit_store(key.clone(), meta);
        i = i + 1;
    }
    proof {
        assert(all.take(n as int) =~= all);
    }
    Ok(store)
}

/// The file work that an action needs before the index may change.
pub enum FileWork {
    /// Write `ciphertext` to the file `meta.filename`, then record `meta`.
    Write(PendingStore),
    /// Delete the file of that name, then drop the key.
    Remove(String),
}

impl FileStore {
    /// Plans an action: a store is prepared, a delete looks up the key's
    /// file. Unknown opcodes are refused.
    pub fn plan_action(&self, action: &QueueAction) -> (r: Result<FileWork, StoreError>)
        requires
            self.wf(),
        ensures
            action.action != ACTION_STORE && action.action != ACTION_DELETE ==> r == Err::<
                FileWork,
                StoreError,
            >(StoreError::ValidationError),
            action.action == ACTION_STORE ==> match r {
                Ok(FileWork::Write(p)) => filename_usable(self@, action.kv.key@, p.meta.filename@)
                    && seals_value(p.meta@, p.ciphertext@, action.kv.value@),
                Ok(FileWork::Remove(_)) => false,
                Err(e) => (e == StoreError::CryptoError && encode_utf8(action.kv.value@).len()
                    > PLAINTEXT_MAX) || (e == StoreError::IOError && !self@.contains_key(
                    action.kv.key@,
                )),
            },
            action.action == ACTION_DELETE ==> match r {
                Ok(FileWork::Remove(f)) => self@.contains_key(action.kv.key@) && f@ == self@[action.kv.key@].0,
                Ok(FileWork::Write(_)) => false,
                Err(e) => e == StoreError::NotFoundError && !self@.contains_key(action.kv.key@),
            },
    {
        if action.action == ACTION_STORE {
            let p = self.prepare_store(&action.kv.key, &action.kv.value)?;
            Ok(FileWork::Write(p))
        } else if action.action == ACTION_DELETE {
            let f = self.locate(&action.kv.key)?;
            Ok(FileWork::Remove(f))
        } else {
            Err(StoreError::ValidationError)
        }
    }

    /// Completes planned work once the file was written or deleted
    /// (`succeeded`): the index records the stored metadata or drops the key.
    /// When the file work failed, the index is left as it was.
    pub fn complete_action(&mut self, key: String, work: FileWork, succeeded: bool) -> (r: Result<
        (),
        StoreError,
    >)
        requires
            old(self).wf(),
            work matches FileWork::Write(p) ==> filename_usable(old(self)@, key@, p.meta.filename@),
        ensures
            final(self).wf(),
            !succeeded ==> r == Err::<(), StoreError>(StoreError::IOError) && final(self)@ == old(
                self,
            )@,
            succeeded ==> r is Ok && match work {
                FileWork::Write(p) => final(self)@ == old(self)@.insert(key@, p.meta@),
                FileWork::Remove(_) => final(self)@ == old(self)@.remove(key@),
            },
    {
        if !succeeded {
            return Err(StoreError::IOError);
        }
        match work {
            FileWork::Write(p) => {
                self.commit_store(key, p.meta);
            },
            FileWork::Remove(_) => {
                self.remove_entry(&key);
            },
        }
        Ok(())
    }
}

} // verus!
