//! Envelope encryption of values.
//!
//! An envelope carries a random derivation value, a random initialization
//! vector and the AES-256-GCM-SIV ciphertext of the plaintext under the key
//! derived from the derivation value.

use vstd::prelude::*;
use vstd::utf8::{decode_utf8, encode_utf8, is_ascii_chars, valid_utf8};
use aes_gcm_siv::aead::generic_array::GenericArray;
use aes_gcm_siv::aead::{Aead, NewAead};
use aes_gcm_siv::Aes256GcmSiv;
use rand::{Rng, RngCore};
use sha3::{Digest, Sha3_512};

verus! {

/// Number of characters in a derivation value.
pub const DV_LEN: usize = 32;

/// Number of bytes in an initialization vector.
pub const IV_LEN: usize = 12;

/// Number of hex digits of the digest that form the symmetric key.
pub const KEY_LEN: usize = 32;

/// Size of the alphabet that derivation values are drawn from.
pub const CHARSET_LEN: usize = 62;

/// Bytes of the authentication tag that the cipher appends.
pub const TAG_LEN: usize = 16;

/// Largest plaintext, in bytes, that the cipher accepts.
pub const PLAINTEXT_MAX: u64 = 68719476736;

// ---------------------------------------------------------------------------
// Names for what the outside primitives compute.

/// The SHA3-512 digest of the UTF-8 bytes of a text.
pub uninterp spec fn sha3_512_of(text: Seq<char>) -> Seq<u8>;

/// The AES-256-GCM-SIV ciphertext (with its tag) of a plaintext.
pub uninterp spec fn gcm_siv_sealed(key: Seq<u8>, nonce: Seq<u8>, plaintext: Seq<u8>) -> Seq<u8>;

/// What AES-256-GCM-SIV authenticated decryption of a ciphertext gives.
pub uninterp spec fn gcm_siv_opened(key: Seq<u8>, nonce: Seq<u8>, ciphertext: Seq<u8>) -> Option<
    Seq<u8>,
>;

/// The standard, padded base64 text of some bytes.
pub uninterp spec fn base64_of(data: Seq<u8>) -> Seq<char>;

/// What decoding a text as standard, padded base64 gives.
pub uninterp spec fn base64_decoded(text: Seq<char>) -> Option<Seq<u8>>;

// ---------------------------------------------------------------------------
// Specification of the derivation values and of the derived key.

pub open spec fn is_alphanumeric(c: char) -> bool {
    ('a' <= c && c <= 'z') || ('A' <= c && c <= 'Z') || ('0' <= c && c <= '9')
}

/// The `i`-th character of the alphabet `a..z A..Z 0..9`.
pub open spec fn charset_char(i: int) -> char {
    if i < 26 {
        (i + 97) as char
    } else if i < 52 {
        (i - 26 + 65) as char
    } else {
        (i - 52 + 48) as char
    }
}

/// A well-formed derivation value: `DV_LEN` alphanumeric characters.
pub open spec fn is_derivation_value(dv: Seq<char>) -> bool {
    &&& dv.len() == DV_LEN
    &&& forall|i: int| 0 <= i < dv.len() ==> is_alphanumeric(#[trigger] dv[i])
}

/// The lowercase hex digit of a value below 16.
pub open spec fn hex_digit(v: int) -> char {
    if v < 10 {
        (v + 48) as char
    } else {
        (v - 10 + 97) as char
    }
}

/// Lowercase hex text of some bytes, two digits per byte, high digit first.
pub open spec fn lower_hex(bytes: Seq<u8>) -> Seq<char>
    decreases bytes.len(),
{
    if bytes.len() == 0 {
        Seq::empty()
    } else {
        let b = bytes.last() as int;
        lower_hex(bytes.drop_last()) + seq![hex_digit(b / 16), hex_digit(b % 16)]
    }
}

/// The password derived from a derivation value: the first `KEY_LEN` hex
/// digits of its SHA3-512 digest.
pub open spec fn derived_password(dv: Seq<char>) -> Seq<char> {
    lower_hex(sha3_512_of(dv).take((KEY_LEN / 2) as int))
}

/// The symmetric key derived from a derivation value: the bytes of its
/// derived password.
pub open spec fn derived_key(dv: Seq<char>) -> Seq<u8> {
    encode_utf8(derived_password(dv))
}

// ---------------------------------------------------------------------------
// Trusted items.

/// Relies on rand's `thread_rng().gen_range(0, n)`: a value below `n`.
#[verifier::external_body]
fn random_below(n: usize) -> (r: usize)
    requires
        n > 0,
    ensures
        r < n,
{
    rand::thread_rng().gen_range(0, n)
}

/// Relies on rand's `RngCore::fill_bytes` on the thread generator.
#[verifier::external_body]
fn fill_random(buf: &mut [u8; IV_LEN]) {
    rand::thread_rng().fill_bytes(buf)
}

/// Relies on `str::chars`, collected: the characters of a text, in order.
#[verifier::external_body]
pub(crate) fn chars_of(s: &str) -> (r: Vec<char>)
    ensures
        r@ == s@,
{
    s.chars().collect()
}

/// Relies on `String: FromIterator<char>`: the text of some characters.
#[verifier::external_body]
pub(crate) fn string_of(cs: &[char]) -> (r: String)
    ensures
        r@ == cs@,
{
    cs.iter().collect()
}

/// Relies on `String::from_utf8`: succeeds exactly on valid UTF-8, which it
/// decodes.
#[verifier::external_body]
fn utf8_string(bytes: Vec<u8>) -> (r: Option<String>)
    ensures
        r is Some <==> valid_utf8(bytes@),
        r matches Some(s) ==> s@ == decode_utf8(bytes@),
{
    String::from_utf8(bytes).ok()
}

/// Relies on sha3's `Sha3_512::digest`: the 64-byte digest of the text's bytes.
#[verifier::external_body]
fn sha3_512(text: &str) -> (r: Vec<u8>)
    ensures
        r@ == sha3_512_of(text@),
        r@.len() == 64,
{
    Sha3_512::digest(text.as_bytes()).to_vec()
}

/// Relies on aes-gcm-siv's `Aes256GcmSiv::encrypt`, which fails only on a
/// plaintext longer than `P_MAX` bytes and appends a 16-byte tag to the
/// encrypted bytes.
#[verifier::external_body]
#[allow(deprecated)]
fn gcm_siv_encrypt(key: &[u8], nonce: &[u8], plaintext: &[u8]) -> (r: Option<Vec<u8>>)
    requires
        key@.len() == 32,
        nonce@.len() == IV_LEN,
    ensures
        r is Some <==> plaintext@.len() <= PLAINTEXT_MAX,
        r matches Some(c) ==> c@ == gcm_siv_sealed(key@, nonce@, plaintext@),
        r matches Some(c) ==> c@.len() == plaintext@.len() + TAG_LEN,
{
    let cipher = Aes256GcmSiv::new(GenericArray::from_slice(key));
    cipher.encrypt(GenericArray::from_slice(nonce), plaintext).ok()
}

pub open spec fn opt_bytes(r: Option<Vec<u8>>) -> Option<Seq<u8>> {
    match r {
        Some(v) => Some(v@),
        None => None,
    }
}

/// Relies on aes-gcm-siv's `Aes256GcmSiv::decrypt`: authenticated decryption,
/// which gives back the plaintext of what `encrypt` produced under the same
/// key and nonce.
#[verifier::external_body]
#[allow(deprecated)]
fn gcm_siv_decrypt(key: &[u8], nonce: &[u8], ciphertext: &[u8]) -> (r: Option<Vec<u8>>)
    requires
        key@.len() == 32,
        nonce@.len() == IV_LEN,
    ensures
        opt_bytes(r) == gcm_siv_opened(key@, nonce@, ciphertext@),
        forall|p: Seq<u8>|
            #![trigger gcm_siv_sealed(key@, nonce@, p)]
            p.len() <= PLAINTEXT_MAX && gcm_siv_sealed(key@, nonce@, p) == ciphertext@
                ==> opt_bytes(r) == Some(p),
{
    let cipher = Aes256GcmSiv::new(GenericArray::from_slice(key));
    cipher.decrypt(GenericArray::from_slice(nonce), ciphertext).ok()
}

pub open spec fn is_base64_char(c: char) -> bool {
    is_alphanumeric(c) || c == '+' || c == '/' || c == '='
}

/// Relies on `base64::encode`: standard alphabet, with padding, four
/// characters for every three bytes or part of three.
#[verifier::external_body]
pub(crate) fn base64_encode(data: &[u8]) -> (r: String)
    ensures
        r@ == base64_of(data@),
        r@.len() == 4 * ((data@.len() + 2) / 3),
        forall|i: int| 0 <= i < r@.len() ==> is_base64_char(#[trigger] r@[i]),
{
    base64::encode(data)
}

/// Relies on `base64::decode`, which reads back what `base64::encode` wrote.
#[verifier::external_body]
fn base64_decode(text: &str) -> (r: Option<Vec<u8>>)
    ensures
        opt_bytes(r) == base64_decoded(text@),
        forall|b: Seq<u8>| #[trigger] base64_of(b) == text@ ==> opt_bytes(r) == Some(b),
{
    base64::decode(text).ok()
}

} // verus!

verus! {

use crate::error::StoreError;

// ---------------------------------------------------------------------------
// Derivation values, initialization vectors and derived keys.

/// The `i`-th character of the alphabet `a..z A..Z 0..9`.
pub fn charset_at(i: usize) -> (c: char)
    requires
        i < CHARSET_LEN,
    ensures
        c == charset_char(i as int),
        is_alphanumeric(c),
{
    let v: u8 = i as u8;
    if v < 26 {
        (v + 97) as char
    } else if v < 52 {
        (v - 26 + 65) as char
    } else {
        (v - 52 + 48) as char
    }
}

/// A fresh random derivation value: `DV_LEN` characters, each drawn from
/// `a..z A..Z 0..9`.
pub fn generate_derivation_value() -> (r: String)
    ensures
        is_derivation_value(r@),
{
    let mut cs: Vec<char> = Vec::new();
    let mut i: usize = 0;
    while i < DV_LEN
        invariant
            i <= DV_LEN,
            cs@.len() == i,
            forall|k: int| 0 <= k < cs@.len() ==> is_alphanumeric(#[trigger] cs@[k]),
        decreases DV_LEN - i,
    {
        let idx = random_below(CHARSET_LEN);
        cs.push(charset_at(idx));
        i = i + 1;
    }
    string_of(cs.as_slice())
}

/// A fresh random initialization vector of `IV_LEN` bytes.
pub fn generate_initialization_vector() -> (r: [u8; IV_LEN])
    ensures
        r@.len() == IV_LEN,
{
    let mut iv: [u8; IV_LEN] = [0u8; IV_LEN];
    fill_random(&mut iv);
    iv
}

fn hex_char(v: u8) -> (c: char)
    requires
        v < 16,
    ensures
        c == hex_digit(v as int),
        '0' <= c <= 'f',
{
    if v < 10 {
        (v + 48) as char
    } else {
        (v - 10 + 97) as char
    }
}

proof fn lemma_lower_hex_len(bytes: Seq<u8>)
    ensures
        lower_hex(bytes).len() == 2 * bytes.len(),
        forall|i: int| 0 <= i < lower_hex(bytes).len() ==> '0' <= #[trigger] lower_hex(bytes)[i] <= 'f',
    decreases bytes.len(),
{
    if bytes.len() > 0 {
        lemma_lower_hex_len(bytes.drop_last());
        let b = bytes.last() as int;
        assert(0 <= b / 16 < 16 && 0 <= b % 16 < 16);
    }
}

/// The password derived from a derivation value: the first `KEY_LEN`
/// lowercase hex digits of the SHA3-512 digest of its bytes.
pub fn derive_password(derivation_value: String) -> (r: String)
    ensures
        r@ == derived_password(derivation_value@),
        r@.len() == KEY_LEN,
{
    let digest = sha3_512(derivation_value.as_str());
    let ghost prefix = digest@.take((KEY_LEN / 2) as int);
    let mut cs: Vec<char> = Vec::new();
    let mut i: usize = 0;
    while i < KEY_LEN / 2
        invariant
            i <= KEY_LEN / 2,
            digest@.len() == 64,
            prefix == digest@.take((KEY_LEN / 2) as int),
            cs@ == lower_hex(digest@.take(i as int)),
        decreases KEY_LEN / 2 - i,
    {
        let b = digest[i];
        let hi = hex_char(b / 16);
        let lo = hex_char(b % 16);
        cs.push(hi);
        cs.push(lo);
        proof {
            let t = digest@.take(i as int + 1);
            assert(t.drop_last() =~= digest@.take(i as int));
            assert(t.last() == b);
        }
        i = i + 1;
    }
    proof {
        lemma_lower_hex_len(prefix);
    }
    string_of(cs.as_slice())
}

/// The bytes of the key derived from a derivation value.
fn derive_key(derivation_value: &str) -> (r: Vec<u8>)
    ensures
        r@ == derived_key(derivation_value@),
        r@.len() == 32,
{
    let password = derive_password(derivation_value.to_owned());
    proof {
        lemma_lower_hex_len(sha3_512_of(derivation_value@).take((KEY_LEN / 2) as int));
        assert(is_ascii_chars(password@));
        vstd::utf8::is_ascii_chars_encode_utf8(password@);
    }
    let bytes = password.as_str().as_bytes();
    vstd::slice::slice_to_vec(bytes)
}

} // verus!

verus! {

// ---------------------------------------------------------------------------
// Envelopes.

/// The separator between the fields of an envelope.
pub const SEPARATOR: char = '$';

pub open spec fn separator_free(s: Seq<char>) -> bool {
    forall|i: int| 0 <= i < s.len() ==> #[trigger] s[i] != SEPARATOR
}

/// The text of three fields joined by the separator.
pub open spec fn joined(a: Seq<char>, b: Seq<char>, c: Seq<char>) -> Seq<char> {
    a + seq![SEPARATOR] + b + seq![SEPARATOR] + c
}

/// `e` consists of the fields `a`, `b`, `c`, none of which holds a separator.
pub open spec fn has_fields(e: Seq<char>, a: Seq<char>, b: Seq<char>, c: Seq<char>) -> bool {
    &&& separator_free(a)
    &&& separator_free(b)
    &&& separator_free(c)
    &&& e == joined(a, b, c)
}

pub open spec fn has_some_fields(e: Seq<char>) -> bool {
    exists|t: (Seq<char>, Seq<char>, Seq<char>)| has_fields(e, t.0, t.1, t.2)
}

/// The fields of an envelope text.
pub open spec fn fields_of(e: Seq<char>) -> (Seq<char>, Seq<char>, Seq<char>)
    recommends
        has_some_fields(e),
{
    choose|t: (Seq<char>, Seq<char>, Seq<char>)| has_fields(e, t.0, t.1, t.2)
}

/// What the three fields (derivation value, base64 IV, base64 ciphertext)
/// decrypt to.
pub open spec fn opened_fields(dv: Seq<char>, iv_text: Seq<char>, ct_text: Seq<char>) -> Option<
    Seq<u8>,
> {
    match base64_decoded(iv_text) {
        Some(iv) => if iv.len() == IV_LEN {
            match base64_decoded(ct_text) {
                Some(ct) => gcm_siv_opened(derived_key(dv), iv, ct),
                None => None,
            }
        } else {
            None
        },
        None => None,
    }
}

/// What an envelope text decrypts to: nothing unless it has exactly three
/// fields.
pub open spec fn opened_envelope(e: Seq<char>) -> Option<Seq<u8>> {
    if has_some_fields(e) {
        opened_fields(fields_of(e).0, fields_of(e).1, fields_of(e).2)
    } else {
        None
    }
}

/// Bytes read back as text: defined only on valid UTF-8.
pub open spec fn as_text(b: Option<Seq<u8>>) -> Option<Seq<char>> {
    match b {
        Some(bytes) => if valid_utf8(bytes) {
            Some(decode_utf8(bytes))
        } else {
            None
        },
        None => None,
    }
}

/// The ciphertext field that sealing `plaintext` under `dv` and `iv` gives.
pub open spec fn sealed_text(dv: Seq<char>, iv: Seq<u8>, plaintext: Seq<u8>) -> Seq<char> {
    base64_of(gcm_siv_sealed(derived_key(dv), iv, plaintext))
}

/// The ciphertext of `plaintext` under `dv` and `iv` is the plaintext's
/// length plus the tag.
pub open spec fn sealed_len_ok(dv: Seq<char>, iv: Seq<u8>, plaintext: Seq<u8>) -> bool {
    gcm_siv_sealed(derived_key(dv), iv, plaintext).len() == plaintext.len() + TAG_LEN
}

/// The envelope text of `plaintext` under `dv` and `iv`.
pub open spec fn envelope_text(dv: Seq<char>, iv: Seq<u8>, plaintext: Seq<u8>) -> Seq<char> {
    joined(dv, base64_of(iv), sealed_text(dv, iv, plaintext))
}

/// `e` is an envelope of `plaintext`, made with some derivation value and IV.
pub open spec fn is_envelope_of(e: Seq<char>, plaintext: Seq<u8>) -> bool {
    exists|dv: Seq<char>, iv: Seq<u8>|
        {
            &&& is_derivation_value(dv)
            &&& iv.len() == IV_LEN
            &&& plaintext.len() <= PLAINTEXT_MAX
            &&& sealed_len_ok(dv, iv, plaintext)
            &&& separator_free(base64_of(iv))
            &&& separator_free(sealed_text(dv, iv, plaintext))
            &&& e == #[trigger] envelope_text(dv, iv, plaintext)
        }
}

/// The separator sits in `joined(a, b, c)` right after `a` and after `b`,
/// and nowhere else.
proof fn lemma_joined_index(a: Seq<char>, b: Seq<char>, c: Seq<char>)
    ensures
        joined(a, b, c).len() == a.len() + b.len() + c.len() + 2,
        forall|i: int| 0 <= i < a.len() ==> joined(a, b, c)[i] == a[i],
        joined(a, b, c)[a.len() as int] == SEPARATOR,
        forall|i: int|
            0 <= i < b.len() ==> joined(a, b, c)[a.len() + 1 + i] == b[i],
        joined(a, b, c)[(a.len() + 1 + b.len()) as int] == SEPARATOR,
        forall|i: int|
            0 <= i < c.len() ==> joined(a, b, c)[a.len() + b.len() + 2 + i] == c[i],
{
}

/// The fields of an envelope text are unique.
pub proof fn lemma_fields_unique(
    e: Seq<char>,
    a: Seq<char>,
    b: Seq<char>,
    c: Seq<char>,
    a2: Seq<char>,
    b2: Seq<char>,
    c2: Seq<char>,
)
    requires
        has_fields(e, a, b, c),
        has_fields(e, a2, b2, c2),
    ensures
        a == a2 && b == b2 && c == c2,
{
    lemma_joined_index(a, b, c);
    lemma_joined_index(a2, b2, c2);
    if a.len() < a2.len() {
        assert(e[a.len() as int] == a2[a.len() as int]);
    } else if a2.len() < a.len() {
        assert(e[a2.len() as int] == a[a2.len() as int]);
    }
    assert(a =~= a2);
    if b.len() < b2.len() {
        assert(e[(a.len() + 1 + b.len()) as int] == b2[b.len() as int]);
    } else if b2.len() < b.len() {
        assert(e[(a.len() + 1 + b2.len()) as int] == b[b2.len() as int]);
    }
    assert(b =~= b2);
    assert(c =~= c2);
}

/// The first position at or after `from` that holds the separator, or the
/// length of `cs` if there is none.
fn find_separator(cs: &Vec<char>, from: usize) -> (r: usize)
    requires
        from <= cs@.len(),
    ensures
        from <= r <= cs@.len(),
        r < cs@.len() ==> cs@[r as int] == SEPARATOR,
        forall|i: int| from <= i < r ==> cs@[i] != SEPARATOR,
{
    let mut i = from;
    while i < cs.len()
        invariant
            from <= i <= cs@.len(),
            forall|k: int| from <= k < i ==> cs@[k] != SEPARATOR,
        decreases cs@.len() - i,
    {
        if cs[i] == SEPARATOR {
            return i;
        }
        i = i + 1;
    }
    i
}

fn slice_chars(cs: &Vec<char>, from: usize, to: usize) -> (r: String)
    requires
        from <= to <= cs@.len(),
    ensures
        r@ == cs@.subrange(from as int, to as int),
{
    string_of(&cs.as_slice()[from..to])
}

/// Splits an envelope text into its three fields.
pub fn split_envelope(e: &str) -> (r: Option<(String, String, String)>)
    ensures
        r is Some <==> has_some_fields(e@),
        r matches Some(t) ==> has_fields(e@, t.0@, t.1@, t.2@) && fields_of(e@) == (t.0@, t.1@, t.2@),
{
    let cs = chars_of(e);
    let i = find_separator(&cs, 0);
    if i == cs.len() {
        proof {
            assert forall|t: (Seq<char>, Seq<char>, Seq<char>)| !has_fields(e@, t.0, t.1, t.2) by {
                if has_fields(e@, t.0, t.1, t.2) {
                    lemma_joined_index(t.0, t.1, t.2);
                    assert(cs@[t.0.len() as int] == SEPARATOR);
                }
            }
        }
        return None;
    }
    let j = find_separator(&cs, i + 1);
    if j == cs.len() {
        proof {
            assert forall|t: (Seq<char>, Seq<char>, Seq<char>)| !has_fields(e@, t.0, t.1, t.2) by {
                if has_fields(e@, t.0, t.1, t.2) {
                    lemma_joined_index(t.0, t.1, t.2);
                    if t.0.len() < i {
                        assert(cs@[t.0.len() as int] == SEPARATOR);
                    } else if t.0.len() > i {
                        assert(cs@[i as int] == t.0[i as int]);
                    } else {
                        assert(cs@[(t.0.len() + 1 + t.1.len()) as int] == SEPARATOR);
                    }
                }
            }
        }
        return None;
    }
    let k = find_separator(&cs, j + 1);
    if k < cs.len() {
        proof {
            assert forall|t: (Seq<char>, Seq<char>, Seq<char>)| !has_fields(e@, t.0, t.1, t.2) by {
                if has_fields(e@, t.0, t.1, t.2) {
                    lemma_joined_index(t.0, t.1, t.2);
                    if t.0.len() < i {
                        assert(cs@[t.0.len() as int] == SEPARATOR);
                    } else if t.0.len() > i {
                        assert(cs@[i as int] == t.0[i as int]);
                    } else if t.0.len() + 1 + t.1.len() < j {
                        assert(cs@[(t.0.len() + 1 + t.1.len()) as int] == SEPARATOR);
                    } else if t.0.len() + 1 + t.1.len() > j {
                        assert(cs@[j as int] == t.1[j - t.0.len() - 1]);
                    } else {
                        assert(cs@[k as int] == t.2[k - t.0.len() - t.1.len() - 2]);
                    }
                }
            }
        }
        return None;
    }
    let a = slice_chars(&cs, 0, i);
    let b = slice_chars(&cs, i + 1, j);
    let c = slice_chars(&cs, j + 1, cs.len());
    proof {
        assert(e@ =~= joined(a@, b@, c@));
        let w = (a@, b@, c@);
        assert(has_fields(e@, w.0, w.1, w.2));
        assert(has_some_fields(e@));
        let t = fields_of(e@);
        lemma_fields_unique(e@, a@, b@, c@, t.0, t.1, t.2);
    }
    Some((a, b, c))
}

} // verus!

verus! {

pub open spec fn ok_bytes(r: Result<Vec<u8>, StoreError>) -> Option<Seq<u8>> {
    match r {
        Ok(b) => Some(b@),
        Err(_) => None,
    }
}

pub open spec fn ok_text(r: Result<String, StoreError>) -> Option<Seq<char>> {
    match r {
        Ok(s) => Some(s@),
        Err(_) => None,
    }
}

/// `t` is the base64 text of an IV of the right length.
pub open spec fn decodes_to_iv(t: Seq<char>) -> bool {
    match base64_decoded(t) {
        Some(b) => b.len() == IV_LEN,
        None => false,
    }
}

/// The text of three fields joined by the separator.
fn join_fields(a: &str, b: &str, c: &str) -> (r: String)
    ensures
        r@ == joined(a@, b@, c@),
{
    let mut cs = chars_of(a);
    cs.push(SEPARATOR);
    let bs = chars_of(b);
    cs.extend_from_slice(bs.as_slice());
    cs.push(SEPARATOR);
    let ds = chars_of(c);
    cs.extend_from_slice(ds.as_slice());
    proof {
        assert(cs@ =~= joined(a@, b@, c@));
    }
    string_of(cs.as_slice())
}

/// Seals `plaintext` with the key derived from `derivation_value` and the IV.
fn aes_256_gcm_siv_encrypt(derivation_value: &str, iv: &[u8], plaintext: &[u8]) -> (r: Option<
    Vec<u8>,
>)
    requires
        iv@.len() == IV_LEN,
    ensures
        r is Some <==> plaintext@.len() <= PLAINTEXT_MAX,
        r matches Some(c) ==> c@ == gcm_siv_sealed(derived_key(derivation_value@), iv@, plaintext@),
        r matches Some(c) ==> c@.len() == plaintext@.len() + TAG_LEN,
{
    let key = derive_key(derivation_value);
    gcm_siv_encrypt(key.as_slice(), iv, plaintext)
}

/// Decrypts the three fields of an envelope: the derivation value, the
/// base64 IV and the base64 ciphertext.
pub fn aes_256_gcm_siv_decrypt(derivation_value: &str, iv_text: &str, ct_text: &str) -> (r: Result<
    Vec<u8>,
    StoreError,
>)
    ensures
        match r {
            Ok(b) => opened_fields(derivation_value@, iv_text@, ct_text@) == Some(b@),
            Err(x) => x == StoreError::CryptoError && opened_fields(
                derivation_value@,
                iv_text@,
                ct_text@,
            ) is None,
        },
        forall|b: Seq<u8>|
            #[trigger] base64_of(b) == iv_text@ ==> base64_decoded(iv_text@) == Some(b),
        forall|iv: Seq<u8>, p: Seq<u8>|
            base64_decoded(iv_text@) == Some(iv) && iv.len() == IV_LEN && p.len() <= PLAINTEXT_MAX
                && ct_text@ == #[trigger] sealed_text(derivation_value@, iv, p) ==> ok_bytes(r) == Some(p),
{
    let iv = match base64_decode(iv_text) {
        Some(v) => v,
        None => {
            return Err(StoreError::CryptoError);
        },
    };
    if iv.len() != IV_LEN {
        return Err(StoreError::CryptoError);
    }
    let ct = match base64_decode(ct_text) {
        Some(v) => v,
        None => {
            return Err(StoreError::CryptoError);
        },
    };
    let key = derive_key(derivation_value);
    match gcm_siv_decrypt(key.as_slice(), iv.as_slice(), ct.as_slice()) {
        Some(p) => Ok(p),
        None => Err(StoreError::CryptoError),
    }
}

/// Encrypts a value into an envelope `derivation_value$base64(iv)$base64(ciphertext)`
/// with a fresh derivation value and IV.
pub fn json_encrypt(plaintext: String) -> (r: Result<String, StoreError>)
    ensures
        r is Ok <==> encode_utf8(plaintext@).len() <= PLAINTEXT_MAX,
        r matches Ok(e) ==> is_envelope_of(e@, encode_utf8(plaintext@)),
        r matches Err(x) ==> x == StoreError::CryptoError,
{
    let dv = generate_derivation_value();
    let iv = generate_initialization_vector();
    let ct = match aes_256_gcm_siv_encrypt(dv.as_str(), iv.as_slice(), plaintext.as_str().as_bytes()) {
        Some(c) => c,
        None => {
            return Err(StoreError::CryptoError);
        },
    };
    let iv_text = base64_encode(iv.as_slice());
    let ct_text = base64_encode(ct.as_slice());
    let e = join_fields(dv.as_str(), iv_text.as_str(), ct_text.as_str());
    proof {
        let pt = encode_utf8(plaintext@);
        assert(separator_free(dv@));
        assert(separator_free(iv_text@));
        assert(separator_free(ct_text@));
        assert(e@ == envelope_text(dv@, iv@, pt));
    }
    Ok(e)
}

/// Decrypts an envelope text back to the value it seals.
pub fn json_decrypt(ciphertext: String) -> (r: Result<String, StoreError>)
    ensures
        match r {
            Ok(s) => as_text(opened_envelope(ciphertext@)) == Some(s@),
            Err(x) => x == StoreError::CryptoError && as_text(opened_envelope(ciphertext@)) is None,
        },
        forall|p: Seq<char>|
            is_envelope_of(ciphertext@, #[trigger] encode_utf8(p)) ==> ok_text(r) == Some(p),
{
    let (dv, iv_text, ct_text) = match split_envelope(ciphertext.as_str()) {
        Some(t) => t,
        None => {
            proof {
                assert forall|p: Seq<char>| !is_envelope_of(ciphertext@, #[trigger] encode_utf8(p)) by {
                    if is_envelope_of(ciphertext@, encode_utf8(p)) {
                        let pt = encode_utf8(p);
                        let (d, iv) = choose|d: Seq<char>, iv: Seq<u8>|
                            {
                                &&& is_derivation_value(d)
                                &&& iv.len() == IV_LEN
                                &&& pt.len() <= PLAINTEXT_MAX
                                &&& sealed_len_ok(d, iv, pt)
                                &&& separator_free(base64_of(iv))
                                &&& separator_free(sealed_text(d, iv, pt))
                                &&& ciphertext@ == #[trigger] envelope_text(d, iv, pt)
                            };
                        assert(separator_free(d));
                        let w = (d, base64_of(iv), sealed_text(d, iv, pt));
                        assert(has_fields(ciphertext@, w.0, w.1, w.2));
                    }
                }
            }
            return Err(StoreError::CryptoError);
        },
    };
    let opened = aes_256_gcm_siv_decrypt(dv.as_str(), iv_text.as_str(), ct_text.as_str());
    proof {
        assert forall|p: Seq<char>| is_envelope_of(ciphertext@, #[trigger] encode_utf8(p)) implies (
        opened matches Ok(b) && b@ == encode_utf8(p)) by {
            let pt = encode_utf8(p);
            let (d, iv) = choose|d: Seq<char>, iv: Seq<u8>|
                {
                    &&& is_derivation_value(d)
                    &&& iv.len() == IV_LEN
                    &&& pt.len() <= PLAINTEXT_MAX
                    &&& sealed_len_ok(d, iv, pt)
                    &&& separator_free(base64_of(iv))
                    &&& separator_free(sealed_text(d, iv, pt))
                    &&& ciphertext@ == #[trigger] envelope_text(d, iv, pt)
                };
            assert(separator_free(d));
            lemma_fields_unique(
                ciphertext@,
                dv@,
                iv_text@,
                ct_text@,
                d,
                base64_of(iv),
                sealed_text(d, iv, pt),
            );
        }
    }
    let bytes = match opened {
        Ok(b) => b,
        Err(x) => {
            return Err(x);
        },
    };
    proof {
        assert forall|p: Seq<char>| is_envelope_of(ciphertext@, #[trigger] encode_utf8(p)) implies (
        valid_utf8(bytes@) && decode_utf8(bytes@) == p) by {
            vstd::utf8::encode_utf8_valid_utf8(p);
            vstd::utf8::encode_utf8_decode_utf8(p);
        }
    }
    match utf8_string(bytes) {
        Some(s) => Ok(s),
        None => Err(StoreError::CryptoError),
    }
}

/// Seals a value under a derivation value and IV; gives the base64 ciphertext.
pub fn seal_to_text(plaintext: &String, dv: &String, iv: &[u8]) -> (r: Result<String, StoreError>)
    requires
        iv@.len() == IV_LEN,
    ensures
        r is Ok <==> encode_utf8(plaintext@).len() <= PLAINTEXT_MAX,
        r matches Ok(t) ==> t@ == sealed_text(dv@, iv@, encode_utf8(plaintext@)),
        r is Ok ==> sealed_len_ok(dv@, iv@, encode_utf8(plaintext@)),
        r matches Err(x) ==> x == StoreError::CryptoError,
{
    let ct = match aes_256_gcm_siv_encrypt(dv.as_str(), iv, plaintext.as_str().as_bytes()) {
        Some(c) => c,
        None => {
            return Err(StoreError::CryptoError);
        },
    };
    Ok(base64_encode(ct.as_slice()))
}

/// Encrypts a value for the file backend with the given derivation value and
/// base64 IV; gives the base64 ciphertext.
pub fn file_encrypt(plaintext: String, dv: String, iv: String) -> (r: Result<String, StoreError>)
    ensures
        match r {
            Ok(t) => exists|ivb: Seq<u8>|
                {
                    &&& base64_decoded(iv@) == Some(ivb)
                    &&& ivb.len() == IV_LEN
                    &&& encode_utf8(plaintext@).len() <= PLAINTEXT_MAX
                    &&& sealed_len_ok(dv@, ivb, encode_utf8(plaintext@))
                    &&& t@ == #[trigger] sealed_text(dv@, ivb, encode_utf8(plaintext@))
                },
            Err(x) => x == StoreError::CryptoError && !(encode_utf8(plaintext@).len()
                <= PLAINTEXT_MAX && decodes_to_iv(iv@)),
        },
{
    let ivb = match base64_decode(iv.as_str()) {
        Some(v) => v,
        None => {
            return Err(StoreError::CryptoError);
        },
    };
    if ivb.len() != IV_LEN {
        return Err(StoreError::CryptoError);
    }
    let t = seal_to_text(&plaintext, &dv, ivb.as_slice());
    proof {
        if t is Ok {
            assert(t->Ok_0@ == sealed_text(dv@, ivb@, encode_utf8(plaintext@)));
        }
    }
    t
}

/// Decrypts the base64 ciphertext of the file backend with the given
/// derivation value and base64 IV.
pub fn file_decrypt(base64_ciphertext: String, dv: String, iv: String) -> (r: Result<
    String,
    StoreError,
>)
    ensures
        match r {
            Ok(s) => as_text(opened_fields(dv@, iv@, base64_ciphertext@)) == Some(s@),
            Err(x) => x == StoreError::CryptoError && as_text(
                opened_fields(dv@, iv@, base64_ciphertext@),
            ) is None,
        },
        forall|ivb: Seq<u8>, p: Seq<char>|
            base64_decoded(iv@) == Some(ivb) && ivb.len() == IV_LEN && encode_utf8(p).len()
                <= PLAINTEXT_MAX && base64_ciphertext@ == #[trigger] sealed_text(
                dv@,
                ivb,
                encode_utf8(p),
            ) ==> ok_text(r) == Some(p),
        forall|b: Seq<u8>| #[trigger] base64_of(b) == iv@ ==> base64_decoded(iv@) == Some(b),
{
    let bytes = match aes_256_gcm_siv_decrypt(dv.as_str(), iv.as_str(), base64_ciphertext.as_str()) {
        Ok(b) => b,
        Err(x) => {
            return Err(x);
        },
    };
    proof {
        assert forall|ivb: Seq<u8>, p: Seq<char>|
            base64_decoded(iv@) == Some(ivb) && ivb.len() == IV_LEN && encode_utf8(p).len()
                <= PLAINTEXT_MAX && base64_ciphertext@ == #[trigger] sealed_text(
                dv@,
                ivb,
                encode_utf8(p),
            ) implies valid_utf8(bytes@) && decode_utf8(bytes@) == p by {
            vstd::utf8::encode_utf8_valid_utf8(p);
            vstd::utf8::encode_utf8_decode_utf8(p);
        }
    }
    match utf8_string(bytes) {
        Some(s) => Ok(s),
        None => Err(StoreError::CryptoError),
    }
}

} // verus!
