//! Checks on the shape of keys, values, paths, addresses and ports.

use vstd::prelude::*;
use vstd::string::*;
use crate::regex_pattern::{regex_matches, CompiledPattern};

verus! {

/// Fewest characters in a key.
pub const KEY_LEN_MIN: usize = 1;

/// Most characters in a key.
pub const KEY_LEN_MAX: usize = 32;

/// Fewest characters in a value of the JSON backend.
pub const VALUE_LEN_MIN: usize = 1;

/// Most characters in a value of the JSON backend.
pub const VALUE_LEN_MAX: usize = 1024;

/// Keys consist of word characters.
pub const KEY_PATTERN: &'static str = r"^\w*$";

/// Values consist of characters of the base64 alphabet.
pub const VALUE_PATTERN: &'static str = r"^[\w+/=]*$";

/// Paths consist of word characters and `/ \ . : -`.
pub const PATH_PATTERN: &'static str = r"^[\w/\\.:-]*$";

/// Ports consist of digits.
pub const PORT_PATTERN: &'static str = r"^(\d*)$";

/// IPv4 addresses are four groups of one to three digits, joined by dots.
pub const IPV4_PATTERN: &'static str = r"^(\d{1,3})\.(\d{1,3})\.(\d{1,3})\.(\d{1,3})$";

/// Whether `text` matches `pattern`, compiling it first.
fn pattern_matches(pattern: &str, text: &str) -> (r: bool)
    ensures
        r == regex_matches(pattern@, text@),
{
    match CompiledPattern::compile(pattern) {
        Some(p) => p.is_match(text),
        None => false,
    }
}

pub open spec fn is_valid_key(k: Seq<char>) -> bool {
    &&& KEY_LEN_MIN <= k.len() <= KEY_LEN_MAX
    &&& regex_matches(KEY_PATTERN@, k)
}

/// A value of the base64 alphabet; with `check_length`, of 1 to 1024
/// characters.
pub open spec fn is_valid_value(v: Seq<char>, check_length: bool) -> bool {
    &&& (check_length ==> VALUE_LEN_MIN <= v.len() <= VALUE_LEN_MAX)
    &&& regex_matches(VALUE_PATTERN@, v)
}

pub open spec fn is_valid_path(p: Seq<char>) -> bool {
    regex_matches(PATH_PATTERN@, p)
}

/// Whether `input` is a key: 1 to 32 word characters.
pub fn validate_key(input: String) -> (r: bool)
    ensures
        r == is_valid_key(input@),
{
    let n = input.as_str().unicode_len();
    if n < KEY_LEN_MIN || n > KEY_LEN_MAX {
        return false;
    }
    pattern_matches(KEY_PATTERN, input.as_str())
}

/// Whether `input` is a value: base64 alphabet characters, and with
/// `check_length` 1 to 1024 of them.
pub fn validate_value(input: String, check_length: bool) -> (r: bool)
    ensures
        r == is_valid_value(input@, check_length),
{
    if check_length {
        let n = input.as_str().unicode_len();
        if n < VALUE_LEN_MIN || n > VALUE_LEN_MAX {
            return false;
        }
    }
    pattern_matches(VALUE_PATTERN, input.as_str())
}

/// Whether `input` is a storage path: word characters and `/ \ . : -`.
pub fn validate_path(input: String) -> (r: bool)
    ensures
        r == is_valid_path(input@),
{
    pattern_matches(PATH_PATTERN, input.as_str())
}

pub open spec fn is_ascii_digit(c: char) -> bool {
    '0' <= c <= '9'
}

/// The number that a text of ASCII digits denotes.
pub open spec fn digits_value(s: Seq<char>) -> int
    decreases s.len(),
{
    if s.len() == 0 {
        0
    } else {
        digits_value(s.drop_last()) * 10 + (s.last() as int - '0' as int)
    }
}

pub open spec fn all_digits(s: Seq<char>) -> bool {
    forall|i: int| 0 <= i < s.len() ==> is_ascii_digit(#[trigger] s[i])
}

/// A TCP port other than 0 and 65535, in decimal: 1 to 5 digits.
pub open spec fn is_valid_port(s: Seq<char>) -> bool {
    &&& 1 <= s.len() <= 5
    &&& regex_matches(PORT_PATTERN@, s)
    &&& all_digits(s)
    &&& 0 < digits_value(s) < 65535
}

pub open spec fn pow10(n: nat) -> int
    decreases n,
{
    if n == 0 {
        1
    } else {
        10 * pow10((n - 1) as nat)
    }
}

proof fn lemma_digits_value_bound(s: Seq<char>)
    requires
        all_digits(s),
    ensures
        0 <= digits_value(s) < pow10(s.len()),
    decreases s.len(),
{
    if s.len() > 0 {
        let init = s.drop_last();
        assert(all_digits(init)) by {
            assert forall|i: int| 0 <= i < init.len() implies is_ascii_digit(#[trigger] init[i]) by {
                assert(init[i] == s[i]);
            }
        }
        lemma_digits_value_bound(init);
        assert(is_ascii_digit(s[s.len() - 1]));
        let d = s.last() as int - '0' as int;
        let p = pow10(init.len());
        let v = digits_value(init);
        assert(0 <= d < 10);
        assert(v * 10 + d < 10 * p) by (nonlinear_arith)
            requires
                0 <= v < p,
                0 <= d < 10,
        ;
        assert(0 <= v * 10) by (nonlinear_arith)
            requires
                0 <= v,
        ;
    }
}

/// The value of the digits of `cs` from `from` to `to`, `None` if one of them
/// is not an ASCII digit.
fn parse_digits(cs: &Vec<char>, from: usize, to: usize) -> (r: Option<u32>)
    requires
        from <= to <= cs@.len(),
        to - from <= 5,
    ensures
        match r {
            Some(v) => all_digits(cs@.subrange(from as int, to as int)) && v == digits_value(
                cs@.subrange(from as int, to as int),
            ),
            None => !all_digits(cs@.subrange(from as int, to as int)),
        },
{
    let mut v: u32 = 0;
    let mut i = from;
    while i < to
        invariant
            from <= i <= to <= cs@.len(),
            to - from <= 5,
            all_digits(cs@.subrange(from as int, i as int)),
            v == digits_value(cs@.subrange(from as int, i as int)),
        decreases to - i,
    {
        let c = cs[i];
        if !('0' <= c && c <= '9') {
            proof {
                assert(cs@.subrange(from as int, to as int)[i - from] == c);
            }
            return None;
        }
        proof {
            let s = cs@.subrange(from as int, i as int + 1);
            assert(s.drop_last() =~= cs@.subrange(from as int, i as int));
            lemma_digits_value_bound(s.drop_last());
            reveal_with_fuel(pow10, 5);
            assert(s.drop_last().len() <= 4);
            assert(v < 10000);
        }
        v = v * 10 + (c as u32 - '0' as u32);
        i = i + 1;
        proof {
            assert forall|k: int| 0 <= k < i - from implies is_ascii_digit(
                #[trigger] cs@.subrange(from as int, i as int)[k],
            ) by {
                if k < i - 1 - from {
                    assert(cs@.subrange(from as int, i as int)[k] == cs@.subrange(
                        from as int,
                        i - 1,
                    )[k]);
                }
            }
        }
    }
    Some(v)
}

/// Whether `input` is a TCP port number from 1 to 65534.
pub fn validate_port(input: String) -> (r: bool)
    ensures
        r == is_valid_port(input@),
{
    let cs = crate::crypto::chars_of(input.as_str());
    if cs.len() < 1 || cs.len() > 5 {
        return false;
    }
    if !pattern_matches(PORT_PATTERN, input.as_str()) {
        return false;
    }
    proof {
        assert(cs@.subrange(0, cs@.len() as int) =~= cs@);
    }
    match parse_digits(&cs, 0, cs.len()) {
        Some(v) => 0 < v && v < 65535,
        None => false,
    }
}

/// The pieces of a text between dots, in order.
pub open spec fn split_dots(s: Seq<char>) -> Seq<Seq<char>>
    decreases s.len(),
{
    if s.len() == 0 {
        seq![Seq::empty()]
    } else {
        let r = split_dots(s.drop_last());
        if s.last() == '.' {
            r.push(Seq::empty())
        } else {
            r.update(r.len() - 1, r.last().push(s.last()))
        }
    }
}

/// One to three ASCII digits denoting at most 255.
pub open spec fn is_octet(s: Seq<char>) -> bool {
    &&& 1 <= s.len() <= 3
    &&& all_digits(s)
    &&& digits_value(s) <= 255
}

/// An IPv4 address in dotted notation: four octets, 7 to 15 characters.
pub open spec fn is_valid_ipv4(s: Seq<char>) -> bool {
    &&& 7 <= s.len() <= 15
    &&& regex_matches(IPV4_PATTERN@, s)
    &&& split_dots(s).len() == 4
    &&& forall|i: int| 0 <= i < 4 ==> is_octet(#[trigger] split_dots(s)[i])
}

pub open spec fn char_rows(v: Seq<Vec<char>>) -> Seq<Seq<char>> {
    v.map_values(|r: Vec<char>| r@)
}

/// Whether `input` is an IPv4 address in dotted notation.
pub fn validate_ipv4(input: String) -> (r: bool)
    ensures
        r == is_valid_ipv4(input@),
{
    let cs = crate::crypto::chars_of(input.as_str());
    if cs.len() < 7 || cs.len() > 15 {
        return false;
    }
    if !pattern_matches(IPV4_PATTERN, input.as_str()) {
        return false;
    }
    let mut segs: Vec<Vec<char>> = Vec::new();
    segs.push(Vec::new());
    let mut i: usize = 0;
    proof {
        assert(char_rows(segs@) =~= split_dots(cs@.take(0)));
    }
    while i < cs.len()
        invariant
            i <= cs@.len(),
            cs@ == input@,
            segs@.len() >= 1,
            char_rows(segs@) =~= split_dots(cs@.take(i as int)),
        decreases cs@.len() - i,
    {
        let c = cs[i];
        let ghost before = char_rows(segs@);
        proof {
            assert(cs@.take(i as int + 1).drop_last() =~= cs@.take(i as int));
            assert(cs@.take(i as int + 1).last() == c);
        }
        if c == '.' {
            segs.push(Vec::new());
            proof {
                assert(char_rows(segs@) =~= before.push(Seq::empty()));
            }
        } else {
            let mut last = segs.pop().unwrap();
            last.push(c);
            segs.push(last);
            proof {
                assert(char_rows(segs@) =~= before.update(before.len() - 1, before.last().push(c)));
            }
        }
        i = i + 1;
    }
    proof {
        assert(cs@.take(cs@.len() as int) =~= cs@);
    }
    if segs.len() != 4 {
        return false;
    }
    let mut k: usize = 0;
    while k < 4
        invariant
            k <= 4,
            segs@.len() == 4,
            cs@ == input@,
            char_rows(segs@) =~= split_dots(cs@),
            forall|j: int| 0 <= j < k ==> is_octet(#[trigger] split_dots(cs@)[j]),
        decreases 4 - k,
    {
        let seg = &segs[k];
        assert(seg@ == split_dots(cs@)[k as int]);
        if seg.len() < 1 || seg.len() > 3 {
            return false;
        }
        proof {
            assert(seg@.subrange(0, seg@.len() as int) =~= seg@);
        }
        match parse_digits(seg, 0, seg.len()) {
            Some(v) => {
                if v > 255 {
                    return false;
                }
            },
            None => {
                return false;
            },
        }
        k = k + 1;
    }
    true
}

/// Whether `text` matches the compiled form of `pattern`, if it compiled.
pub open spec fn compiled_for(p: Option<CompiledPattern>, pattern: Seq<char>) -> bool {
    match p {
        Some(c) => c.source() == pattern,
        None => forall|t: Seq<char>| !#[trigger] regex_matches(pattern, t),
    }
}

fn match_compiled(p: &Option<CompiledPattern>, text: &str) -> (r: bool)
    ensures
        forall|pattern: Seq<char>| compiled_for(*p, pattern) ==> r == regex_matches(pattern, text@),
{
    match p {
        Some(c) => c.is_match(text),
        None => false,
    }
}

/// The compiled patterns of keys, values and paths.
pub struct Validator {
    key: Option<CompiledPattern>,
    value: Option<CompiledPattern>,
    path: Option<CompiledPattern>,
}

impl Validator {
    pub closed spec fn wf(&self) -> bool {
        &&& compiled_for(self.key, KEY_PATTERN@)
        &&& compiled_for(self.value, VALUE_PATTERN@)
        &&& compiled_for(self.path, PATH_PATTERN@)
    }

    /// Compiles the three patterns once.
    pub fn new() -> (r: Validator)
        ensures
            r.wf(),
    {
        let key = CompiledPattern::compile(KEY_PATTERN);
        let value = CompiledPattern::compile(VALUE_PATTERN);
        let path = CompiledPattern::compile(PATH_PATTERN);
        Validator { key, value, path }
    }

    /// Whether `input` is a key: 1 to 32 word characters.
    pub fn check_key(&self, input: &String) -> (r: bool)
        requires
            self.wf(),
        ensures
            r == is_valid_key(input@),
    {
        let n = input.as_str().unicode_len();
        if n < KEY_LEN_MIN || n > KEY_LEN_MAX {
            return false;
        }
        match_compiled(&self.key, input.as_str())
    }

    /// Whether `input` is a value: base64 alphabet characters, and with
    /// `check_length` 1 to 1024 of them.
    pub fn check_value(&self, input: &String, check_length: bool) -> (r: bool)
        requires
            self.wf(),
        ensures
            r == is_valid_value(input@, check_length),
    {
        if check_length {
            let n = input.as_str().unicode_len();
            if n < VALUE_LEN_MIN || n > VALUE_LEN_MAX {
                return false;
            }
        }
        match_compiled(&self.value, input.as_str())
    }

    /// Whether `input` is a storage path.
    pub fn check_path(&self, input: &String) -> (r: bool)
        requires
            self.wf(),
        ensures
            r == is_valid_path(input@),
    {
        match_compiled(&self.path, input.as_str())
    }
}

} // verus!
