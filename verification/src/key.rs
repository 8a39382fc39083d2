//! Names of configured resources, and the secrets they hold.

use crate::text::chars_of;
use std::str::FromStr;
use vstd::prelude::*;

verus! {

/// Whether `c` may stand in a path segment of a resource key.
pub open spec fn key_char(c: char) -> bool {
    ||| 'a' <= c <= 'z'
    ||| 'A' <= c <= 'Z'
    ||| '0' <= c <= '9'
    ||| c == '-'
    ||| c == '_'
    ||| c == '.'
}

/// Whether position `i` of `text` may stand in a key: it holds a segment character, or a slash
/// between two segment characters.
pub open spec fn key_position(text: Seq<char>, i: int) -> bool {
    ||| key_char(text[i])
    ||| text[i] == '/' && 0 < i < text.len() - 1 && key_char(text[i - 1]) && key_char(text[i + 1])
}

/// A resource key: one or more non-empty, URL-safe path segments, joined by single slashes.
pub open spec fn valid_key(text: Seq<char>) -> bool {
    &&& text.len() > 0
    &&& forall|i: int| 0 <= i < text.len() ==> #[trigger] key_position(text, i)
}

/// What is said of a text that is no resource key.
pub open spec fn key_problem() -> Seq<char> {
    "must contain non-empty URL-safe path segments"@
}

/// The name of a configured resource.
#[derive(Debug, Eq, Hash, Ord, PartialEq, PartialOrd)]
pub struct ResourceKey(String);

impl View for ResourceKey {
    type V = Seq<char>;

    closed spec fn view(&self) -> Seq<char> {
        self.0@
    }
}

fn is_key_char(c: char) -> (yes: bool)
    ensures
        yes == key_char(c),
{
    ('a' <= c && c <= 'z') || ('A' <= c && c <= 'Z') || ('0' <= c && c <= '9') || c == '-' || c
        == '_' || c == '.'
}

fn is_key(text: &str) -> (yes: bool)
    ensures
        yes == valid_key(text@),
{
    let chars: Vec<char> = chars_of(text);
    if chars.len() == 0 {
        return false;
    }
    for i in 0..chars.len()
        invariant
            chars@ == text@,
            forall|j: int| 0 <= j < i ==> #[trigger] key_position(text@, j),
    {
        let fits: bool = is_key_char(chars[i]) || (chars[i] == '/' && 0 < i && i < chars.len() - 1
            && is_key_char(chars[i - 1]) && is_key_char(chars[i + 1]));
        if !fits {
            assert(!key_position(text@, i as int));
            return false;
        }
    }
    true
}

impl ResourceKey {
    #[verifier::type_invariant]
    closed spec fn well_formed(self) -> bool {
        valid_key(self.0@)
    }

    /// Takes `value` as a key, if it is one.
    pub fn new(value: &str) -> (key: Result<ResourceKey, String>)
        ensures
            match key {
                Ok(key) => valid_key(value@) && key@ == value@,
                Err(message) => !valid_key(value@) && message@ == key_problem(),
            },
    {
        if is_key(value) {
            Ok(ResourceKey(value.to_owned()))
        } else {
            Err("must contain non-empty URL-safe path segments".to_owned())
        }
    }

    /// The text of the key, which is well formed.
    pub fn as_str(&self) -> (text: &str)
        ensures
            text@ == self@,
            valid_key(self@),
    {
        proof {
            use_type_invariant(self);
        }
        self.0.as_str()
    }
}

impl Clone for ResourceKey {
    fn clone(&self) -> (copy: ResourceKey)
        ensures
            copy@ == self@,
    {
        proof {
            use_type_invariant(self);
        }
        ResourceKey(self.0.clone())
    }
}

impl FromStr for ResourceKey {
    type Err = String;

    fn from_str(text: &str) -> (key: Result<ResourceKey, String>)
        ensures
            match key {
                Ok(key) => valid_key(text@) && key@ == text@,
                Err(message) => !valid_key(text@) && message@ == key_problem(),
            },
    {
        ResourceKey::new(text)
    }
}

/// A credential. Its text is reachable through [`SecretString::expose`] alone.
#[derive(Default, Eq, PartialEq)]
pub struct SecretString(String);

impl View for SecretString {
    type V = Seq<char>;

    closed spec fn view(&self) -> Seq<char> {
        self.0@
    }
}

impl SecretString {
    pub fn new(value: &str) -> (secret: SecretString)
        ensures
            secret@ == value@,
    {
        SecretString(value.to_owned())
    }

    pub fn expose(&self) -> (text: &str)
        ensures
            text@ == self@,
    {
        self.0.as_str()
    }

    /// What diagnostics show in place of any secret.
    pub fn redacted(&self) -> (text: String)
        ensures
            text@ == "SecretString([REDACTED])"@,
    {
        "SecretString([REDACTED])".to_owned()
    }
}

impl Clone for SecretString {
    fn clone(&self) -> (copy: SecretString)
        ensures
            copy@ == self@,
    {
        SecretString(self.0.clone())
    }
}

// ---------------------------------------------------------------------------------------------
// Laws
// ---------------------------------------------------------------------------------------------

/// Whether the character of this code may stand in a segment: an ASCII letter or digit, a hyphen,
/// a dot or an underscore.
pub open spec fn segment_code(code: int) -> bool {
    ||| 0x30 <= code <= 0x39
    ||| 0x41 <= code <= 0x5a
    ||| 0x61 <= code <= 0x7a
    ||| code == 0x2d
    ||| code == 0x2e
    ||| code == 0x5f
}

/// A text is a key exactly when it is not empty, is made of segment characters and slashes, and has
/// no slash at either end or beside another.
pub proof fn keys_are_segments_between_slashes(text: Seq<char>)
    ensures
        valid_key(text) <==> {
            &&& text.len() > 0
            &&& forall|i: int|
                0 <= i < text.len() ==> segment_code(#[trigger] text[i] as int) || text[i] as int
                    == 0x2f
            &&& text[0] as int != 0x2f
            &&& text[text.len() - 1] as int != 0x2f
            &&& forall|i: int|
                0 <= i < text.len() - 1 ==> !(#[trigger] text[i] as int == 0x2f && text[i + 1] as int
                    == 0x2f)
        },
{
    assert forall|i: int| 0 <= i < text.len() implies key_char(#[trigger] text[i]) == segment_code(
        text[i] as int,
    ) by {}
    if valid_key(text) {
        assert(key_position(text, 0));
        assert(key_position(text, text.len() - 1));
        assert forall|i: int| 0 <= i < text.len() implies segment_code(#[trigger] text[i] as int)
            || text[i] as int == 0x2f by {
            assert(key_position(text, i));
        }
        assert forall|i: int| 0 <= i < text.len() - 1 implies !(#[trigger] text[i] as int == 0x2f
            && text[i + 1] as int == 0x2f) by {
            assert(key_position(text, i));
        }
    }
    if text.len() > 0 && (forall|i: int|
        0 <= i < text.len() ==> segment_code(#[trigger] text[i] as int) || text[i] as int == 0x2f)
        && text[0] as int != 0x2f && text[text.len() - 1] as int != 0x2f && (forall|i: int|
        0 <= i < text.len() - 1 ==> !(#[trigger] text[i] as int == 0x2f && text[i + 1] as int
            == 0x2f)) {
        assert forall|i: int| 0 <= i < text.len() implies #[trigger] key_position(text, i) by {
            if !segment_code(text[i] as int) {
                assert(text[i] as int == 0x2f);
                assert(0 < i < text.len() - 1);
                assert(!(text[i - 1] as int == 0x2f && text[i] as int == 0x2f));
                assert(segment_code(text[i - 1] as int));
                assert(segment_code(text[i + 1] as int));
            }
        }
    }
}

/// A text that is no key is refused in these words.
pub proof fn key_refusal()
    ensures
        key_problem() == "must contain non-empty URL-safe path segments"@,
{
}

/// Whether a text is one segment: not empty, and made of segment characters.
pub open spec fn one_segment(text: Seq<char>) -> bool {
    text.len() > 0 && forall|i: int| 0 <= i < text.len() ==> segment_code(#[trigger] text[i] as int)
}

/// A key without a slash is one segment, and one segment is a key without a slash.
pub proof fn keys_without_slash_are_one_segment(text: Seq<char>)
    ensures
        valid_key(text) && !text.contains('/') <==> one_segment(text),
{
    keys_are_segments_between_slashes(text);
    if valid_key(text) && !text.contains('/') {
        assert forall|i: int| 0 <= i < text.len() implies segment_code(
            #[trigger] text[i] as int,
        ) by {
            if text[i] as int == 0x2f {
                assert(text[i] == '/');
            }
        }
    }
    if one_segment(text) {
        assert forall|i: int| 0 <= i < text.len() implies text[i] != '/' by {
            assert(segment_code(text[i] as int));
        }
    }
}

} // verus!
