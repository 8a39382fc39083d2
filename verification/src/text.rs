//! Text helpers: comparison, prefixes and suffixes, trimming, joining.

use vstd::prelude::*;

verus! {

/// `text` without the longest run of `first` and `second` characters at its end.
pub open spec fn trimmed_end(text: Seq<char>, first: char, second: char) -> Seq<char>
    decreases text.len(),
{
    if text.len() > 0 && (text.last() == first || text.last() == second) {
        trimmed_end(text.drop_last(), first, second)
    } else {
        text
    }
}

/// Trimming takes off trimmed characters only, and all of them: what is left is a prefix of the
/// text that does not end in one, and everything after it is one.
pub proof fn trimming_is_exact(text: Seq<char>, first: char, second: char)
    ensures
        trimmed_end(text, first, second).is_prefix_of(text),
        trimmed_end(text, first, second).len() > 0 ==> trimmed_end(text, first, second).last()
            != first && trimmed_end(text, first, second).last() != second,
        forall|i: int|
            trimmed_end(text, first, second).len() <= i < text.len() ==> #[trigger] text[i] == first
                || text[i] == second,
    decreases text.len(),
{
    if text.len() > 0 && (text.last() == first || text.last() == second) {
        let shorter = text.drop_last();
        trimming_is_exact(shorter, first, second);
        assert forall|i: int|
            trimmed_end(text, first, second).len() <= i < text.len() implies #[trigger] text[i]
            == first || text[i] == second by {
            if i < shorter.len() {
                assert(shorter[i] == text[i]);
            }
        }
    }
}

/// What is left of `text` once `prefix` is taken off its front.
pub open spec fn without_prefix(text: Seq<char>, prefix: Seq<char>) -> Option<Seq<char>> {
    if prefix.is_prefix_of(text) {
        Some(text.skip(prefix.len() as int))
    } else {
        None
    }
}

/// What is left of `text` once `suffix` is taken off its end.
pub open spec fn without_suffix(text: Seq<char>, suffix: Seq<char>) -> Option<Seq<char>> {
    if suffix.is_suffix_of(text) {
        Some(text.take(text.len() - suffix.len()))
    } else {
        None
    }
}

/// The text inside an optional string.
pub open spec fn optional_text(text: Option<String>) -> Option<Seq<char>> {
    match text {
        Some(text) => Some(text@),
        None => None,
    }
}

/// The texts of a list of strings.
pub open spec fn texts(list: Seq<String>) -> Seq<Seq<char>> {
    list.map_values(|text: String| text@)
}

/// The characters of `text`, in order.
pub fn chars_of(text: &str) -> (chars: Vec<char>)
    ensures
        chars@ == text@,
{
    let mut chars: Vec<char> = Vec::new();
    for c in it: text.chars()
        invariant
            chars@ == it.seq().take(it.index() as int),
            it.seq() == text@,
    {
        chars.push(c);
    }
    chars
}

/// Whether two texts are equal.
pub fn same_text(a: &str, b: &str) -> (same: bool)
    ensures
        same == (a@ == b@),
{
    let a: String = a.to_owned();
    let b: String = b.to_owned();
    a == b
}

/// Whether two optional texts are equal.
pub fn same_optional_text(a: &Option<String>, b: &Option<String>) -> (same: bool)
    ensures
        same == (optional_text(*a) == optional_text(*b)),
{
    match (a, b) {
        (Some(a), Some(b)) => same_text(a.as_str(), b.as_str()),
        (None, None) => true,
        _ => false,
    }
}

/// Whether `wanted` occurs in `text`.
pub fn contains_char(text: &str, wanted: char) -> (found: bool)
    ensures
        found == text@.contains(wanted),
{
    let chars: Vec<char> = chars_of(text);
    for i in 0..chars.len()
        invariant
            chars@ == text@,
            forall|j: int| 0 <= j < i ==> text@[j] != wanted,
    {
        if chars[i] == wanted {
            assert(text@[i as int] == wanted);
            return true;
        }
    }
    false
}

/// Whether `text` is one of `list`.
pub fn contains_text(list: &Vec<String>, text: &str) -> (found: bool)
    ensures
        found == texts(list@).contains(text@),
{
    for i in 0..list.len()
        invariant
            forall|j: int| 0 <= j < i ==> list@[j]@ != text@,
    {
        if same_text(list[i].as_str(), text) {
            assert(texts(list@)[i as int] == text@);
            return true;
        }
    }
    assert forall|j: int| 0 <= j < list@.len() implies texts(list@)[j] != text@ by {}
    false
}

/// A list of the same texts.
pub fn copy_texts(list: &Vec<String>) -> (copy: Vec<String>)
    ensures
        texts(copy@) == texts(list@),
{
    let mut copy: Vec<String> = Vec::new();
    for i in 0..list.len()
        invariant
            copy@.len() == i,
            forall|j: int| 0 <= j < i ==> (#[trigger] copy@[j])@ == list@[j]@,
    {
        copy.push(list[i].clone());
    }
    assert(texts(copy@) =~= texts(list@));
    copy
}

/// Takes `prefix` off the front of `text`.
pub fn strip_prefix<'a>(text: &'a str, prefix: &str) -> (rest: Option<&'a str>)
    ensures
        match rest {
            Some(rest) => without_prefix(text@, prefix@) == Some(rest@),
            None => without_prefix(text@, prefix@) is None,
        },
{
    let length: usize = text.unicode_len();
    let taken: usize = prefix.unicode_len();
    if taken > length {
        return None;
    }
    if same_text(text.substring_char(0, taken), prefix) {
        assert(prefix@ =~= text@.subrange(0, prefix@.len() as int));
        assert(text@.subrange(taken as int, length as int) =~= text@.skip(taken as int));
        Some(text.substring_char(taken, length))
    } else {
        None
    }
}

/// Takes `suffix` off the end of `text`.
pub fn strip_suffix<'a>(text: &'a str, suffix: &str) -> (rest: Option<&'a str>)
    ensures
        match rest {
            Some(rest) => without_suffix(text@, suffix@) == Some(rest@),
            None => without_suffix(text@, suffix@) is None,
        },
{
    let length: usize = text.unicode_len();
    let taken: usize = suffix.unicode_len();
    if taken > length {
        return None;
    }
    let kept: usize = length - taken;
    if same_text(text.substring_char(kept, length), suffix) {
        assert(text@.subrange(0, kept as int) =~= text@.take(kept as int));
        Some(text.substring_char(0, kept))
    } else {
        None
    }
}

/// Trims every `first` and `second` character off the end of `text`.
pub fn trim_end<'a>(text: &'a str, first: char, second: char) -> (rest: &'a str)
    ensures
        rest@ == trimmed_end(text@, first, second),
{
    let chars: Vec<char> = chars_of(text);
    let mut kept: usize = chars.len();
    assert(text@.take(kept as int) =~= text@);
    while kept > 0 && (chars[kept - 1] == first || chars[kept - 1] == second)
        invariant
            chars@ == text@,
            kept <= chars.len(),
            trimmed_end(text@, first, second) == trimmed_end(text@.take(kept as int), first, second),
        decreases kept,
    {
        assert(text@.take(kept as int).drop_last() =~= text@.take(kept - 1));
        kept = kept - 1;
    }
    assert(text@.subrange(0, kept as int) =~= text@.take(kept as int));
    text.substring_char(0, kept)
}

/// Two texts, one after the other.
pub fn join2(a: &str, b: &str) -> (joined: String)
    ensures
        joined@ == a@ + b@,
{
    a.to_owned().concat(b)
}

/// Three texts, one after the other.
pub fn join3(a: &str, b: &str, c: &str) -> (joined: String)
    ensures
        joined@ == a@ + b@ + c@,
{
    a.to_owned().concat(b).concat(c)
}

/// Four texts, one after the other.
pub fn join4(a: &str, b: &str, c: &str, d: &str) -> (joined: String)
    ensures
        joined@ == a@ + b@ + c@ + d@,
{
    a.to_owned().concat(b).concat(c).concat(d)
}

// ---------------------------------------------------------------------------------------------
// Laws
// ---------------------------------------------------------------------------------------------

/// Taking a prefix off undoes putting it in front, and is possible only then.
pub proof fn prefix_off_is_prefix_on(text: Seq<char>, prefix: Seq<char>, rest: Seq<char>)
    ensures
        without_prefix(text, prefix) == Some(rest) <==> text == prefix + rest,
        without_prefix(text, prefix) is None <==> !(text.len() >= prefix.len() && text.take(
            prefix.len() as int,
        ) == prefix),
{
    if text == prefix + rest {
        assert(prefix =~= text.subrange(0, prefix.len() as int));
        assert(text.skip(prefix.len() as int) =~= rest);
    }
    if prefix.is_prefix_of(text) {
        assert(text =~= prefix + text.skip(prefix.len() as int));
        assert(text.take(prefix.len() as int) =~= prefix);
    }
    if text.len() >= prefix.len() && text.take(prefix.len() as int) == prefix {
        assert(prefix =~= text.subrange(0, prefix.len() as int));
    }
}

/// Taking a suffix off undoes putting it at the end, and is possible only then.
pub proof fn suffix_off_is_suffix_on(text: Seq<char>, suffix: Seq<char>, rest: Seq<char>)
    ensures
        without_suffix(text, suffix) == Some(rest) <==> text == rest + suffix,
        without_suffix(text, suffix) is None <==> !(text.len() >= suffix.len() && text.skip(
            text.len() - suffix.len(),
        ) == suffix),
{
    let kept = text.len() - suffix.len();
    if text == rest + suffix {
        assert(suffix =~= text.subrange(kept, text.len() as int));
        assert(text.take(kept) =~= rest);
    }
    if suffix.is_suffix_of(text) {
        assert(text =~= text.take(kept) + suffix);
        assert(text.skip(kept) =~= suffix);
    }
    if text.len() >= suffix.len() && text.skip(kept) == suffix {
        assert(suffix =~= text.subrange(kept, text.len() as int));
    }
}

/// The texts of a list are the contents of its strings, in their order; an optional text is that
/// of the string, if there is one.
pub proof fn texts_are_contents(list: Seq<String>, optional: Option<String>)
    ensures
        texts(list).len() == list.len(),
        forall|i: int| 0 <= i < list.len() ==> #[trigger] texts(list)[i] == list[i]@,
        optional matches Some(text) ==> optional_text(optional) == Some(text@),
        optional is None ==> optional_text(optional) is None,
{
}

} // verus!
