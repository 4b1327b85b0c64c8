//! A regular-expression engine for scripts.
//!
//! Compilation returns nothing rather than an error on an invalid pattern,
//! because patterns arrive from live user typing. Every offset is a character
//! index, because script strings are indexed by character while the engine
//! matches over bytes.

use regex::Regex;
use vstd::prelude::*;

use crate::char_index::{boundary, bytes_of, chars_before, lemma_chars_monotonic, ByteToChar};

verus! {

#[verifier::external_type_specification]
#[verifier::external_body]
pub struct ExRegex(Regex);

/// The regular expression that `Regex::new` makes of a pattern, if it accepts it.
pub uninterp spec fn compiled(pattern: Seq<char>) -> Option<Regex>;

/// `Regex::new` compiles a pattern or refuses it. Which patterns it accepts is
/// named, not described.
#[verifier::external_body]
fn new_regex(pattern: &str) -> (out: Option<Regex>)
    ensures
        out == compiled(pattern@),
{
    Regex::new(pattern).ok()
}

/// Whether the regular expression matches somewhere in the text.
pub uninterp spec fn matches_in(regex: Regex, text: Seq<char>) -> bool;

/// `Regex::is_match` says whether there is a match anywhere in the text.
#[verifier::external_body]
fn is_match(regex: &Regex, text: &str) -> (out: bool)
    ensures
        out == matches_in(*regex, text@),
{
    regex.is_match(text)
}

/// The byte offsets of the leftmost match, if there is one.
pub uninterp spec fn first_match(regex: Regex, text: Seq<char>) -> Option<(usize, usize)>;

/// Whether the byte offsets are those of a piece of the text.
pub open spec fn piece(text: Seq<char>, range: (usize, usize)) -> bool {
    &&& range.0 <= range.1 <= bytes_of(text).len()
    &&& boundary(text, range.0 as int)
    &&& boundary(text, range.1 as int)
}

/// `Regex::find` returns the byte offsets of the leftmost match, which lie
/// between characters of the text. Where that match is is named, not described.
#[verifier::external_body]
fn find_bytes(regex: &Regex, text: &str) -> (out: Option<(usize, usize)>)
    ensures
        out == first_match(*regex, text@),
        out matches Some(range) ==> piece(text@, range),
{
    regex.find(text).map(|found| (found.start(), found.end()))
}

/// The byte offsets of the successive matches.
pub uninterp spec fn all_matches(regex: Regex, text: Seq<char>) -> Seq<(usize, usize)>;

/// Whether the byte offsets are those of successive pieces of the text.
pub open spec fn pieces(text: Seq<char>, ranges: Seq<(usize, usize)>) -> bool {
    &&& forall|i: int| 0 <= i < ranges.len() ==> piece(text, #[trigger] ranges[i])
    &&& forall|i: int, j: int| 0 <= i < j < ranges.len() ==> (#[trigger] ranges[i]).1 <= (#[trigger] ranges[j]).0
}

/// `Regex::find_iter` yields the successive non-overlapping matches, whose
/// byte offsets lie between characters of the text. Where the matches are is
/// named, not described.
#[verifier::external_body]
fn find_all_bytes(regex: &Regex, text: &str) -> (out: Vec<(usize, usize)>)
    ensures
        out@ == all_matches(*regex, text@),
        pieces(text@, out@),
{
    regex.find_iter(text).map(|found| (found.start(), found.end())).collect()
}

/// The text with every match replaced.
pub uninterp spec fn replaced(regex: Regex, text: Seq<char>, replacement: Seq<char>) -> Seq<char>;

/// `Regex::replace_all` replaces every match and expands the capture
/// references in the replacement. What comes out is named, not described.
#[verifier::external_body]
fn replace_matches(regex: &Regex, text: &str, replacement: &str) -> (out: String)
    ensures
        out@ == replaced(*regex, text@, replacement@),
{
    regex.replace_all(text, replacement).into_owned()
}

/// The pattern anchored to both ends.
pub open spec fn anchored_text(pattern: Seq<char>) -> Seq<char> {
    "^(?:"@ + pattern + ")$"@
}

/// A compiled pattern.
pub struct SteelRegex {
    pattern: String,
    regex: Regex,
    /// The same pattern anchored to both ends. A whole-string test cannot be
    /// derived from an unanchored search: `a|ab` finds `a` inside `ab`, which
    /// says nothing about whether the whole string matches.
    anchored: Regex,
}

impl SteelRegex {
    pub closed spec fn wf(&self) -> bool {
        &&& compiled(self.pattern@) == Some(self.regex)
        &&& compiled(anchored_text(self.pattern@)) == Some(self.anchored)
    }

    pub closed spec fn source(&self) -> Seq<char> {
        self.pattern@
    }

    /// The regular expression of the pattern.
    pub open spec fn plain(&self) -> Regex {
        compiled(self.source())->0
    }

    /// The regular expression of the pattern anchored to both ends.
    pub open spec fn whole(&self) -> Regex {
        compiled(anchored_text(self.source()))->0
    }
}

/// Compiles a pattern; an invalid one compiles to nothing.
pub fn compile(pattern: String) -> (out: Option<SteelRegex>)
    ensures
        out is Some <==> compiled(pattern@) is Some && compiled(anchored_text(pattern@)) is Some,
        out matches Some(regex) ==> regex.wf() && regex.source() == pattern@,
{
    let regex = match new_regex(pattern.as_str()) {
        Some(regex) => regex,
        None => {
            return None;
        },
    };
    let whole = "^(?:".to_owned().concat(pattern.as_str()).concat(")$");
    match new_regex(whole.as_str()) {
        Some(anchored) => Some(SteelRegex { pattern, regex, anchored }),
        None => None,
    }
}

/// The pattern text, so that a picker can render its active filter without
/// keeping a copy of the string it compiled.
pub fn pattern(regex: &SteelRegex) -> (out: String)
    ensures
        out@ == regex.source(),
{
    regex.pattern.clone()
}

/// Whether the pattern matches the whole text.
pub fn full_match(regex: &SteelRegex, text: &str) -> (out: bool)
    requires
        regex.wf(),
    ensures
        out == matches_in(regex.whole(), text@),
{
    is_match(&regex.anchored, text)
}

/// The byte offsets as character indices.
pub open spec fn char_range(text: Seq<char>, range: (usize, usize)) -> (nat, nat) {
    (chars_before(text, range.0 as int), chars_before(text, range.1 as int))
}

/// The character indices of a piece of the text.
pub fn char_range_of(text: &str, range: (usize, usize)) -> (out: (usize, usize))
    requires
        piece(text@, range),
    ensures
        (out.0 as nat, out.1 as nat) == char_range(text@, range),
        out.0 <= out.1 <= text@.len(),
{
    let mut converter = ByteToChar::new(text);
    let start = converter.convert(range.0);
    let end = converter.convert(range.1);
    proof {
        lemma_chars_monotonic(text@, range.0 as int, range.1 as int);
    }
    (start, end)
}

/// The character indices of the leftmost match, if there is one.
pub fn find(regex: &SteelRegex, text: &str) -> (out: Option<(usize, usize)>)
    requires
        regex.wf(),
    ensures
        match first_match(regex.plain(), text@) {
            Some(range) => out matches Some(found) && (found.0 as nat, found.1 as nat) == char_range(text@, range),
            None => out is None,
        },
        out matches Some(found) ==> found.0 <= found.1 <= text@.len(),
{
    match find_bytes(&regex.regex, text) {
        Some(range) => Some(char_range_of(text, range)),
        None => None,
    }
}

/// The character indices of successive pieces of the text.
pub fn char_ranges(text: &str, ranges: &Vec<(usize, usize)>) -> (out: Vec<(usize, usize)>)
    requires
        pieces(text@, ranges@),
    ensures
        out@.len() == ranges@.len(),
        forall|i: int|
            0 <= i < out@.len() ==> ((#[trigger] out@[i]).0 as nat, out@[i].1 as nat) == char_range(text@, ranges@[i]),
        forall|i: int| 0 <= i < out@.len() ==> (#[trigger] out@[i]).0 <= out@[i].1 <= text@.len(),
        forall|i: int, j: int| 0 <= i < j < out@.len() ==> (#[trigger] out@[i]).1 <= (#[trigger] out@[j]).0,
{
    let mut converter = ByteToChar::new(text);
    let mut out: Vec<(usize, usize)> = Vec::new();
    let mut i: usize = 0;
    while i < ranges.len()
        invariant
            i <= ranges@.len(),
            pieces(text@, ranges@),
            converter.wf(),
            converter.text == text,
            out@.len() == i,
            forall|k: int|
                0 <= k < i ==> ((#[trigger] out@[k]).0 as nat, out@[k].1 as nat) == char_range(text@, ranges@[k]),
        decreases ranges.len() - i,
    {
        proof {
            assert(piece(text@, ranges@[i as int]));
        }
        let start = converter.convert(ranges[i].0);
        let end = converter.convert(ranges[i].1);
        out.push((start, end));
        i += 1;
    }
    proof {
        assert forall|k: int| 0 <= k < out@.len() implies (#[trigger] out@[k]).0 <= out@[k].1 <= text@.len() by {
            assert(piece(text@, ranges@[k]));
            lemma_chars_monotonic(text@, ranges@[k].0 as int, ranges@[k].1 as int);
        }
        assert forall|k: int, l: int| 0 <= k < l < out@.len() implies (#[trigger] out@[k]).1 <= (#[trigger] out@[l]).0 by {
            assert(piece(text@, ranges@[k]));
            assert(piece(text@, ranges@[l]));
            assert(ranges@[k].1 <= ranges@[l].0);
            lemma_chars_monotonic(text@, ranges@[k].1 as int, ranges@[l].0 as int);
        }
    }
    out
}

/// The character indices of all the matches, in order.
pub fn find_all(regex: &SteelRegex, text: &str) -> (out: Vec<(usize, usize)>)
    requires
        regex.wf(),
    ensures
        out@.len() == all_matches(regex.plain(), text@).len(),
        forall|i: int|
            0 <= i < out@.len() ==> ((#[trigger] out@[i]).0 as nat, out@[i].1 as nat) == char_range(
                text@,
                all_matches(regex.plain(), text@)[i],
            ),
        forall|i: int| 0 <= i < out@.len() ==> (#[trigger] out@[i]).0 <= out@[i].1 <= text@.len(),
        forall|i: int, j: int| 0 <= i < j < out@.len() ==> (#[trigger] out@[i]).1 <= (#[trigger] out@[j]).0,
{
    let ranges = find_all_bytes(&regex.regex, text);
    char_ranges(text, &ranges)
}

/// Replaces every match, expanding `$1` and `${name}` capture references in
/// the replacement.
pub fn replace_all(regex: &SteelRegex, text: &str, replacement: &str) -> (out: String)
    requires
        regex.wf(),
    ensures
        out@ == replaced(regex.plain(), text@, replacement@),
{
    replace_matches(&regex.regex, text, replacement)
}

} // verus!
