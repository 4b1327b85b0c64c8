//! Characters, decimal numbers and lines of text.

use vstd::prelude::*;
use vstd::utf8::{decode_utf8, valid_utf8};

verus! {

broadcast use vstd::string::group_string_axioms;

/// `String::push` appends the given character to the end of the string.
pub assume_specification[ String::push ](s: &mut String, c: char)
    ensures
        final(s)@ == old(s)@.push(c),
;

/// The characters of a string, in order.
pub fn chars_of(s: &str) -> (out: Vec<char>)
    ensures
        out@ == s@,
{
    let mut out: Vec<char> = Vec::new();
    for c in it: s.chars()
        invariant
            it.seq() == s@,
            out@ == s@.subrange(0, it.index() as int),
    {
        out.push(c);
        proof {
            assert(s@.subrange(0, it.index() + 1) == s@.subrange(0, it.index() as int).push(c));
        }
    }
    proof {
        assert(s@.subrange(0, s@.len() as int) == s@);
    }
    out
}

/// The string made of the given characters.
pub fn string_of(chars: &[char]) -> (out: String)
    ensures
        out@ == chars@,
{
    let mut out = String::new();
    let mut i: usize = 0;
    while i < chars.len()
        invariant
            i <= chars.len(),
            out@ == chars@.subrange(0, i as int),
        decreases chars.len() - i,
    {
        out.push(chars[i]);
        i += 1;
        proof {
            assert(chars@.subrange(0, i as int) == chars@.subrange(0, i - 1).push(chars@[i - 1]));
        }
    }
    proof {
        assert(chars@.subrange(0, chars@.len() as int) == chars@);
    }
    out
}

/// The decimal digit with the given value.
pub open spec fn digit(value: nat) -> char {
    (48 + value % 10) as u8 as char
}

/// Decimal notation without leading zeros.
pub open spec fn decimal_text(n: nat) -> Seq<char>
    decreases n,
{
    if n < 10 {
        seq![digit(n)]
    } else {
        decimal_text(n / 10).push(digit(n))
    }
}

/// Writes a number in decimal notation.
pub fn decimal(n: u64) -> (out: String)
    ensures
        out@ == decimal_text(n as nat),
    decreases n,
{
    let d: u8 = (n % 10) as u8 + 48;
    let c = d as char;
    if n < 10 {
        let mut out = String::new();
        out.push(c);
        proof {
            assert(out@ == seq![digit(n as nat)]);
        }
        out
    } else {
        let mut out = decimal(n / 10);
        out.push(c);
        out
    }
}

/// Whether `part` stands in `whole` at the index `at`.
pub open spec fn occurs_at(whole: Seq<char>, part: Seq<char>, at: int) -> bool {
    0 <= at && at + part.len() <= whole.len() && whole.subrange(at, at + part.len()) == part
}

/// Whether `part` stands somewhere in `whole`.
pub open spec fn occurs_in(whole: Seq<char>, part: Seq<char>) -> bool {
    exists|at: int| occurs_at(whole, part, at)
}

/// Whether `part` is the end of `whole`.
pub open spec fn ends_text(whole: Seq<char>, part: Seq<char>) -> bool {
    occurs_at(whole, part, whole.len() - part.len())
}

/// Whether `part` is the start of `whole`.
pub open spec fn starts_text(whole: Seq<char>, part: Seq<char>) -> bool {
    occurs_at(whole, part, 0)
}

fn found_at(whole: &Vec<char>, part: &Vec<char>, at: usize) -> (out: bool)
    requires
        at + part.len() <= whole.len(),
    ensures
        out == occurs_at(whole@, part@, at as int),
{
    let mut i: usize = 0;
    while i < part.len()
        invariant
            i <= part.len(),
            at + part.len() <= whole.len(),
            forall|k: int| 0 <= k < i ==> whole@[at + k] == part@[k],
        decreases part.len() - i,
    {
        if whole[at + i] != part[i] {
            proof {
                assert(whole@.subrange(at as int, at + part@.len())[i as int] != part@[i as int]);
            }
            return false;
        }
        i += 1;
    }
    proof {
        assert(whole@.subrange(at as int, at + part@.len()) =~= part@);
    }
    true
}

/// Whether `part` stands somewhere in `whole`.
pub fn contains_text(whole: &str, part: &str) -> (out: bool)
    ensures
        out == occurs_in(whole@, part@),
{
    let w = chars_of(whole);
    let p = chars_of(part);
    if p.len() > w.len() {
        return false;
    }
    let last: usize = w.len() - p.len();
    let mut at: usize = 0;
    loop
        invariant
            w@ == whole@,
            p@ == part@,
            at <= last,
            last + p.len() == w.len(),
            forall|k: int| 0 <= k < at ==> !occurs_at(w@, p@, k),
        decreases last - at,
    {
        if found_at(&w, &p, at) {
            return true;
        }
        if at == last {
            return false;
        }
        at += 1;
    }
}

/// Whether `whole` ends with `part`.
pub fn ends_with(whole: &str, part: &str) -> (out: bool)
    ensures
        out == ends_text(whole@, part@),
{
    let whole = chars_of(whole);
    let part = chars_of(part);
    if part.len() > whole.len() {
        return false;
    }
    found_at(&whole, &part, whole.len() - part.len())
}

/// Whether `whole` starts with `part`.
pub fn starts_with(whole: &str, part: &str) -> (out: bool)
    ensures
        out == starts_text(whole@, part@),
{
    let whole = chars_of(whole);
    let part = chars_of(part);
    if part.len() > whole.len() {
        return false;
    }
    found_at(&whole, &part, 0)
}

/// An ASCII capital as the small letter, any other character as it is.
pub open spec fn lower(c: char) -> char {
    if 'A' <= c && c <= 'Z' {
        (c as u8 + 32) as u8 as char
    } else {
        c
    }
}

/// The text with its ASCII capitals made small.
pub open spec fn lower_text(text: Seq<char>) -> Seq<char> {
    Seq::new(text.len(), |i: int| lower(text[i]))
}

/// The text with its ASCII capitals made small.
pub fn ascii_lowercase(text: &str) -> (out: String)
    ensures
        out@ == lower_text(text@),
{
    let chars = chars_of(text);
    let mut out = String::new();
    let mut i: usize = 0;
    while i < chars.len()
        invariant
            i <= chars.len(),
            out@ == lower_text(chars@).subrange(0, i as int),
        decreases chars.len() - i,
    {
        let c = chars[i];
        let small = if 'A' <= c && c <= 'Z' {
            (c as u8 + 32) as char
        } else {
            c
        };
        out.push(small);
        i += 1;
        proof {
            let all = lower_text(chars@);
            assert(all.subrange(0, i as int) =~= all.subrange(0, i - 1).push(all[i - 1]));
        }
    }
    proof {
        let all = lower_text(chars@);
        assert(all.subrange(0, all.len() as int) =~= all);
    }
    out
}

/// Whether two texts are the same.
pub fn same_text(a: &str, b: &str) -> (out: bool)
    ensures
        out == (a@ == b@),
{
    let left = chars_of(a);
    let right = chars_of(b);
    if left.len() != right.len() {
        return false;
    }
    proof {
        assert(left@.subrange(0, left@.len() as int) =~= left@);
    }
    found_at(&left, &right, 0)
}

/// What `String::from_utf8_lossy` makes of the bytes.
pub uninterp spec fn lossy_text(bytes: Seq<u8>) -> Seq<char>;

/// `String::from_utf8_lossy` decodes UTF-8. Of bytes that are no UTF-8 only
/// that the text depends on them alone is claimed.
#[verifier::external_body]
pub(crate) fn from_utf8_lossy(bytes: &[u8]) -> (out: String)
    ensures
        out@ == lossy_text(bytes@),
        valid_utf8(bytes@) ==> out@ == decode_utf8(bytes@),
{
    String::from_utf8_lossy(bytes).into_owned()
}

/// `std::str::from_utf8` succeeds on valid UTF-8 alone.
#[verifier::external_body]
pub(crate) fn is_utf8(bytes: &[u8]) -> (out: bool)
    ensures
        out == valid_utf8(bytes@),
{
    std::str::from_utf8(bytes).is_ok()
}

/// The text of an optional string.
pub open spec fn optional_text(text: Option<String>) -> Option<Seq<char>> {
    match text {
        Some(text) => Some(text@),
        None => None,
    }
}

/// The number of bytes in the UTF-8 encoding of a text.
pub open spec fn byte_length(text: Seq<char>) -> nat {
    vstd::utf8::encode_utf8(text).len()
}

/// The number of bytes in the UTF-8 encoding of a text.
pub fn text_bytes(text: &str) -> (out: usize)
    ensures
        out == byte_length(text@),
{
    text.as_bytes().len()
}

/// The index of the first line feed at or after `from`, or the length.
pub open spec fn line_end(text: Seq<char>, from: int) -> int
    decreases text.len() - from,
{
    if from >= text.len() {
        text.len() as int
    } else if text[from] == '\n' {
        from
    } else {
        line_end(text, from + 1)
    }
}

/// The line without a carriage return at its end.
pub open spec fn chomp(line: Seq<char>) -> Seq<char> {
    if line.len() > 0 && line.last() == '\r' {
        line.drop_last()
    } else {
        line
    }
}

/// The lines from the index `from` on, without their line endings.
pub open spec fn lines_from(text: Seq<char>, from: int) -> Seq<Seq<char>>
    decreases text.len() - from,
{
    if from < 0 || from >= text.len() {
        Seq::empty()
    } else {
        let end = line_end(text, from);
        if end >= text.len() {
            seq![text.subrange(from, text.len() as int)]
        } else if end < from {
            Seq::empty()
        } else {
            seq![chomp(text.subrange(from, end))] + lines_from(text, end + 1)
        }
    }
}

/// The lines of a text, without their line endings.
pub open spec fn lines_of(text: Seq<char>) -> Seq<Seq<char>> {
    lines_from(text, 0)
}

pub open spec fn string_views(strings: Seq<String>) -> Seq<Seq<char>> {
    Seq::new(strings.len(), |i: int| strings[i]@)
}

/// The lines of a text, without their line endings.
pub fn lines(text: &str) -> (out: Vec<String>)
    ensures
        string_views(out@) == lines_of(text@),
{
    let chars = chars_of(text);
    let mut out: Vec<String> = Vec::new();
    let mut start: usize = 0;
    proof {
        assert(string_views(out@) + lines_from(chars@, 0) =~= lines_from(chars@, 0));
    }
    while start < chars.len()
        invariant
            start <= chars@.len(),
            string_views(out@) + lines_from(chars@, start as int) == lines_from(chars@, 0),
        decreases chars.len() - start,
    {
        let mut end: usize = start;
        while end < chars.len() && chars[end] != '\n'
            invariant
                start <= end <= chars@.len(),
                line_end(chars@, start as int) == line_end(chars@, end as int),
            decreases chars.len() - end,
        {
            end += 1;
        }
        let ghost before = string_views(out@);
        if end == chars.len() {
            let line = string_of(vstd::slice::slice_subrange(chars.as_slice(), start, end));
            let ghost view = line@;
            out.push(line);
            proof {
                assert(lines_from(chars@, start as int) == seq![view]);
                assert(string_views(out@) =~= before + seq![view]);
                assert(string_views(out@) + lines_from(chars@, end as int) =~= before + lines_from(chars@, start as int));
            }
            start = end;
        } else {
            let stop: usize = if end > start && chars[end - 1] == '\r' {
                end - 1
            } else {
                end
            };
            let line = string_of(vstd::slice::slice_subrange(chars.as_slice(), start, stop));
            let ghost view = line@;
            proof {
                let whole = chars@.subrange(start as int, end as int);
                if end > start {
                    assert(whole.last() == chars@[end - 1]);
                    assert(whole.drop_last() =~= chars@.subrange(start as int, end - 1));
                }
                assert(view =~= chomp(whole));
            }
            out.push(line);
            proof {
                let rest = lines_from(chars@, end + 1);
                assert(lines_from(chars@, start as int) == seq![view] + rest);
                assert(string_views(out@) =~= before + seq![view]);
                assert((before + seq![view]) + rest =~= before + (seq![view] + rest));
            }
            start = end + 1;
        }
    }
    proof {
        assert(string_views(out@) + Seq::<Seq<char>>::empty() =~= string_views(out@));
    }
    out
}

/// The text in quotation marks, as its `Debug` format gives it.
pub uninterp spec fn quoted(text: Seq<char>) -> Seq<char>;

/// The `Debug` format of a string puts it in quotation marks and escapes some
/// of its characters. Which ones it escapes is left unsaid.
#[verifier::external_body]
pub(crate) fn quote(text: &str) -> (out: String)
    ensures
        out@ == quoted(text@),
{
    format!("{text:?}")
}

/// Whether a text comes before another one in the order of code points.
pub open spec fn precedes(a: Seq<char>, b: Seq<char>) -> bool
    decreases a.len(),
{
    if b.len() == 0 {
        false
    } else if a.len() == 0 {
        true
    } else if a[0] != b[0] {
        a[0] < b[0]
    } else {
        precedes(a.drop_first(), b.drop_first())
    }
}

/// Whether a text comes before another one in the order of code points.
pub fn less_text(a: &str, b: &str) -> (out: bool)
    ensures
        out == precedes(a@, b@),
{
    let left = chars_of(a);
    let right = chars_of(b);
    let mut i: usize = 0;
    proof {
        assert(left@.subrange(0, left@.len() as int) =~= left@);
        assert(right@.subrange(0, right@.len() as int) =~= right@);
    }
    loop
        invariant
            i <= left@.len(),
            i <= right@.len(),
            precedes(a@, b@) == precedes(
                left@.subrange(i as int, left@.len() as int),
                right@.subrange(i as int, right@.len() as int),
            ),
        decreases left@.len() - i,
    {
        let ghost l = left@.subrange(i as int, left@.len() as int);
        let ghost r = right@.subrange(i as int, right@.len() as int);
        if i == right.len() {
            return false;
        }
        if i == left.len() {
            return true;
        }
        proof {
            assert(l[0] == left@[i as int]);
            assert(r[0] == right@[i as int]);
            assert(l.drop_first() =~= left@.subrange(i + 1, left@.len() as int));
            assert(r.drop_first() =~= right@.subrange(i + 1, right@.len() as int));
        }
        if left[i] != right[i] {
            return left[i] < right[i];
        }
        i += 1;
    }
}

pub proof fn lemma_precedes_total(a: Seq<char>, b: Seq<char>)
    ensures
        a == b || precedes(a, b) || precedes(b, a),
        precedes(a, b) ==> !precedes(b, a) && a != b,
    decreases a.len(),
{
    if a.len() > 0 && b.len() > 0 {
        if a[0] == b[0] {
            lemma_precedes_total(a.drop_first(), b.drop_first());
            if a.drop_first() == b.drop_first() {
                assert(a =~= seq![a[0]] + a.drop_first());
                assert(b =~= seq![b[0]] + b.drop_first());
            }
        }
    } else if a.len() == 0 && b.len() == 0 {
        assert(a =~= b);
    }
}

pub proof fn lemma_precedes_transitive(a: Seq<char>, b: Seq<char>, c: Seq<char>)
    requires
        precedes(a, b),
        precedes(b, c),
    ensures
        precedes(a, c),
    decreases a.len(),
{
    if a.len() > 0 && a[0] == b[0] && b[0] == c[0] {
        lemma_precedes_transitive(a.drop_first(), b.drop_first(), c.drop_first());
    }
}

/// Where a text goes in an ordered list: before the first later one.
pub open spec fn place_in(sorted: Seq<Seq<char>>, text: Seq<char>) -> int
    decreases sorted.len(),
{
    if sorted.len() == 0 {
        0
    } else if precedes(text, sorted.last()) {
        place_in(sorted.drop_last(), text)
    } else {
        sorted.len() as int
    }
}

/// The texts in the order of code points.
pub open spec fn sorted_texts(texts: Seq<Seq<char>>) -> Seq<Seq<char>>
    decreases texts.len(),
{
    if texts.len() == 0 {
        Seq::empty()
    } else {
        let rest = sorted_texts(texts.drop_last());
        rest.insert(place_in(rest, texts.last()), texts.last())
    }
}

proof fn lemma_place_in(sorted: Seq<Seq<char>>, text: Seq<char>)
    ensures
        0 <= place_in(sorted, text) <= sorted.len(),
        forall|i: int| place_in(sorted, text) <= i < sorted.len() ==> precedes(text, #[trigger] sorted[i]),
        place_in(sorted, text) > 0 ==> !precedes(text, sorted[place_in(sorted, text) - 1]),
    decreases sorted.len(),
{
    if sorted.len() > 0 && precedes(text, sorted.last()) {
        let rest = sorted.drop_last();
        lemma_place_in(rest, text);
        assert forall|i: int| place_in(sorted, text) <= i < sorted.len() implies precedes(text, #[trigger] sorted[i]) by {
            if i < rest.len() {
                assert(rest[i] == sorted[i]);
            }
        }
    }
}

/// Whether no text comes before an earlier one.
pub open spec fn in_order(texts: Seq<Seq<char>>) -> bool {
    forall|i: int, j: int| 0 <= i < j < texts.len() ==> !precedes(#[trigger] texts[j], #[trigger] texts[i])
}

/// Sorting gives the same texts, in order.
pub proof fn law_sorted_texts(texts: Seq<Seq<char>>)
    ensures
        sorted_texts(texts).to_multiset() == texts.to_multiset(),
        sorted_texts(texts).len() == texts.len(),
        in_order(sorted_texts(texts)),
        forall|x: Seq<char>| #[trigger] sorted_texts(texts).contains(x) <==> texts.contains(x),
    decreases texts.len(),
{
    broadcast use vstd::seq_lib::group_to_multiset_ensures;

    if texts.len() > 0 {
        let rest = texts.drop_last();
        law_sorted_texts(rest);
        let sorted = sorted_texts(rest);
        let last = texts.last();
        let at = place_in(sorted, last);
        lemma_place_in(sorted, last);
        let out = sorted.insert(at, last);
        assert(texts =~= rest.push(last));
        assert(out.to_multiset() =~= sorted.to_multiset().insert(last));
        assert forall|i: int, j: int| 0 <= i < j < out.len() implies !precedes(#[trigger] out[j], #[trigger] out[i]) by {
            let a = if i < at { i } else { i - 1 };
            let b = if j < at { j } else { j - 1 };
            if i != at && j != at {
                assert(out[i] == sorted[a] && out[j] == sorted[b]);
            } else if i == at {
                assert(out[j] == sorted[b]);
                lemma_precedes_total(last, sorted[b]);
            } else {
                assert(out[i] == sorted[i]);
                if precedes(last, sorted[i]) {
                    if i < at - 1 {
                        assert(!precedes(sorted[at - 1], sorted[i]));
                        lemma_precedes_total(sorted[at - 1], sorted[i]);
                        if sorted[at - 1] != sorted[i] {
                            lemma_precedes_transitive(last, sorted[i], sorted[at - 1]);
                        }
                    }
                    assert(false);
                }
            }
        }
        assert forall|x: Seq<char>| #[trigger] sorted_texts(texts).contains(x) <==> texts.contains(x) by {
            assert(out.to_multiset() == texts.to_multiset());
            assert(out.contains(x) <==> out.to_multiset().count(x) > 0);
            assert(texts.contains(x) <==> texts.to_multiset().count(x) > 0);
        }
    }
}

/// The texts in the order of code points.
pub fn sort_texts(texts: &Vec<String>) -> (out: Vec<String>)
    ensures
        string_views(out@) == sorted_texts(string_views(texts@)),
{
    let mut out: Vec<String> = Vec::new();
    let ghost all = string_views(texts@);
    let mut i: usize = 0;
    proof {
        assert(string_views(out@) =~= Seq::<Seq<char>>::empty());
        assert(all.subrange(0, 0) =~= Seq::<Seq<char>>::empty());
    }
    while i < texts.len()
        invariant
            i <= texts@.len(),
            all == string_views(texts@),
            string_views(out@) == sorted_texts(all.subrange(0, i as int)),
        decreases texts.len() - i,
    {
        let ghost sorted = string_views(out@);
        let mut at: usize = out.len();
        proof {
            assert(sorted.subrange(0, at as int) =~= sorted);
        }
        while at > 0 && less_text(texts[i].as_str(), out[at - 1].as_str())
            invariant
                i < texts@.len(),
                at <= out@.len(),
                sorted == string_views(out@),
                place_in(sorted, texts@[i as int]@) == place_in(sorted.subrange(0, at as int), texts@[i as int]@),
            decreases at,
        {
            at -= 1;
            proof {
                assert(sorted.subrange(0, at + 1).drop_last() =~= sorted.subrange(0, at as int));
                assert(sorted.subrange(0, at + 1).last() == out@[at as int]@);
            }
        }
        proof {
            if at > 0 {
                assert(sorted.subrange(0, at as int).last() == out@[at - 1]@);
            }
            assert(place_in(sorted, texts@[i as int]@) == at);
        }
        out.insert(at, texts[i].clone());
        i += 1;
        proof {
            assert(string_views(out@) =~= sorted.insert(at as int, all[i - 1]));
            assert(all.subrange(0, i as int).drop_last() =~= all.subrange(0, i - 1));
        }
    }
    proof {
        assert(all.subrange(0, all.len() as int) =~= all);
    }
    out
}

/// Whether a list of texts holds a text.
pub fn holds_text(texts: &Vec<String>, text: &str) -> (out: bool)
    ensures
        out == string_views(texts@).contains(text@),
{
    let mut i: usize = 0;
    let ghost all = string_views(texts@);
    while i < texts.len()
        invariant
            i <= texts@.len(),
            all == string_views(texts@),
            forall|k: int| 0 <= k < i ==> all[k] != text@,
        decreases texts.len() - i,
    {
        if same_text(texts[i].as_str(), text) {
            proof {
                assert(all[i as int] == text@);
            }
            return true;
        }
        i += 1;
    }
    false
}

/// A copy of a list of texts.
pub fn copy_texts(texts: &Vec<String>) -> (out: Vec<String>)
    ensures
        string_views(out@) == string_views(texts@),
{
    let mut out: Vec<String> = Vec::new();
    let mut i: usize = 0;
    while i < texts.len()
        invariant
            i <= texts@.len(),
            out@.len() == i,
            forall|k: int| 0 <= k < i ==> (#[trigger] out@[k])@ == texts@[k]@,
        decreases texts.len() - i,
    {
        out.push(texts[i].clone());
        i += 1;
    }
    proof {
        assert(string_views(out@) =~= string_views(texts@));
    }
    out
}

pub proof fn lemma_string_views_push(texts: Seq<String>, text: String)
    ensures
        string_views(texts.push(text)) == string_views(texts).push(text@),
{
    assert(string_views(texts.push(text)) =~= string_views(texts).push(text@));
}

/// The first place of a name at or after `from`.
pub open spec fn find_name(names: Seq<Seq<char>>, name: Seq<char>, from: int) -> Option<int>
    decreases names.len() - from,
{
    if from < 0 || from >= names.len() {
        None
    } else if names[from] == name {
        Some(from)
    } else {
        find_name(names, name, from + 1)
    }
}

pub proof fn lemma_find_name(names: Seq<Seq<char>>, name: Seq<char>, from: int)
    requires
        0 <= from,
    ensures
        match find_name(names, name, from) {
            Some(i) => from <= i < names.len() && names[i] == name && forall|k: int| from <= k < i ==> names[k] != name,
            None => forall|k: int| from <= k < names.len() ==> names[k] != name,
        },
    decreases names.len() - from,
{
    if from < names.len() && names[from] != name {
        lemma_find_name(names, name, from + 1);
    }
}

} // verus!
