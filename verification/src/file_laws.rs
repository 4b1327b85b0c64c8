//! What snapshots of files, reads and searches promise.

use vstd::prelude::*;

use crate::archive::read::{open_failure_of, OpenFailure};
use crate::binary::{hit, matches_at, BinarySearch};
use crate::char_index::{boundary, boundary_after, bytes_of, chars_before};
use crate::file_snapshot::{blank, local_path, opening_error, stale, whitespace, FileFingerprint, Observation, OpenedFile};
use crate::line_map::LineMap;
use crate::regex_engine::{anchored_text, char_range};
use crate::text::{occurs_in, starts_text};
use crate::value::{percent, ScriptValue};

verus! {

broadcast use vstd::string::group_string_axioms;

/// A snapshot is fresh only while it is open and both the open file and its path
/// still show what was seen.
pub proof fn law_snapshots_are_fresh_while_nothing_changes(fingerprint: FileFingerprint, seen: Observation, closed: bool)
    ensures
        !stale(fingerprint, seen, closed) <==> !closed && seen.opened is Some && seen.opened->0 == fingerprint
            && seen.current is Some && seen.current->0 == fingerprint,
        stale(fingerprint, seen, true),
{
}

/// A file is opened exactly where it is a regular one that fits into memory and
/// did not change meanwhile.
pub proof fn law_regular_files_are_opened(file: OpenedFile, file_owner: Seq<char>, viewer_owner: Seq<char>)
    ensures
        opening_error(file, file_owner, viewer_owner) is None <==> file.is_regular && file.current == file.opened && file.opened.len
            <= usize::MAX,
        !file.is_regular ==> opening_error(file, file_owner, viewer_owner) == Some(viewer_owner + " accepts regular files only"@),
{
}

/// A path is local exactly where it has something in it besides white space, no
/// scheme, and is no file location.
pub proof fn law_local_paths_have_no_scheme(path: Seq<char>)
    ensures
        local_path(path) <==> (exists|i: int| 0 <= i < path.len() && !whitespace(#[trigger] path[i])) && !occurs_in(path, "://"@)
            && !starts_text(path, "file:"@),
        path.len() == 0 ==> !local_path(path),
        whitespace(' ') && whitespace('\t') && whitespace('\n') && whitespace('\r'),
        !whitespace('a') && !whitespace('/') && !whitespace('.'),
{
    if !blank(path) {
        let i = choose|i: int| 0 <= i < path.len() && !whitespace(#[trigger] path[i]);
        assert(!whitespace(path[i]));
    }
}

/// An archive that could not be opened was cancelled where it was told so or the
/// error says so; else it changed where the error says so; else it is an error.
pub proof fn law_failures_are_told_apart(message: Seq<char>)
    ensures
        open_failure_of(message, true) == OpenFailure::Cancelled,
        open_failure_of(message, false) == OpenFailure::Cancelled <==> occurs_in(message, "operation cancelled"@),
        open_failure_of(message, false) == OpenFailure::Stale <==> !occurs_in(message, "operation cancelled"@) && occurs_in(
            message,
            "changed"@,
        ),
{
}

/// A pattern stands where all its bytes do, and a hit is such a place inside the
/// range.
pub proof fn law_hits_hold_the_pattern(contents: Seq<u8>, pattern: Seq<u8>, start: int, end: int, at: int)
    requires
        0 <= start <= end <= contents.len(),
    ensures
        hit(contents, pattern, start, end, at) <==> start <= at && at + pattern.len() <= end && forall|i: int|
            0 <= i < pattern.len() ==> #[trigger] pattern[i] == contents[at + i],
{
    if start <= at && at + pattern.len() <= end {
        let piece = contents.subrange(at, at + pattern.len());
        if forall|i: int| 0 <= i < pattern.len() ==> #[trigger] pattern[i] == contents[at + i] {
            assert(piece =~= pattern);
        }
        if matches_at(contents, pattern, at) {
            assert forall|i: int| 0 <= i < pattern.len() implies #[trigger] pattern[i] == contents[at + i] by {
                assert(piece[i] == contents[at + i]);
            }
        }
    }
}

/// No place of the range is passed over: one that the next step of a search takes
/// in lies in the window that is read for it, with all of the pattern; and as long
/// as something is left, each step takes something in.
pub proof fn law_windows_hold_the_places_they_take_in(search: BinarySearch, at: int)
    requires
        search.wf(),
        search.start <= at,
        at + search.pattern@.len() <= search.end,
        search.reverse ==> search.cursor - search.stride() <= at < search.cursor,
        !search.reverse ==> search.cursor <= at < search.cursor + search.stride(),
    ensures
        search.window_start() <= at,
        at + search.pattern@.len() <= search.window_end(),
        search.start <= search.window_start() && search.window_end() <= search.end,
{
}

/// A search is over exactly where its cursor is at the far end of its range, and a
/// step takes in at most a mebibyte.
pub proof fn law_steps_take_something_in(search: BinarySearch)
    requires
        search.wf(),
    ensures
        search.stride() == 0 <==> (if search.reverse { search.cursor == search.start } else { search.cursor == search.end }),
        0 <= search.stride() <= 1_048_576,
        search.reverse ==> search.start <= search.cursor - search.stride(),
        !search.reverse ==> search.cursor + search.stride() <= search.end,
{
}

/// The character boundary after an offset is the first one that is not before it.
pub proof fn law_the_next_boundary_is_taken(text: Seq<char>, offset: int, other: int)
    requires
        0 <= offset <= other,
        boundary(text, other),
        other <= bytes_of(text).len(),
    ensures
        offset <= boundary_after(text, offset) <= other,
        boundary(text, offset) ==> boundary_after(text, offset) == offset,
    decreases other - offset,
{
    crate::char_index::lemma_boundary_after(text, offset);
    if offset < bytes_of(text).len() && !boundary(text, offset) {
        law_the_next_boundary_is_taken(text, offset + 1, other);
    }
}

/// A pattern that must match as a whole is bracketed between both ends.
pub proof fn law_whole_matches_are_anchored(pattern: Seq<char>)
    ensures
        ({
            let all = anchored_text(pattern);
            let n = pattern.len() as int;
            &&& all.len() == pattern.len() + 6
            &&& all[0] == '^' && all[1] == '(' && all[2] == '?' && all[3] == ':'
            &&& all.subrange(4, 4 + n) == pattern
            &&& all[n + 4] == ')' && all[n + 5] == '$'
        }),
{
    reveal_strlit("^(?:");
    reveal_strlit(")$");
    assert(anchored_text(pattern).subrange(4, 4 + pattern.len() as int) =~= pattern);
}

/// The line of a character is the one that holds it, and past the last line every
/// line starts at the end.
pub proof fn law_lines_are_found_by_their_characters(map: LineMap, char_idx: int, line: int)
    requires
        map.wf(),
        map.line_holds(line, char_idx),
    ensures
        map.line_of(char_idx) == line,
        map.start_of(line) <= char_idx,
        map.start_of(map.starts@.len() as int) == map.len_chars,
        map.start_of(0) == 0,
{
    lemma_last_start(map, char_idx, map.starts@.len() as int, line);
}

proof fn lemma_last_start(map: LineMap, char_idx: int, n: int, line: int)
    requires
        map.wf(),
        map.line_holds(line, char_idx),
        line < n <= map.starts@.len(),
    ensures
        crate::line_map::last_start(map.starts@, char_idx, n) == line,
    decreases n,
{
    if n - 1 > line {
        if n - 1 > line + 1 {
            assert(map.starts@[line + 1] < map.starts@[n - 1]);
        }
        lemma_last_start(map, char_idx, n - 1, line);
    }
}

/// Numbers of scripts count where they are not negative, and as percentages where
/// they fit into a byte; words are texts and symbols alike.
pub proof fn law_script_values_are_read_by_kind(n: isize, text: String)
    ensures
        n >= 0 ==> ScriptValue::Int(n).index() == Some(n as usize),
        n < 0 ==> ScriptValue::Int(n).index() is None,
        0 <= n <= 255 ==> percent(ScriptValue::Int(n)) == Some(n as u8),
        n > 255 || n < 0 ==> percent(ScriptValue::Int(n)) is None,
        ScriptValue::Text(text).word() == Some(text@),
        ScriptValue::Symbol(text).word() == Some(text@),
        ScriptValue::Text(text).text() == Some(text@),
        ScriptValue::Symbol(text).text() is None,
        ScriptValue::Int(n).word() is None && ScriptValue::Text(text).index() is None,
{
}

proof fn lemma_encoded_parts(first: Seq<char>, second: Seq<char>)
    ensures
        bytes_of(first + second) == bytes_of(first) + bytes_of(second),
    decreases first.len(),
{
    let all = first + second;
    if first.len() == 0 {
        assert(all =~= second);
        assert(bytes_of(first) + bytes_of(second) =~= bytes_of(second));
    } else {
        lemma_encoded_parts(first.drop_first(), second);
        assert(all.drop_first() =~= first.drop_first() + second);
        assert(all[0] == first[0]);
        assert(bytes_of(all) =~= bytes_of(first) + bytes_of(second));
    }
}

/// As many characters stand before the end of the start of a text as that start
/// has.
pub proof fn law_offsets_count_the_characters_before_them(first: Seq<char>, second: Seq<char>)
    ensures
        chars_before(first + second, bytes_of(first).len() as int) == first.len(),
{
    lemma_encoded_parts(first, second);
    vstd::utf8::encode_utf8_decode_utf8(first);
    assert(bytes_of(first + second).subrange(0, bytes_of(first).len() as int) =~= bytes_of(first));
}

/// A match between two parts of a text is told by the characters before its start
/// and before its end.
pub proof fn law_matches_are_told_in_characters(before: Seq<char>, found: Seq<char>, after: Seq<char>)
    requires
        bytes_of(before + found + after).len() <= usize::MAX,
    ensures
        char_range(
            before + found + after,
            (bytes_of(before).len() as usize, bytes_of(before + found).len() as usize),
        ) == (before.len(), (before.len() + found.len()) as nat),
{
    lemma_encoded_parts(before + found, after);
    lemma_encoded_parts(before, found);
    assert(before + found + after =~= before + (found + after));
    law_offsets_count_the_characters_before_them(before, found + after);
    law_offsets_count_the_characters_before_them(before + found, after);
}

} // verus!
