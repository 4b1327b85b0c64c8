//! Bounded, read-only access to binary files.

use vstd::prelude::*;

use crate::file_snapshot::{self, ensure_snapshot_fresh, snapshot_stale, FileFingerprint, Observation};
use crate::text::{self, decimal, same_text};

verus! {

pub const MAX_READ_BYTES: usize = 1_048_576;

pub const MAX_PATTERN_BYTES: usize = 4_096;

pub const SEARCH_CHUNK_BYTES: usize = 1_048_576;

/// An opened binary file.
#[derive(Debug)]
pub struct BinaryFile {
    pub fingerprint: FileFingerprint,
    pub closed: bool,
}

impl BinaryFile {
    pub open spec fn is_stale(&self, seen: Observation) -> bool {
        file_snapshot::stale(self.fingerprint, seen, self.closed)
    }

    /// The size of the file when it was opened.
    pub open spec fn size(&self) -> int {
        self.fingerprint.len as int
    }

    pub open spec fn wf(&self) -> bool {
        self.size() <= usize::MAX
    }

    /// Closes the file and says whether it was open.
    pub fn binary_file_close(&mut self) -> (out: bool)
        ensures
            *final(self) == (BinaryFile { closed: true, ..*old(self) }),
            out == !old(self).closed,
    {
        let was = self.closed;
        self.closed = true;
        !was
    }

    pub fn binary_file_size(&self) -> (out: usize)
        requires
            self.wf(),
        ensures
            out == self.size(),
    {
        self.fingerprint.len as usize
    }

    pub fn binary_file_stale(&self, seen: &Observation) -> (out: bool)
        ensures
            out == self.is_stale(*seen),
    {
        snapshot_stale(&self.fingerprint, seen, self.closed)
    }

    pub fn ensure_fresh(&self, seen: &Observation) -> (out: Result<(), String>)
        ensures
            out is Ok <==> !self.is_stale(*seen),
            out matches Err(text) ==> text@ == self.stale_text(),
    {
        ensure_snapshot_fresh(&self.fingerprint, seen, self.closed, "binary file", "refresh the viewer")
    }

    /// What the user is told of a file that is no longer fresh.
    pub open spec fn stale_text(&self) -> Seq<char> {
        if self.closed {
            "binary file"@ + " handle is closed"@
        } else {
            "binary file"@ + " file changed on disk; "@ + "refresh the viewer"@
        }
    }

    /// How many bytes to read when `length` bytes from `offset` on are asked for.
    pub fn binary_file_read(&self, seen: &Observation, offset: usize, length: usize) -> (out: Result<usize, String>)
        requires
            self.wf(),
        ensures
            out is Ok <==> length <= MAX_READ_BYTES && !self.is_stale(*seen) && offset <= self.size(),
            out matches Ok(wanted) ==> wanted == (if length < self.size() - offset {
                length as int
            } else {
                self.size() - offset
            }),
            out matches Err(text) ==> text@ == (if length > MAX_READ_BYTES {
                "binary reads are limited to 1048576 bytes"@
            } else if self.is_stale(*seen) {
                self.stale_text()
            } else {
                "binary read offset "@ + text::decimal_text(offset as nat) + " exceeds file size "@ + text::decimal_text(
                    self.size() as nat,
                )
            }),
    {
        if length > MAX_READ_BYTES {
            return Err("binary reads are limited to 1048576 bytes".to_owned());
        }
        self.ensure_fresh(seen)?;
        let size: usize = self.fingerprint.len as usize;
        if offset > size {
            return Err(
                "binary read offset ".to_owned().concat(decimal(offset as u64).as_str()).concat(
                    " exceeds file size ",
                ).concat(decimal(size as u64).as_str()),
            );
        }
        if length < size - offset {
            Ok(length)
        } else {
            Ok(size - offset)
        }
    }
}

/// Why a search is refused.
#[derive(Clone, Copy, Debug, PartialEq, Eq, Structural)]
pub enum SearchError {
    EmptyPattern,
    PatternTooLong,
    NotAByte,
    Range,
    Direction,
}

impl SearchError {
    pub open spec fn text(self) -> Seq<char> {
        match self {
            SearchError::EmptyPattern => "binary search pattern cannot be empty"@,
            SearchError::PatternTooLong => "binary search patterns are limited to 4096 bytes"@,
            SearchError::NotAByte => "binary search bytes must be 0..255"@,
            SearchError::Range => "binary search range is outside the file"@,
            SearchError::Direction => "binary search direction must be forward or reverse"@,
        }
    }

    pub fn message(self) -> (out: String)
        ensures
            out@ == self.text(),
    {
        match self {
            SearchError::EmptyPattern => "binary search pattern cannot be empty".to_owned(),
            SearchError::PatternTooLong => "binary search patterns are limited to 4096 bytes".to_owned(),
            SearchError::NotAByte => "binary search bytes must be 0..255".to_owned(),
            SearchError::Range => "binary search range is outside the file".to_owned(),
            SearchError::Direction => "binary search direction must be forward or reverse".to_owned(),
        }
    }
}

/// The bytes of a search pattern that was given as numbers.
pub fn checked_pattern(pattern: &Vec<usize>) -> (out: Result<Vec<u8>, SearchError>)
    ensures
        pattern@.len() == 0 ==> out == Err::<Vec<u8>, SearchError>(SearchError::EmptyPattern),
        pattern@.len() > MAX_PATTERN_BYTES ==> out == Err::<Vec<u8>, SearchError>(SearchError::PatternTooLong),
        0 < pattern@.len() <= MAX_PATTERN_BYTES ==> {
            &&& out is Ok <==> forall|i: int| 0 <= i < pattern@.len() ==> #[trigger] pattern@[i] <= 255
            &&& out matches Ok(bytes) ==> bytes@.len() == pattern@.len() && forall|i: int|
                0 <= i < pattern@.len() ==> #[trigger] bytes@[i] == pattern@[i]
            &&& out matches Err(e) ==> e == SearchError::NotAByte
        },
{
    if pattern.len() == 0 {
        return Err(SearchError::EmptyPattern);
    }
    if pattern.len() > MAX_PATTERN_BYTES {
        return Err(SearchError::PatternTooLong);
    }
    let mut bytes: Vec<u8> = Vec::new();
    let mut i: usize = 0;
    while i < pattern.len()
        invariant
            i <= pattern.len(),
            0 < pattern@.len() <= MAX_PATTERN_BYTES,
            bytes@.len() == i,
            forall|k: int| 0 <= k < i ==> #[trigger] pattern@[k] <= 255,
            forall|k: int| 0 <= k < i ==> #[trigger] bytes@[k] == pattern@[k],
        decreases pattern.len() - i,
    {
        if pattern[i] > 255 {
            return Err(SearchError::NotAByte);
        }
        bytes.push(pattern[i] as u8);
        i += 1;
    }
    Ok(bytes)
}

/// Whether the pattern stands in the bytes at the index `at`.
pub open spec fn matches_at(bytes: Seq<u8>, pattern: Seq<u8>, at: int) -> bool {
    0 <= at && at + pattern.len() <= bytes.len() && bytes.subrange(at, at + pattern.len()) == pattern
}

fn window_matches(bytes: &[u8], pattern: &[u8], at: usize) -> (out: bool)
    requires
        at + pattern.len() <= bytes.len(),
    ensures
        out == matches_at(bytes@, pattern@, at as int),
{
    let mut i: usize = 0;
    while i < pattern.len()
        invariant
            i <= pattern.len(),
            at + pattern.len() <= bytes.len(),
            forall|k: int| 0 <= k < i ==> bytes@[at + k] == pattern@[k],
        decreases pattern.len() - i,
    {
        if bytes[at + i] != pattern[i] {
            proof {
                assert(bytes@.subrange(at as int, at + pattern@.len())[i as int] != pattern@[i as int]);
            }
            return false;
        }
        i += 1;
    }
    proof {
        assert(bytes@.subrange(at as int, at + pattern@.len()) =~= pattern@);
    }
    true
}

/// Whether `out` is the first place of the pattern in the bytes.
pub open spec fn first_match(bytes: Seq<u8>, pattern: Seq<u8>, out: Option<usize>) -> bool {
    match out {
        Some(at) => matches_at(bytes, pattern, at as int) && forall|k: int| 0 <= k < at ==> !matches_at(bytes, pattern, k),
        None => forall|k: int| !matches_at(bytes, pattern, k),
    }
}

/// Whether `out` is the last place of the pattern in the bytes.
pub open spec fn last_match(bytes: Seq<u8>, pattern: Seq<u8>, out: Option<usize>) -> bool {
    match out {
        Some(at) => matches_at(bytes, pattern, at as int) && forall|k: int| at < k ==> !matches_at(bytes, pattern, k),
        None => forall|k: int| !matches_at(bytes, pattern, k),
    }
}

fn find_first(bytes: &[u8], pattern: &[u8]) -> (out: Option<usize>)
    ensures
        first_match(bytes@, pattern@, out),
{
    if pattern.len() > bytes.len() {
        return None;
    }
    let last: usize = bytes.len() - pattern.len();
    let mut at: usize = 0;
    loop
        invariant
            at <= last,
            last + pattern.len() == bytes.len(),
            forall|k: int| 0 <= k < at ==> !matches_at(bytes@, pattern@, k),
        decreases last - at,
    {
        if window_matches(bytes, pattern, at) {
            return Some(at);
        }
        if at == last {
            return None;
        }
        at += 1;
    }
}

fn find_last(bytes: &[u8], pattern: &[u8]) -> (out: Option<usize>)
    ensures
        last_match(bytes@, pattern@, out),
{
    if pattern.len() > bytes.len() {
        return None;
    }
    let mut at: usize = bytes.len() - pattern.len();
    loop
        invariant
            at + pattern.len() <= bytes.len(),
            forall|k: int| at < k ==> !matches_at(bytes@, pattern@, k),
        decreases at,
    {
        if window_matches(bytes, pattern, at) {
            return Some(at);
        }
        if at == 0 {
            return None;
        }
        at -= 1;
    }
}

/// A search that reads the file window by window.
pub struct BinarySearch {
    pub pattern: Vec<u8>,
    pub start: usize,
    pub end: usize,
    /// Where the next window starts (forward) or ends (reverse).
    pub cursor: usize,
    pub reverse: bool,
}

/// What a window of the file brought.
#[derive(Clone, Copy, Debug, PartialEq, Eq, Structural)]
pub enum SearchStep {
    Found(usize),
    /// The search goes on with another window.
    More,
    /// The file ended before the window did.
    Ended,
}

impl BinarySearch {
    pub open spec fn wf(&self) -> bool {
        &&& 0 < self.pattern@.len() <= MAX_PATTERN_BYTES
        &&& self.start <= self.cursor <= self.end
    }

    /// A search for the pattern between `start` and `end`.
    pub fn new(pattern: Vec<u8>, start: usize, end: usize, reverse: bool) -> (out: BinarySearch)
        requires
            0 < pattern@.len() <= MAX_PATTERN_BYTES,
            start <= end,
        ensures
            out.wf(),
            out == (BinarySearch {
                pattern,
                start,
                end,
                cursor: if reverse {
                    end
                } else {
                    start
                },
                reverse,
            }),
    {
        let cursor: usize = if reverse {
            end
        } else {
            start
        };
        BinarySearch { pattern, start, end, cursor, reverse }
    }

    /// How far the cursor moves with the next window.
    pub open spec fn stride(&self) -> int {
        let left = if self.reverse {
            self.cursor - self.start
        } else {
            self.end - self.cursor
        };
        if left < SEARCH_CHUNK_BYTES {
            left
        } else {
            SEARCH_CHUNK_BYTES as int
        }
    }

    /// Where the next window starts.
    pub open spec fn window_start(&self) -> int {
        if self.reverse {
            self.cursor - self.stride()
        } else {
            self.cursor as int
        }
    }

    /// Where the next window ends: the pattern may reach over the stride.
    pub open spec fn window_end(&self) -> int {
        let reach = self.window_start() + self.stride() + self.pattern@.len() - 1;
        if reach < self.end {
            reach
        } else {
            self.end as int
        }
    }

    /// The offset and the length of the next window, if there is one.
    pub fn window(&self) -> (out: Option<(usize, usize)>)
        requires
            self.wf(),
        ensures
            out is None <==> self.stride() == 0,
            out matches Some((offset, length)) ==> offset == self.window_start() && offset + length == self.window_end(),
    {
        let left: usize = if self.reverse {
            self.cursor - self.start
        } else {
            self.end - self.cursor
        };
        if left == 0 {
            return None;
        }
        let stride: usize = if left < SEARCH_CHUNK_BYTES {
            left
        } else {
            SEARCH_CHUNK_BYTES
        };
        let offset: usize = if self.reverse {
            self.cursor - stride
        } else {
            self.cursor
        };
        let overlap: usize = self.pattern.len() - 1;
        let room: usize = self.end - offset;
        let length: usize = if overlap < room - stride {
            stride + overlap
        } else {
            room
        };
        Some((offset, length))
    }

    /// Looks for the pattern in the window that was asked for, of which the
    /// file may have given less.
    pub fn supply(&mut self, bytes: &[u8]) -> (out: SearchStep)
        requires
            old(self).wf(),
            old(self).stride() > 0,
            bytes.len() <= old(self).window_end() - old(self).window_start(),
        ensures
            final(self).wf(),
            final(self).pattern == old(self).pattern,
            final(self).start == old(self).start,
            final(self).end == old(self).end,
            final(self).reverse == old(self).reverse,
            match out {
                SearchStep::Found(offset) => {
                    &&& *final(self) == *old(self)
                    &&& offset >= old(self).window_start()
                    &&& if old(self).reverse {
                        last_match(bytes@, old(self).pattern@, Some((offset - old(self).window_start()) as usize))
                    } else {
                        first_match(bytes@, old(self).pattern@, Some((offset - old(self).window_start()) as usize))
                    }
                },
                SearchStep::More => {
                    &&& forall|k: int| !matches_at(bytes@, old(self).pattern@, k)
                    &&& final(self).cursor == (if old(self).reverse {
                        old(self).cursor - old(self).stride()
                    } else {
                        old(self).cursor + old(self).stride()
                    })
                    &&& old(self).reverse || bytes.len() == old(self).window_end() - old(self).window_start()
                },
                SearchStep::Ended => {
                    &&& forall|k: int| !matches_at(bytes@, old(self).pattern@, k)
                    &&& *final(self) == *old(self)
                    &&& !old(self).reverse && bytes.len() < old(self).window_end() - old(self).window_start()
                },
            },
    {
        if self.reverse {
            let left: usize = self.cursor - self.start;
            let stride: usize = if left < SEARCH_CHUNK_BYTES {
                left
            } else {
                SEARCH_CHUNK_BYTES
            };
            let base: usize = self.cursor - stride;
            if let Some(index) = find_last(bytes, self.pattern.as_slice()) {
                proof {
                    assert(matches_at(bytes@, self.pattern@, index as int));
                }
                return SearchStep::Found(base + index);
            }
            self.cursor = base;
            SearchStep::More
        } else {
            let left: usize = self.end - self.cursor;
            let stride: usize = if left < SEARCH_CHUNK_BYTES {
                left
            } else {
                SEARCH_CHUNK_BYTES
            };
            let overlap: usize = self.pattern.len() - 1;
            let length: usize = if overlap < left - stride {
                stride + overlap
            } else {
                left
            };
            if let Some(index) = find_first(bytes, self.pattern.as_slice()) {
                proof {
                    assert(matches_at(bytes@, self.pattern@, index as int));
                }
                return SearchStep::Found(self.cursor + index);
            }
            if bytes.len() < length {
                return SearchStep::Ended;
            }
            self.cursor = self.cursor + stride;
            SearchStep::More
        }
    }
}

/// What a search ended with.
#[derive(Clone, Copy, Debug, PartialEq, Eq, Structural)]
pub enum SearchOutcome {
    Found(usize),
    NotFound,
    Cancelled,
    Stale,
    Error(SearchError),
}

/// Ends a search that was cancelled or whose file is stale.
pub fn check_search_progress(cancelled: bool, stale: bool) -> (out: Option<SearchOutcome>)
    ensures
        out == (if cancelled {
            Some(SearchOutcome::Cancelled)
        } else if stale {
            Some(SearchOutcome::Stale)
        } else {
            None
        }),
{
    if cancelled {
        Some(SearchOutcome::Cancelled)
    } else if stale {
        Some(SearchOutcome::Stale)
    } else {
        None
    }
}

/// How a search in a file of the given size begins.
pub enum SearchStart {
    Search(BinarySearch),
    Over(SearchOutcome),
}

/// Whether the pattern stands at `at`, inside the range.
pub open spec fn hit(contents: Seq<u8>, pattern: Seq<u8>, start: int, end: int, at: int) -> bool {
    start <= at && at + pattern.len() <= end && matches_at(contents, pattern, at)
}

/// Begins a search for the pattern between `start` and `end` in a file of the given size.
pub fn begin_search(pattern: Vec<u8>, start: usize, end: usize, direction: &str, size: usize) -> (out: SearchStart)
    requires
        0 < pattern@.len() <= MAX_PATTERN_BYTES,
    ensures
        match out {
            SearchStart::Over(SearchOutcome::Error(SearchError::Range)) => start > end || end > size,
            SearchStart::Over(SearchOutcome::NotFound) => start <= end <= size && end - start < pattern@.len(),
            SearchStart::Over(SearchOutcome::Error(SearchError::Direction)) => {
                &&& start <= end <= size && end - start >= pattern@.len()
                &&& direction@ != "forward"@ && direction@ != "reverse"@
            },
            SearchStart::Over(_) => false,
            SearchStart::Search(search) => {
                &&& start <= end <= size && end - start >= pattern@.len()
                &&& search.wf()
                &&& search.pattern == pattern
                &&& search.start == start
                &&& search.end == end
                &&& direction@ == "forward"@ && !search.reverse && search.cursor == start || direction@ == "reverse"@
                    && search.reverse && search.cursor == end
            },
        },
{
    if start > end || end > size {
        return SearchStart::Over(SearchOutcome::Error(SearchError::Range));
    }
    if end - start < pattern.len() {
        return SearchStart::Over(SearchOutcome::NotFound);
    }
    if same_text(direction, "forward") {
        SearchStart::Search(BinarySearch::new(pattern, start, end, false))
    } else if same_text(direction, "reverse") {
        SearchStart::Search(BinarySearch::new(pattern, start, end, true))
    } else {
        SearchStart::Over(SearchOutcome::Error(SearchError::Direction))
    }
}

/// Searches contents that are held in memory.
pub fn search(contents: &[u8], pattern: Vec<u8>, start: usize, end: usize, direction: &str) -> (out: SearchOutcome)
    requires
        0 < pattern@.len() <= MAX_PATTERN_BYTES,
    ensures
        start > end || end > contents.len() ==> out == SearchOutcome::Error(SearchError::Range),
        start <= end <= contents.len() && end - start < pattern@.len() ==> out == SearchOutcome::NotFound,
        start <= end <= contents.len() && end - start >= pattern@.len() ==> if direction@ == "forward"@ {
            match out {
                SearchOutcome::Found(at) => hit(contents@, pattern@, start as int, end as int, at as int) && forall|k: int|
                    k < at ==> !hit(contents@, pattern@, start as int, end as int, k),
                SearchOutcome::NotFound => forall|k: int| !hit(contents@, pattern@, start as int, end as int, k),
                _ => false,
            }
        } else if direction@ == "reverse"@ {
            match out {
                SearchOutcome::Found(at) => hit(contents@, pattern@, start as int, end as int, at as int) && forall|k: int|
                    k > at ==> !hit(contents@, pattern@, start as int, end as int, k),
                SearchOutcome::NotFound => forall|k: int| !hit(contents@, pattern@, start as int, end as int, k),
                _ => false,
            }
        } else {
            out == SearchOutcome::Error(SearchError::Direction)
        },
{
    let ghost wanted = pattern@;
    let mut search = match begin_search(pattern, start, end, direction, contents.len()) {
        SearchStart::Over(outcome) => {
            proof {
                reveal_strlit("forward");
                reveal_strlit("reverse");
            }
            return outcome;
        },
        SearchStart::Search(search) => search,
    };
    proof {
        reveal_strlit("forward");
        reveal_strlit("reverse");
        assert("forward"@ != "reverse"@) by {
            assert("forward"@[0] != "reverse"@[0]);
        }
    }
    let reverse = search.reverse;
    loop
        invariant
            search.wf(),
            search.pattern@ == wanted,
            search.start == start,
            search.end == end,
            search.reverse == reverse,
            start <= end <= contents.len(),
            !reverse ==> forall|k: int| k < search.cursor ==> !hit(contents@, wanted, start as int, end as int, k),
            reverse ==> forall|k: int| k >= search.cursor ==> !hit(contents@, wanted, start as int, end as int, k),
            wanted == pattern@,
            end - start >= pattern@.len(),
            direction@ == "forward"@ ==> !reverse,
            direction@ == "reverse"@ ==> reverse,
            direction@ == "forward"@ || direction@ == "reverse"@,
        decreases search.stride() + (if search.reverse { search.cursor - search.start } else { search.end - search.cursor }),
    {
        match search.window() {
            None => {
                return SearchOutcome::NotFound;
            },
            Some((offset, length)) => {
                let ghost before = search;
                let chunk = vstd::slice::slice_subrange(contents, offset, offset + length);
                let step = search.supply(chunk);
                proof {
                    assert forall|k: int| before.window_start() <= k < before.window_start() + before.stride() implies hit(
                        contents@,
                        wanted,
                        start as int,
                        end as int,
                        k,
                    ) == matches_at(chunk@, wanted, k - offset) by {
                        lemma_in_window(contents@, wanted, offset as int, length as int, k);
                    }
                }
                match step {
                    SearchStep::Found(at) => {
                        proof {
                            lemma_in_window(contents@, wanted, offset as int, length as int, at as int);
                        }
                        return SearchOutcome::Found(at);
                    },
                    SearchStep::More => {},
                    SearchStep::Ended => {
                        return SearchOutcome::NotFound;
                    },
                }
            },
        }
    }
}

proof fn lemma_in_window(contents: Seq<u8>, pattern: Seq<u8>, offset: int, length: int, at: int)
    requires
        0 <= offset <= at,
        0 <= length,
        offset + length <= contents.len(),
    ensures
        at + pattern.len() <= offset + length ==> matches_at(
            contents.subrange(offset, offset + length),
            pattern,
            at - offset,
        ) == matches_at(contents, pattern, at),
        at + pattern.len() > offset + length ==> !matches_at(
            contents.subrange(offset, offset + length),
            pattern,
            at - offset,
        ),
{
    if at + pattern.len() <= offset + length {
        assert(contents.subrange(offset, offset + length).subrange(at - offset, at - offset + pattern.len())
            =~= contents.subrange(at, at + pattern.len()));
    }
}

} // verus!
