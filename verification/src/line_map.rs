//! Where the lines of a text start.

use vstd::prelude::*;

verus! {

/// The characters at which lines start, and the length of the text.
#[derive(Debug)]
pub struct LineMap {
    pub starts: Vec<usize>,
    pub len_chars: usize,
}

/// Whether the first line starts the text and each line starts after the one
/// before it.
pub open spec fn starts_ok(starts: Seq<usize>, len_chars: usize) -> bool {
    &&& starts.len() > 0
    &&& starts[0] == 0
    &&& forall|i: int, j: int| 0 <= i < j < starts.len() ==> (#[trigger] starts[i]) < (#[trigger] starts[j])
    &&& starts.last() <= len_chars
}

/// The last of the first `n` lines that does not start after a character.
pub open spec fn last_start(starts: Seq<usize>, char_idx: int, n: int) -> int
    decreases n,
{
    if n <= 1 {
        0
    } else if starts[n - 1] <= char_idx {
        n - 1
    } else {
        last_start(starts, char_idx, n - 1)
    }
}

pub proof fn lemma_last_start_bounds(starts: Seq<usize>, char_idx: int, n: int)
    requires
        1 <= n,
    ensures
        0 <= last_start(starts, char_idx, n) < n,
    decreases n,
{
    if n > 1 && starts[n - 1] > char_idx {
        lemma_last_start_bounds(starts, char_idx, n - 1);
    }
}

proof fn lemma_last_start(map: LineMap, line: int, char_idx: int, n: int)
    requires
        map.wf(),
        map.line_holds(line, char_idx),
        line < n <= map.starts@.len(),
    ensures
        last_start(map.starts@, char_idx, n) == line,
    decreases n,
{
    if n > 1 {
        if map.starts@[n - 1] <= char_idx {
            if line < n - 1 {
                if line + 1 < n - 1 {
                    assert(map.starts@[line + 1] < map.starts@[n - 1]);
                }
                assert(false);
            }
        } else {
            lemma_last_start(map, line, char_idx, n - 1);
        }
    }
}

impl LineMap {
    pub open spec fn wf(&self) -> bool {
        starts_ok(self.starts@, self.len_chars)
    }

    /// The character at which a line starts; past the last line, the end.
    pub open spec fn start_of(&self, line: int) -> usize {
        if 0 <= line < self.starts@.len() {
            self.starts@[line]
        } else {
            self.len_chars
        }
    }

    /// Whether a line holds a character: it starts there or before, and the
    /// next one after it.
    pub open spec fn line_holds(&self, line: int, char_idx: int) -> bool {
        &&& 0 <= line < self.starts@.len()
        &&& self.starts@[line] <= char_idx
        &&& line + 1 < self.starts@.len() ==> char_idx < self.starts@[line + 1]
    }

    /// The line that holds a character.
    pub open spec fn line_of(&self, char_idx: int) -> int {
        last_start(self.starts@, char_idx, self.starts@.len() as int)
    }

    pub fn len_lines(&self) -> (out: usize)
        ensures
            out == self.starts@.len(),
    {
        self.starts.len()
    }

    /// The character at which a line starts; past the last line, the end.
    pub fn line_to_char(&self, line: usize) -> (out: usize)
        requires
            self.wf(),
        ensures
            out == self.start_of(line as int),
            out <= self.len_chars,
    {
        if line < self.starts.len() {
            proof {
                let last = self.starts@.len() - 1;
                if line < last {
                    assert(self.starts@[line as int] < self.starts@[last]);
                }
            }
            self.starts[line]
        } else {
            self.len_chars
        }
    }

    /// The line that holds a character.
    pub fn char_to_line(&self, char_idx: usize) -> (out: usize)
        requires
            self.wf(),
        ensures
            self.line_holds(out as int, char_idx as int),
            out == self.line_of(char_idx as int),
    {
        let mut low: usize = 0;
        let mut high: usize = self.starts.len();
        while high - low > 1
            invariant
                self.wf(),
                low < high <= self.starts@.len(),
                self.starts@[low as int] <= char_idx,
                high < self.starts@.len() ==> char_idx < self.starts@[high as int],
            decreases high - low,
        {
            let middle: usize = low + (high - low) / 2;
            if self.starts[middle] <= char_idx {
                low = middle;
            } else {
                high = middle;
            }
        }
        proof {
            lemma_last_start(*self, low as int, char_idx as int, self.starts@.len() as int);
        }
        low
    }
}

/// A character is held by one line only.
pub proof fn law_one_line_holds_a_character(map: LineMap, a: int, b: int, char_idx: int)
    requires
        map.wf(),
        map.line_holds(a, char_idx),
        map.line_holds(b, char_idx),
    ensures
        a == b,
{
    if a < b {
        if a + 1 < b {
            assert(map.starts@[a + 1] < map.starts@[b]);
        }
    } else if b < a {
        if b + 1 < a {
            assert(map.starts@[b + 1] < map.starts@[a]);
        }
    }
}

/// The start of a line is held by that line.
pub proof fn law_line_starts_are_held(map: LineMap, line: int)
    requires
        map.wf(),
        0 <= line < map.starts@.len(),
    ensures
        map.line_holds(line, map.start_of(line) as int),
{
}

} // verus!
