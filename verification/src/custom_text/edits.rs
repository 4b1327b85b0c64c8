//! Edits that extensions make to the text of a document.

use vstd::prelude::*;

use crate::text::{decimal, decimal_text, optional_text};
use crate::value::{integer, string, ScriptValue};

verus! {

/// A replacement of a range of characters; `None` deletes the range.
#[derive(Debug)]
pub struct TextEdit {
    pub start: usize,
    pub end: usize,
    pub replacement: Option<String>,
}

pub struct EditView {
    pub start: usize,
    pub end: usize,
    pub replacement: Option<Seq<char>>,
}

impl View for TextEdit {
    type V = EditView;

    open spec fn view(&self) -> EditView {
        EditView { start: self.start, end: self.end, replacement: optional_text(self.replacement) }
    }
}

/// Why edits are refused.
#[derive(Clone, Copy, Debug, PartialEq, Eq, Structural)]
pub enum EditError {
    NotAList,
    RowNotAList,
    RowLength,
    Start,
    End,
    Replacement,
    OutOfRange { start: usize, end: usize, length: usize },
    Overlap,
}

impl EditError {
    pub open spec fn text(self) -> Seq<char> {
        match self {
            EditError::NotAList => "custom text edits must be a list"@,
            EditError::RowNotAList => "each custom text edit must be a list"@,
            EditError::RowLength => "each custom text edit must contain start, end, and replacement"@,
            EditError::Start => "custom text edit start must be a non-negative integer"@,
            EditError::End => "custom text edit end must be a non-negative integer"@,
            EditError::Replacement => "custom text edit replacement must be a string"@,
            EditError::OutOfRange { start, end, length } => "custom text edit range "@ + decimal_text(start as nat) + ".."@
                + decimal_text(end as nat) + " is outside document length "@ + decimal_text(length as nat),
            EditError::Overlap => "custom text edits must be sorted and non-overlapping"@,
        }
    }

    pub fn message(self) -> (out: String)
        ensures
            out@ == self.text(),
    {
        match self {
            EditError::NotAList => "custom text edits must be a list".to_owned(),
            EditError::RowNotAList => "each custom text edit must be a list".to_owned(),
            EditError::RowLength => "each custom text edit must contain start, end, and replacement".to_owned(),
            EditError::Start => "custom text edit start must be a non-negative integer".to_owned(),
            EditError::End => "custom text edit end must be a non-negative integer".to_owned(),
            EditError::Replacement => "custom text edit replacement must be a string".to_owned(),
            EditError::OutOfRange { start, end, length } => "custom text edit range ".to_owned().concat(
                decimal(start as u64).as_str(),
            ).concat("..").concat(decimal(end as u64).as_str()).concat(" is outside document length ").concat(
                decimal(length as u64).as_str(),
            ),
            EditError::Overlap => "custom text edits must be sorted and non-overlapping".to_owned(),
        }
    }
}

/// The edit that a row `(start end replacement)` stands for.
pub open spec fn edit_row(char_len: usize, row: ScriptValue) -> Result<EditView, EditError> {
    if !(row is List) {
        Err(EditError::RowNotAList)
    } else if row.items().len() != 3 {
        Err(EditError::RowLength)
    } else if row.items()[0].index() is None {
        Err(EditError::Start)
    } else if row.items()[1].index() is None {
        Err(EditError::End)
    } else if row.items()[2].text() is None {
        Err(EditError::Replacement)
    } else {
        let start = row.items()[0].index()->0;
        let end = row.items()[1].index()->0;
        let text = row.items()[2].text()->0;
        if start > end || end > char_len {
            Err(EditError::OutOfRange { start, end, length: char_len })
        } else {
            Ok(
                EditView {
                    start,
                    end,
                    replacement: if text.len() == 0 {
                        None
                    } else {
                        Some(text)
                    },
                },
            )
        }
    }
}

/// The edits that the rows from the one after `done` on add to it.
pub open spec fn edits_of(char_len: usize, rows: Seq<ScriptValue>, done: Seq<EditView>) -> Result<Seq<EditView>, EditError>
    decreases rows.len() - done.len(),
{
    if done.len() >= rows.len() {
        Ok(done)
    } else {
        match edit_row(char_len, rows[done.len() as int]) {
            Err(e) => Err(e),
            Ok(edit) => if done.len() > 0 && edit.start < done.last().end {
                Err(EditError::Overlap)
            } else {
                edits_of(char_len, rows, done.push(edit))
            },
        }
    }
}

pub open spec fn edit_views(edits: Seq<TextEdit>) -> Seq<EditView> {
    Seq::new(edits.len(), |i: int| edits[i]@)
}

fn parse_row(char_len: usize, row: &ScriptValue) -> (out: Result<TextEdit, EditError>)
    ensures
        match out {
            Ok(edit) => edit_row(char_len, *row) == Ok::<EditView, EditError>(edit@),
            Err(e) => edit_row(char_len, *row) == Err::<EditView, EditError>(e),
        },
{
    let values = match row {
        ScriptValue::List(values) => values,
        _ => {
            return Err(EditError::RowNotAList);
        },
    };
    if values.len() != 3 {
        return Err(EditError::RowLength);
    }
    let start = match integer(&values[0]) {
        Some(start) => start,
        None => {
            return Err(EditError::Start);
        },
    };
    let end = match integer(&values[1]) {
        Some(end) => end,
        None => {
            return Err(EditError::End);
        },
    };
    let text = match string(&values[2]) {
        Some(text) => text,
        None => {
            return Err(EditError::Replacement);
        },
    };
    if start > end || end > char_len {
        return Err(EditError::OutOfRange { start, end, length: char_len });
    }
    let replacement = if text.as_str().is_empty() {
        None
    } else {
        Some(text)
    };
    Ok(TextEdit { start, end, replacement })
}

/// Reads edits of a text of `char_len` characters.
pub fn parse_edits(char_len: usize, value: &ScriptValue) -> (out: Result<Vec<TextEdit>, EditError>)
    ensures
        !(*value is List) ==> out == Err::<Vec<TextEdit>, EditError>(EditError::NotAList),
        *value is List ==> match edits_of(char_len, value.items(), Seq::empty()) {
            Ok(edits) => out is Ok && edit_views(out->Ok_0@) == edits,
            Err(e) => out == Err::<Vec<TextEdit>, EditError>(e),
        },
{
    let rows = match value {
        ScriptValue::List(rows) => rows,
        _ => {
            return Err(EditError::NotAList);
        },
    };
    let mut edits: Vec<TextEdit> = Vec::new();
    let mut previous_end: usize = 0;
    let mut i: usize = 0;
    proof {
        assert(edit_views(edits@) =~= Seq::<EditView>::empty());
    }
    while i < rows.len()
        invariant
            i <= rows@.len(),
            rows@ == value.items(),
            *value is List,
            edits@.len() == i,
            i > 0 ==> previous_end == edit_views(edits@).last().end,
            edits_of(char_len, rows@, Seq::empty()) == edits_of(char_len, rows@, edit_views(edits@)),
        decreases rows.len() - i,
    {
        let edit = match parse_row(char_len, &rows[i]) {
            Ok(edit) => edit,
            Err(e) => {
                return Err(e);
            },
        };
        if i > 0 && edit.start < previous_end {
            return Err(EditError::Overlap);
        }
        previous_end = edit.end;
        let ghost before = edit_views(edits@);
        let ghost view = edit@;
        edits.push(edit);
        i += 1;
        proof {
            assert(edit_views(edits@) =~= before.push(view));
        }
    }
    Ok(edits)
}

/// Whether each edit lies in the text and starts where the one before it ends
/// or later.
pub open spec fn orderly(char_len: usize, edits: Seq<EditView>) -> bool {
    &&& forall|i: int| 0 <= i < edits.len() ==> (#[trigger] edits[i]).start <= edits[i].end && edits[i].end <= char_len
    &&& forall|i: int, j: int| 0 <= i < j < edits.len() ==> (#[trigger] edits[i]).end <= (#[trigger] edits[j]).start
}

/// Accepted edits are sorted, do not overlap and lie in the text.
pub proof fn law_accepted_edits_are_orderly(char_len: usize, rows: Seq<ScriptValue>, done: Seq<EditView>)
    requires
        orderly(char_len, done),
        edits_of(char_len, rows, done) is Ok,
    ensures
        orderly(char_len, edits_of(char_len, rows, done)->Ok_0),
    decreases rows.len() - done.len(),
{
    if done.len() < rows.len() {
        let edit = edit_row(char_len, rows[done.len() as int])->Ok_0;
        let more = done.push(edit);
        assert forall|i: int, j: int| 0 <= i < j < more.len() implies (#[trigger] more[i]).end <= (#[trigger] more[j]).start by {
            if j == done.len() {
                let last = done.len() - 1;
                if i < last {
                    assert(done[i].end <= done[last].start);
                    assert(done[last].start <= done[last].end);
                }
            }
        }
        law_accepted_edits_are_orderly(char_len, rows, more);
    }
}

/// Whether a row holds a start, an end and a text.
pub open spec fn row_says(row: ScriptValue, start: usize, end: usize, text: Seq<char>) -> bool {
    &&& row is List
    &&& row->List_0@.len() == 3
    &&& row->List_0@[0] is Int && row->List_0@[0]->Int_0 == start
    &&& row->List_0@[1] is Int && row->List_0@[1]->Int_0 == end
    &&& row->List_0@[2] is Text && row->List_0@[2]->Text_0@ == text
}

/// What the text of an edit is: the one that takes the place of its range.
pub open spec fn inserted(edit: EditView) -> Seq<char> {
    match edit.replacement {
        Some(text) => text,
        None => Seq::empty(),
    }
}

/// Whether an edit is the one that a row stands for.
pub open spec fn row_edit(row: ScriptValue, edit: EditView) -> bool {
    &&& row_says(row, edit.start, edit.end, inserted(edit))
    &&& edit.replacement is None <==> inserted(edit).len() == 0
}

/// A row is accepted exactly where it holds a start, an end and a text, the start
/// is not behind the end and the end is not behind the text of the document. The
/// edit has the start and the end of the row and inserts its text; it has no
/// replacement exactly where that text is empty.
pub proof fn law_a_row_is_read_as_it_is(char_len: usize, row: ScriptValue, start: usize, end: usize, text: Seq<char>)
    ensures
        edit_row(char_len, row) is Ok ==> row_edit(row, edit_row(char_len, row)->Ok_0),
        row_says(row, start, end, text) && start <= end <= char_len ==> edit_row(char_len, row) is Ok,
        row_says(row, start, end, text) && !(start <= end <= char_len) ==> edit_row(char_len, row) is Err,
{
    if edit_row(char_len, row) is Ok {
        let words = row.items()[2].text()->0;
        if words.len() == 0 {
            assert(words =~= Seq::<char>::empty());
        }
    }
}

/// Accepted edits stand one for one for the rows: edit `i` has the start and the
/// end of row `i` and inserts the text of row `i`, with no replacement exactly
/// where that text is empty.
pub proof fn law_edits_stand_for_their_rows(char_len: usize, rows: Seq<ScriptValue>, done: Seq<EditView>)
    requires
        done.len() <= rows.len(),
        forall|i: int| 0 <= i < done.len() ==> row_edit(rows[i], #[trigger] done[i]),
        edits_of(char_len, rows, done) is Ok,
    ensures
        edits_of(char_len, rows, done)->Ok_0.len() == rows.len(),
        forall|i: int| 0 <= i < rows.len() ==> row_edit(rows[i], #[trigger] edits_of(char_len, rows, done)->Ok_0[i]),
    decreases rows.len() - done.len(),
{
    if done.len() < rows.len() {
        let row = rows[done.len() as int];
        let edit = edit_row(char_len, row)->Ok_0;
        law_a_row_is_read_as_it_is(char_len, row, 0, 0, Seq::empty());
        let more = done.push(edit);
        assert forall|i: int| 0 <= i < more.len() implies row_edit(rows[i], #[trigger] more[i]) by {
            if i < done.len() {
                assert(more[i] == done[i]);
            }
        }
        law_edits_stand_for_their_rows(char_len, rows, more);
    }
}

/// Rows that hold orderly edits are accepted.
pub proof fn law_orderly_rows_are_accepted(char_len: usize, rows: Seq<ScriptValue>, edits: Seq<EditView>, n: int)
    requires
        edits.len() == rows.len(),
        0 <= n <= rows.len(),
        orderly(char_len, edits),
        forall|i: int| 0 <= i < rows.len() ==> row_edit(rows[i], #[trigger] edits[i]),
    ensures
        edits_of(char_len, rows, edits.subrange(0, n)) == Ok::<Seq<EditView>, EditError>(edits),
    decreases rows.len() - n,
{
    let done = edits.subrange(0, n);
    if n < rows.len() {
        let edit = edits[n];
        law_a_row_is_read_as_it_is(char_len, rows[n], edit.start, edit.end, inserted(edit));
        assert(row_edit(rows[n], edits[n]));
        let found = edit_row(char_len, rows[n])->Ok_0;
        assert(found.start == edit.start && found.end == edit.end);
        assert(inserted(found) == inserted(edit));
        assert(found == edit);
        if n > 0 {
            assert(done.last() == edits[n - 1]);
            assert(edits[n - 1].end <= edits[n].start);
        }
        assert(done.push(edit) =~= edits.subrange(0, n + 1));
        law_orderly_rows_are_accepted(char_len, rows, edits, n + 1);
    } else {
        assert(done =~= edits);
    }
}

} // verus!
