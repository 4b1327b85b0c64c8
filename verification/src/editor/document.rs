//! Documents, as far as their views are concerned.

use vstd::prelude::*;

use crate::custom_text::annotations::CustomTextAnnotations;
use crate::custom_text::store::{CustomTextAnnotationStore, NamedAnnotations};
use crate::line_map::LineMap;
use crate::tree::{DocumentId, ViewId};

verus! {

/// What a view shows of its document.
#[derive(Clone, Copy, Debug, PartialEq, Eq, Structural)]
pub struct ViewPosition {
    /// The character that the view starts at.
    pub anchor: usize,
    pub horizontal_offset: usize,
    pub vertical_offset: usize,
}

/// A piece of the text between where it was begun and where the cursor is.
#[derive(Clone, Copy, Debug, PartialEq, Eq, Structural)]
pub struct SelectionRange {
    pub anchor: usize,
    pub head: usize,
}

/// What a view has selected in its document.
#[derive(Debug)]
pub struct Selection {
    pub ranges: Vec<SelectionRange>,
    pub primary: usize,
}

/// What a document knows of one of its views.
#[derive(Debug)]
pub struct ViewData {
    pub view: ViewId,
    pub position: ViewPosition,
    pub selection: Option<Selection>,
}

#[derive(Debug)]
pub struct Document {
    pub id: DocumentId,
    pub lines: LineMap,
    pub modified: bool,
    pub view_data: Vec<ViewData>,
    pub custom_text_annotations: CustomTextAnnotationStore,
}

/// Where a view stands before it is scrolled.
pub open spec fn top() -> ViewPosition {
    ViewPosition { anchor: 0, horizontal_offset: 0, vertical_offset: 0 }
}

/// The first place of a view at or after `from`.
pub open spec fn find_view(list: Seq<ViewData>, view: ViewId, from: int) -> Option<int>
    decreases list.len() - from,
{
    if from < 0 || from >= list.len() {
        None
    } else if list[from].view == view {
        Some(from)
    } else {
        find_view(list, view, from + 1)
    }
}

pub proof fn lemma_find_view(list: Seq<ViewData>, view: ViewId, from: int)
    requires
        0 <= from,
    ensures
        match find_view(list, view, from) {
            Some(i) => from <= i < list.len() && list[i].view == view && forall|k: int|
                from <= k < i ==> (#[trigger] list[k]).view != view,
            None => forall|k: int| from <= k < list.len() ==> (#[trigger] list[k]).view != view,
        },
    decreases list.len() - from,
{
    if from < list.len() && list[from].view != view {
        lemma_find_view(list, view, from + 1);
    }
}

pub open spec fn distinct_views(list: Seq<ViewData>) -> bool {
    forall|i: int, j: int| 0 <= i < j < list.len() ==> (#[trigger] list[i]).view != (#[trigger] list[j]).view
}

/// What is known of a view.
pub open spec fn data_of(list: Seq<ViewData>, view: ViewId) -> Option<ViewData> {
    match find_view(list, view, 0) {
        Some(i) => Some(list[i]),
        None => None,
    }
}

/// What is known of a view is known of it in any list that holds it once.
proof fn lemma_data_of(list: Seq<ViewData>, view: ViewId, i: int)
    requires
        distinct_views(list),
        0 <= i < list.len(),
        list[i].view == view,
    ensures
        data_of(list, view) == Some(list[i]),
{
    lemma_find_view(list, view, 0);
    let found = find_view(list, view, 0)->0;
    if found < i {
        assert(list[found].view != list[i].view);
    }
}

impl Document {
    pub open spec fn wf(&self) -> bool {
        self.lines.wf() && self.custom_text_annotations.wf() && distinct_views(self.view_data@)
    }

    /// What the document knows of a view, if it knows the view.
    pub open spec fn data(&self, view: ViewId) -> Option<ViewData> {
        data_of(self.view_data@, view)
    }

    /// Where a view stands. One that is not known stands at the top.
    pub open spec fn position(&self, view: ViewId) -> ViewPosition {
        match self.data(view) {
            Some(data) => data.position,
            None => top(),
        }
    }

    /// What a view has selected, if it was said.
    pub open spec fn selected(&self, view: ViewId) -> Option<Selection> {
        match self.data(view) {
            Some(data) => data.selection,
            None => None,
        }
    }

    /// Whether only what is known of views differs.
    pub open spec fn same_but_views(&self, other: &Document) -> bool {
        &&& self.id == other.id
        &&& self.lines == other.lines
        &&& self.modified == other.modified
        &&& self.custom_text_annotations == other.custom_text_annotations
    }

    fn view_index(&self, view: ViewId) -> (out: Option<usize>)
        ensures
            match out {
                Some(i) => i < self.view_data@.len() && find_view(self.view_data@, view, 0) == Some(i as int),
                None => find_view(self.view_data@, view, 0) is None,
            },
    {
        let mut i: usize = 0;
        while i < self.view_data.len()
            invariant
                i <= self.view_data@.len(),
                find_view(self.view_data@, view, 0) == find_view(self.view_data@, view, i as int),
            decreases self.view_data.len() - i,
        {
            if self.view_data[i].view == view {
                return Some(i);
            }
            i += 1;
        }
        None
    }

    /// Where a view stands. One that is not known stands at the top.
    pub fn view_offset(&self, view: ViewId) -> (out: ViewPosition)
        ensures
            out == self.position(view),
    {
        match self.view_index(view) {
            Some(i) => self.view_data[i].position,
            None => ViewPosition { anchor: 0, horizontal_offset: 0, vertical_offset: 0 },
        }
    }

    /// What a view has selected, if it was said.
    pub fn selection(&self, view: ViewId) -> (out: Option<&Selection>)
        ensures
            match out {
                Some(selection) => self.selected(view) == Some(*selection),
                None => self.selected(view) is None,
            },
    {
        match self.view_index(view) {
            Some(i) => self.view_data[i].selection.as_ref(),
            None => None,
        }
    }

    /// Makes a view known, where it is not, and tells where it stands.
    fn entry(&mut self, view: ViewId) -> (out: usize)
        requires
            old(self).wf(),
        ensures
            final(self).wf(),
            final(self).same_but_views(old(self)),
            out < final(self).view_data@.len(),
            final(self).view_data@[out as int] == (match old(self).data(view) {
                Some(data) => data,
                None => ViewData { view, position: top(), selection: None },
            }),
            final(self).view_data@[out as int].view == view,
            forall|other: ViewId| other != view ==> #[trigger] final(self).data(other) == old(self).data(other),
    {
        let ghost before = self.view_data@;
        proof {
            lemma_find_view(before, view, 0);
        }
        if let Some(i) = self.view_index(view) {
            return i;
        }
        let i: usize = self.view_data.len();
        self.view_data.push(
            ViewData {
                view,
                position: ViewPosition { anchor: 0, horizontal_offset: 0, vertical_offset: 0 },
                selection: None,
            },
        );
        proof {
            let after = self.view_data@;
            assert forall|other: ViewId| other != view implies #[trigger] self.data(other) == old(self).data(other) by {
                lemma_find_view(before, other, 0);
                lemma_find_view(after, other, 0);
                if find_view(before, other, 0) is Some {
                    let k = find_view(before, other, 0)->0;
                    assert(after[k] == before[k]);
                    lemma_data_of(after, other, k);
                } else if find_view(after, other, 0) is Some {
                    let k = find_view(after, other, 0)->0;
                    assert(before[k].view == other);
                }
            }
        }
        i
    }

    /// A change of what is known of one view changes nothing else.
    proof fn lemma_one_view(before: Document, after: Document, i: int)
        requires
            before.wf(),
            after.same_but_views(&before),
            0 <= i < before.view_data@.len(),
            after.view_data@ == before.view_data@.update(i, after.view_data@[i]),
            after.view_data@[i].view == before.view_data@[i].view,
        ensures
            after.wf(),
            after.data(before.view_data@[i].view) == Some(after.view_data@[i]),
            before.data(before.view_data@[i].view) == Some(before.view_data@[i]),
            forall|other: ViewId| other != before.view_data@[i].view ==> #[trigger] after.data(other) == before.data(other),
    {
        let a = before.view_data@;
        let b = after.view_data@;
        assert forall|x: int, y: int| 0 <= x < y < b.len() implies (#[trigger] b[x]).view != (#[trigger] b[y]).view by {
            assert(a[x].view != a[y].view);
        }
        lemma_data_of(a, a[i].view, i);
        lemma_data_of(b, a[i].view, i);
        assert forall|other: ViewId| other != a[i].view implies #[trigger] after.data(other) == before.data(other) by {
            lemma_find_view(a, other, 0);
            lemma_find_view(b, other, 0);
            if find_view(a, other, 0) is Some {
                let k = find_view(a, other, 0)->0;
                assert(b[k] == a[k]);
                lemma_data_of(b, other, k);
            } else if find_view(b, other, 0) is Some {
                let k = find_view(b, other, 0)->0;
                assert(a[k] == b[k]);
            }
        }
    }

    /// Moves a view.
    pub fn set_view_offset(&mut self, view: ViewId, position: ViewPosition)
        requires
            old(self).wf(),
        ensures
            final(self).wf(),
            final(self).same_but_views(old(self)),
            final(self).data(view) == Some(ViewData { view, position, selection: old(self).selected(view) }),
            forall|other: ViewId| other != view ==> #[trigger] final(self).data(other) == old(self).data(other),
    {
        let i: usize = self.entry(view);
        let ghost middle = *self;
        self.view_data[i].position = position;
        proof {
            lemma_find_view(old(self).view_data@, view, 0);
            assert(self.view_data@ =~= middle.view_data@.update(i as int, self.view_data@[i as int]));
            Self::lemma_one_view(middle, *self, i as int);
            assert forall|other: ViewId| other != view implies #[trigger] self.data(other) == old(self).data(other) by {
                assert(middle.data(other) == old(self).data(other));
            }
        }
    }

    /// Says what a view has selected.
    pub fn set_selection(&mut self, view: ViewId, selection: Selection)
        requires
            old(self).wf(),
        ensures
            final(self).wf(),
            final(self).same_but_views(old(self)),
            final(self).data(view) == Some(
                ViewData { view, position: old(self).position(view), selection: Some(selection) },
            ),
            forall|other: ViewId| other != view ==> #[trigger] final(self).data(other) == old(self).data(other),
    {
        let i: usize = self.entry(view);
        let ghost middle = *self;
        self.view_data[i].selection = Some(selection);
        proof {
            lemma_find_view(old(self).view_data@, view, 0);
            assert(self.view_data@ =~= middle.view_data@.update(i as int, self.view_data@[i as int]));
            Self::lemma_one_view(middle, *self, i as int);
            assert forall|other: ViewId| other != view implies #[trigger] self.data(other) == old(self).data(other) by {
                assert(middle.data(other) == old(self).data(other));
            }
        }
    }

    /// Makes a view known, where it is not.
    pub fn ensure_view_init(&mut self, view: ViewId)
        requires
            old(self).wf(),
        ensures
            final(self).wf(),
            final(self).same_but_views(old(self)),
            final(self).data(view) == (match old(self).data(view) {
                Some(data) => Some(data),
                None => Some(ViewData { view, position: top(), selection: None }),
            }),
            forall|other: ViewId| other != view ==> #[trigger] final(self).data(other) == old(self).data(other),
    {
        let i: usize = self.entry(view);
        proof {
            lemma_data_of(self.view_data@, view, i as int);
        }
    }

    /// Forgets a view.
    pub fn remove_view(&mut self, view: ViewId)
        requires
            old(self).wf(),
        ensures
            final(self).wf(),
            final(self).id == old(self).id,
            final(self).lines == old(self).lines,
            final(self).modified == old(self).modified,
            final(self).data(view) is None,
            !final(self).custom_text_annotations.has(view),
            forall|other: ViewId| other != view ==> #[trigger] final(self).data(other) == old(self).data(other),
            forall|other: ViewId, name: Seq<char>|
                other != view ==> final(self).custom_text_annotations.entry(other, name) == #[trigger] old(
                    self,
                ).custom_text_annotations.entry(other, name),
            forall|other: ViewId|
                other != view ==> final(self).custom_text_annotations.has(other) == #[trigger] old(
                    self,
                ).custom_text_annotations.has(other),
    {
        let ghost before = self.view_data@;
        proof {
            lemma_find_view(before, view, 0);
        }
        if let Some(i) = self.view_index(view) {
            self.view_data.remove(i);
            proof {
                let after = self.view_data@;
                assert(after =~= before.remove(i as int));
                assert forall|a: int, b: int| 0 <= a < b < after.len() implies (#[trigger] after[a]).view != (#[trigger] after[b]).view by {
                    let x = if a < i {
                        a
                    } else {
                        a + 1
                    };
                    let y = if b < i {
                        b
                    } else {
                        b + 1
                    };
                    assert(before[x].view != before[y].view);
                }
                lemma_find_view(after, view, 0);
                if find_view(after, view, 0) is Some {
                    let k = find_view(after, view, 0)->0;
                    if k < i {
                        assert(before[k].view != before[i as int].view);
                    } else {
                        assert(after[k] == before[k + 1]);
                        assert(before[i as int].view != before[k + 1].view);
                    }
                }
                assert forall|other: ViewId| other != view implies #[trigger] data_of(after, other) == data_of(before, other) by {
                    lemma_find_view(before, other, 0);
                    lemma_find_view(after, other, 0);
                    if find_view(before, other, 0) is Some {
                        let x = find_view(before, other, 0)->0;
                        let y = if x < i {
                            x
                        } else {
                            x - 1
                        };
                        assert(after[y] == before[x]);
                        lemma_data_of(after, other, y);
                    } else if find_view(after, other, 0) is Some {
                        let y = find_view(after, other, 0)->0;
                        let x = if y < i {
                            y
                        } else {
                            y + 1
                        };
                        assert(after[y] == before[x]);
                    }
                }
            }
        }
        let ghost middle = *self;
        self.custom_text_annotations.remove_view(view);
        proof {
            assert forall|other: ViewId| other != view implies #[trigger] self.data(other) == old(self).data(other) by {
                assert(data_of(middle.view_data@, other) == data_of(before, other));
            }
        }
    }

    /// The annotations of a view, or nothing where it has none.
    pub fn custom_text_annotations(&self, view: ViewId) -> (out: Option<&Vec<NamedAnnotations>>)
        requires
            self.wf(),
        ensures
            match out {
                Some(list) => self.custom_text_annotations.has(view) && forall|namespace: Seq<char>|
                    crate::custom_text::store::in_namespace(list@, namespace) == #[trigger] self.custom_text_annotations.entry(
                        view,
                        namespace,
                    ),
                None => !self.custom_text_annotations.has(view),
            },
    {
        self.custom_text_annotations.get(view)
    }

    /// Sets the annotations of a view in a namespace.
    pub fn set_custom_text_annotations(&mut self, view: ViewId, namespace: String, annotations: CustomTextAnnotations)
        requires
            old(self).wf(),
        ensures
            final(self).wf(),
            final(self).id == old(self).id,
            final(self).lines == old(self).lines,
            final(self).modified == old(self).modified,
            final(self).view_data == old(self).view_data,
            final(self).custom_text_annotations.entry(view, namespace@) == Some(annotations@),
            forall|other: ViewId, name: Seq<char>|
                other != view || name != namespace@ ==> final(self).custom_text_annotations.entry(other, name)
                    == #[trigger] old(self).custom_text_annotations.entry(other, name),
    {
        self.custom_text_annotations.set(view, namespace, annotations);
    }

    /// Removes the annotations of a view in a namespace.
    pub fn clear_custom_text_annotations(&mut self, view: ViewId, namespace: &str)
        requires
            old(self).wf(),
        ensures
            final(self).wf(),
            final(self).id == old(self).id,
            final(self).lines == old(self).lines,
            final(self).modified == old(self).modified,
            final(self).view_data == old(self).view_data,
            final(self).custom_text_annotations.entry(view, namespace@) is None,
            forall|other: ViewId, name: Seq<char>|
                other != view || name != namespace@ ==> final(self).custom_text_annotations.entry(other, name)
                    == #[trigger] old(self).custom_text_annotations.entry(other, name),
    {
        self.custom_text_annotations.clear(view, namespace);
    }
}

} // verus!
