//! The annotations of views, by namespace.


use vstd::prelude::*;

use super::annotations::{views, AnnotationsView, CustomTextAnnotations, CustomVirtualLine, VirtualLineView};
use crate::text::{find_name, same_text};
use crate::tree::ViewId;

verus! {

/// The annotations of one namespace.
#[derive(Debug)]
pub struct NamedAnnotations {
    pub namespace: String,
    pub annotations: CustomTextAnnotations,
}

/// The annotations of one view.
#[derive(Debug)]
pub struct ViewAnnotations {
    pub view: ViewId,
    pub namespaces: Vec<NamedAnnotations>,
}

/// The annotations of all views.
#[derive(Debug)]
pub struct CustomTextAnnotationStore {
    pub views: Vec<ViewAnnotations>,
}

pub open spec fn namespace_names(list: Seq<NamedAnnotations>) -> Seq<Seq<char>> {
    Seq::new(list.len(), |i: int| list[i].namespace@)
}

/// The annotations of a namespace in a list.
pub open spec fn in_namespace(list: Seq<NamedAnnotations>, namespace: Seq<char>) -> Option<AnnotationsView> {
    match find_name(namespace_names(list), namespace, 0) {
        Some(i) => Some(list[i].annotations@),
        None => None,
    }
}

/// The first place of a view at or after `from`.
pub open spec fn find_view(list: Seq<ViewAnnotations>, view: ViewId, from: int) -> Option<int>
    decreases list.len() - from,
{
    if from < 0 || from >= list.len() {
        None
    } else if list[from].view == view {
        Some(from)
    } else {
        find_view(list, view, from + 1)
    }
}

proof fn lemma_find_view(list: Seq<ViewAnnotations>, view: ViewId, from: int)
    requires
        0 <= from,
    ensures
        match find_view(list, view, from) {
            Some(i) => from <= i < list.len() && list[i].view == view && forall|k: int|
                from <= k < i ==> (#[trigger] list[k]).view != view,
            None => forall|k: int| from <= k < list.len() ==> (#[trigger] list[k]).view != view,
        },
    decreases list.len() - from,
{
    if from < list.len() && list[from].view != view {
        lemma_find_view(list, view, from + 1);
    }
}

pub open spec fn list_ok(list: Seq<NamedAnnotations>) -> bool {
    list.len() > 0 && namespace_names(list).no_duplicates()
}

impl CustomTextAnnotationStore {
    /// No view and no namespace of it occurs twice, and a view that is there
    /// has annotations.
    pub open spec fn wf(&self) -> bool {
        &&& forall|i: int, j: int|
            0 <= i < j < self.views@.len() ==> (#[trigger] self.views@[i]).view != (#[trigger] self.views@[j]).view
        &&& forall|i: int| 0 <= i < self.views@.len() ==> list_ok((#[trigger] self.views@[i]).namespaces@)
    }

    /// Whether a view has annotations.
    pub open spec fn has(&self, view: ViewId) -> bool {
        find_view(self.views@, view, 0) is Some
    }

    /// The annotations of a view in a namespace.
    pub open spec fn entry(&self, view: ViewId, namespace: Seq<char>) -> Option<AnnotationsView> {
        match find_view(self.views@, view, 0) {
            Some(i) => in_namespace(self.views@[i].namespaces@, namespace),
            None => None,
        }
    }

    fn index(&self, view: ViewId) -> (out: Option<usize>)
        ensures
            match out {
                Some(i) => i < self.views@.len() && find_view(self.views@, view, 0) == Some(i as int),
                None => find_view(self.views@, view, 0) is None,
            },
    {
        let mut i: usize = 0;
        while i < self.views.len()
            invariant
                i <= self.views@.len(),
                find_view(self.views@, view, 0) == find_view(self.views@, view, i as int),
            decreases self.views.len() - i,
        {
            if self.views[i].view == view {
                return Some(i);
            }
            i += 1;
        }
        None
    }

    /// The annotations of a view, or nothing where it has none.
    pub fn get(&self, view: ViewId) -> (out: Option<&Vec<NamedAnnotations>>)
        requires
            self.wf(),
        ensures
            match out {
                Some(list) => self.has(view) && list_ok(list@) && forall|namespace: Seq<char>|
                    in_namespace(list@, namespace) == #[trigger] self.entry(view, namespace),
                None => !self.has(view),
            },
    {
        match self.index(view) {
            Some(i) => {
                proof {
                    assert(list_ok(self.views@[i as int].namespaces@));
                }
                Some(&self.views[i].namespaces)
            },
            None => None,
        }
    }

    /// Sets the annotations of a view in a namespace.
    pub fn set(&mut self, view: ViewId, namespace: String, annotations: CustomTextAnnotations)
        requires
            old(self).wf(),
        ensures
            final(self).wf(),
            final(self).entry(view, namespace@) == Some(annotations@),
            forall|other: ViewId, name: Seq<char>|
                other != view || name != namespace@ ==> final(self).entry(other, name) == #[trigger] old(self).entry(other, name),
            forall|other: ViewId| other != view ==> final(self).has(other) == #[trigger] old(self).has(other),
    {
        let ghost before = self.views@;
        proof {
            lemma_find_view(before, view, 0);
        }
        match self.index(view) {
            Some(i) => {
                let ghost list = before[i as int].namespaces@;
                proof {
                    assert(list_ok(before[i as int].namespaces@));
                }
                set_namespace(&mut self.views[i].namespaces, namespace, annotations);
                proof {
                    let after = self.views@;
                    assert(after =~= before.update(i as int, after[i as int]));
                    assert forall|other: ViewId| true implies find_view(after, other, 0) == #[trigger] find_view(
                        before,
                        other,
                        0,
                    ) by {
                        lemma_find_view(before, other, 0);
                        lemma_find_view(after, other, 0);
                        assert forall|k: int| 0 <= k < after.len() implies (#[trigger] after[k]).view == before[k].view by {}
                        let a = find_view(before, other, 0);
                        let b = find_view(after, other, 0);
                        if a is Some && b is Some {
                            let x = a->0;
                            let y = b->0;
                            assert(after[x].view == before[x].view && after[y].view == before[y].view);
                        } else if a is Some {
                            assert(after[a->0].view == before[a->0].view);
                        } else if b is Some {
                            assert(after[b->0].view == before[b->0].view);
                        }
                    }
                    assert forall|other: ViewId, name: Seq<char>| other != view || name != namespace@ implies self.entry(
                        other,
                        name,
                    ) == #[trigger] old(self).entry(other, name) by {
                        assert(find_view(after, other, 0) == find_view(before, other, 0));
                        lemma_find_view(before, other, 0);
                        if find_view(before, other, 0) == Some(i as int) {
                            assert(in_namespace(after[i as int].namespaces@, name) == in_namespace(list, name));
                        }
                    }
                    assert forall|other: ViewId| other != view implies self.has(other) == #[trigger] old(self).has(other) by {
                        assert(find_view(after, other, 0) == find_view(before, other, 0));
                    }
                    assert(find_view(after, view, 0) == find_view(before, view, 0));
                }
            },
            None => {
                let mut list: Vec<NamedAnnotations> = Vec::new();
                let name = namespace.clone();
                list.push(NamedAnnotations { namespace: name, annotations });
                let ghost names = namespace_names(list@);
                proof {
                    crate::text::lemma_find_name(names, namespace@, 0);
                    assert(names[0] == namespace@);
                }
                self.views.push(ViewAnnotations { view, namespaces: list });
                proof {
                    let after = self.views@;
                    lemma_find_view(after, view, 0);
                    assert(after[before.len() as int].view == view);
                    assert(find_view(after, view, 0) == Some(before.len() as int));
                    assert forall|other: ViewId| other != view implies find_view(after, other, 0) == #[trigger] find_view(
                        before,
                        other,
                        0,
                    ) by {
                        lemma_find_view(before, other, 0);
                        lemma_find_view(after, other, 0);
                        let a = find_view(before, other, 0);
                        let b = find_view(after, other, 0);
                        if a is Some {
                            assert(after[a->0].view == other);
                        }
                        if b is Some {
                            assert(b->0 < before.len());
                            assert(before[b->0].view == other);
                        }
                    }
                    assert forall|other: ViewId, name: Seq<char>| other != view || name != namespace@ implies self.entry(
                        other,
                        name,
                    ) == #[trigger] old(self).entry(other, name) by {
                        if other == view {
                            crate::text::lemma_find_name(names, name, 0);
                        }
                        assert(find_view(before, other, 0) == find_view(old(self).views@, other, 0));
                        if find_view(before, other, 0) is Some {
                            lemma_find_view(before, other, 0);
                        }
                    }
                    assert forall|other: ViewId| other != view implies self.has(other) == #[trigger] old(self).has(other) by {
                        assert(find_view(after, other, 0) == find_view(before, other, 0));
                    }
                }
            },
        }
    }

    /// Removes the annotations of a view in a namespace.
    pub fn clear(&mut self, view: ViewId, namespace: &str)
        requires
            old(self).wf(),
        ensures
            final(self).wf(),
            final(self).entry(view, namespace@) is None,
            forall|other: ViewId, name: Seq<char>|
                other != view || name != namespace@ ==> final(self).entry(other, name) == #[trigger] old(self).entry(other, name),
            forall|other: ViewId| other != view ==> final(self).has(other) == #[trigger] old(self).has(other),
    {
        let ghost before = self.views@;
        proof {
            lemma_find_view(before, view, 0);
        }
        if let Some(i) = self.index(view) {
            let ghost list = before[i as int].namespaces@;
            proof {
                assert(list_ok(before[i as int].namespaces@));
            }
            clear_namespace(&mut self.views[i].namespaces, namespace);
            let ghost middle = self.views@;
            proof {
                assert(middle =~= before.update(i as int, middle[i as int]));
            }
            if self.views[i].namespaces.len() == 0 {
                self.views.remove(i);
                proof {
                    let after = self.views@;
                    assert(after =~= before.remove(i as int));
                    lemma_removed(before, i as int);
                    lemma_find_view(after, view, 0);
                    assert forall|other: ViewId, name: Seq<char>| other != view || name != namespace@ implies self.entry(
                        other,
                        name,
                    ) == #[trigger] old(self).entry(other, name) by {
                        if other == view {
                            assert(in_namespace(middle[i as int].namespaces@, name) == in_namespace(list, name));
                            crate::text::lemma_find_name(namespace_names(middle[i as int].namespaces@), name, 0);
                        } else {
                            lemma_find_after_removal(before, i as int, other);
                        }
                    }
                    assert forall|other: ViewId| other != view implies self.has(other) == #[trigger] old(self).has(other) by {
                        lemma_find_after_removal(before, i as int, other);
                    }
                    assert forall|k: int| 0 <= k < after.len() implies list_ok((#[trigger] after[k]).namespaces@) by {
                        let from = if k < i {
                            k
                        } else {
                            k + 1
                        };
                        assert(after[k] == before[from]);
                        assert(list_ok(before[from].namespaces@));
                    }
                }
            } else {
                proof {
                    let after = self.views@;
                    assert forall|other: ViewId| true implies find_view(after, other, 0) == #[trigger] find_view(
                        before,
                        other,
                        0,
                    ) by {
                        lemma_find_view(before, other, 0);
                        lemma_find_view(after, other, 0);
                        let a = find_view(before, other, 0);
                        let b = find_view(after, other, 0);
                        if a is Some {
                            assert(after[a->0].view == before[a->0].view);
                        }
                        if b is Some {
                            assert(after[b->0].view == before[b->0].view);
                        }
                    }
                    assert forall|other: ViewId, name: Seq<char>| other != view || name != namespace@ implies self.entry(
                        other,
                        name,
                    ) == #[trigger] old(self).entry(other, name) by {
                        assert(find_view(after, other, 0) == find_view(before, other, 0));
                        lemma_find_view(before, other, 0);
                        if find_view(before, other, 0) == Some(i as int) {
                            assert(in_namespace(after[i as int].namespaces@, name) == in_namespace(list, name));
                        }
                    }
                    assert forall|other: ViewId| other != view implies self.has(other) == #[trigger] old(self).has(other) by {
                        assert(find_view(after, other, 0) == find_view(before, other, 0));
                    }
                    assert(find_view(after, view, 0) == find_view(before, view, 0));
                }
            }
        }
    }

    /// Removes all annotations of a view.
    pub fn remove_view(&mut self, view: ViewId)
        requires
            old(self).wf(),
        ensures
            final(self).wf(),
            !final(self).has(view),
            forall|other: ViewId, name: Seq<char>|
                other != view ==> final(self).entry(other, name) == #[trigger] old(self).entry(other, name),
            forall|other: ViewId| other != view ==> final(self).has(other) == #[trigger] old(self).has(other),
    {
        let ghost before = self.views@;
        proof {
            lemma_find_view(before, view, 0);
        }
        if let Some(i) = self.index(view) {
            self.views.remove(i);
            proof {
                let after = self.views@;
                assert(after =~= before.remove(i as int));
                lemma_removed(before, i as int);
                lemma_find_view(after, view, 0);
                assert forall|other: ViewId, name: Seq<char>| other != view implies self.entry(other, name) == #[trigger] old(
                    self,
                ).entry(other, name) by {
                    lemma_find_after_removal(before, i as int, other);
                }
                assert forall|other: ViewId| other != view implies self.has(other) == #[trigger] old(self).has(other) by {
                    lemma_find_after_removal(before, i as int, other);
                }
                assert forall|k: int| 0 <= k < after.len() implies list_ok((#[trigger] after[k]).namespaces@) by {
                    let from = if k < i {
                        k
                    } else {
                        k + 1
                    };
                    assert(after[k] == before[from]);
                    assert(list_ok(before[from].namespaces@));
                }
            }
        }
    }
}

impl Default for CustomTextAnnotationStore {
    /// A store without annotations.
    fn default() -> (out: CustomTextAnnotationStore)
        ensures
            out.wf(),
            forall|view: ViewId| !#[trigger] out.has(view),
    {
        CustomTextAnnotationStore { views: Vec::new() }
    }
}

proof fn lemma_removed(list: Seq<ViewAnnotations>, at: int)
    requires
        0 <= at < list.len(),
        forall|i: int, j: int| 0 <= i < j < list.len() ==> (#[trigger] list[i]).view != (#[trigger] list[j]).view,
    ensures
        forall|i: int, j: int|
            0 <= i < j < list.len() - 1 ==> (#[trigger] list.remove(at)[i]).view != (#[trigger] list.remove(at)[j]).view,
        forall|k: int| 0 <= k < list.len() - 1 ==> (#[trigger] list.remove(at)[k]).view != list[at].view,
{
    let after = list.remove(at);
    assert forall|i: int, j: int| 0 <= i < j < list.len() - 1 implies (#[trigger] after[i]).view != (#[trigger] after[j]).view by {
        let a = if i < at {
            i
        } else {
            i + 1
        };
        let b = if j < at {
            j
        } else {
            j + 1
        };
        assert(list[a].view != list[b].view);
    }
    assert forall|k: int| 0 <= k < list.len() - 1 implies (#[trigger] after[k]).view != list[at].view by {
        let a = if k < at {
            k
        } else {
            k + 1
        };
        if a < at {
            assert(list[a].view != list[at].view);
        } else {
            assert(list[at].view != list[a].view);
        }
    }
}

proof fn lemma_find_after_removal(list: Seq<ViewAnnotations>, at: int, view: ViewId)
    requires
        0 <= at < list.len(),
        forall|i: int, j: int| 0 <= i < j < list.len() ==> (#[trigger] list[i]).view != (#[trigger] list[j]).view,
        list[at].view != view,
    ensures
        (find_view(list.remove(at), view, 0) is Some) == (find_view(list, view, 0) is Some),
        find_view(list, view, 0) is Some ==> list.remove(at)[find_view(list.remove(at), view, 0)->0] == list[find_view(
            list,
            view,
            0,
        )->0],
{
    let after = list.remove(at);
    lemma_find_view(list, view, 0);
    lemma_find_view(after, view, 0);
    let a = find_view(list, view, 0);
    let b = find_view(after, view, 0);
    if a is Some {
        let x = a->0;
        let y = if x < at {
            x
        } else {
            x - 1
        };
        assert(after[y] == list[x]);
    }
    if b is Some {
        let y = b->0;
        let x = if y < at {
            y
        } else {
            y + 1
        };
        assert(list[x] == after[y]);
        assert(list[x].view == view);
        if a->0 < x {
            assert(list[a->0].view != list[x].view);
        } else if x < a->0 {
            assert(list[x].view != list[a->0].view);
        }
    }
}

fn namespace_index(list: &Vec<NamedAnnotations>, namespace: &str) -> (out: Option<usize>)
    ensures
        match out {
            Some(i) => i < list@.len() && find_name(namespace_names(list@), namespace@, 0) == Some(i as int),
            None => find_name(namespace_names(list@), namespace@, 0) is None,
        },
{
    let ghost names = namespace_names(list@);
    let mut i: usize = 0;
    while i < list.len()
        invariant
            i <= list@.len(),
            names == namespace_names(list@),
            find_name(names, namespace@, 0) == find_name(names, namespace@, i as int),
        decreases list.len() - i,
    {
        proof {
            assert(names[i as int] == list@[i as int].namespace@);
        }
        if same_text(list[i].namespace.as_str(), namespace) {
            return Some(i);
        }
        i += 1;
    }
    None
}

fn set_namespace(list: &mut Vec<NamedAnnotations>, namespace: String, annotations: CustomTextAnnotations)
    requires
        list_ok(old(list)@),
    ensures
        list_ok(final(list)@),
        in_namespace(final(list)@, namespace@) == Some(annotations@),
        forall|name: Seq<char>|
            name != namespace@ ==> in_namespace(final(list)@, name) == #[trigger] in_namespace(old(list)@, name),
{
    let ghost before = list@;
    let ghost names = namespace_names(before);
    proof {
        crate::text::lemma_find_name(names, namespace@, 0);
    }
    match namespace_index(list, namespace.as_str()) {
        Some(i) => {
            list.set(i, NamedAnnotations { namespace, annotations });
            proof {
                assert(namespace_names(list@) =~= names);
                assert forall|name: Seq<char>| name != namespace@ implies in_namespace(list@, name) == #[trigger] in_namespace(
                    before,
                    name,
                ) by {
                    crate::text::lemma_find_name(names, name, 0);
                }
            }
        },
        None => {
            list.push(NamedAnnotations { namespace, annotations });
            proof {
                let after = namespace_names(list@);
                assert(after =~= names.push(namespace@));
                crate::text::lemma_find_name(after, namespace@, 0);
                assert(after[names.len() as int] == namespace@);
                assert forall|name: Seq<char>| name != namespace@ implies in_namespace(list@, name) == #[trigger] in_namespace(
                    before,
                    name,
                ) by {
                    crate::text::lemma_find_name(names, name, 0);
                    crate::text::lemma_find_name(after, name, 0);
                    if find_name(names, name, 0) is Some {
                        assert(after[find_name(names, name, 0)->0] == name);
                    }
                    if find_name(after, name, 0) is Some {
                        assert(names[find_name(after, name, 0)->0] == name);
                    }
                }
            }
        },
    }
}

fn clear_namespace(list: &mut Vec<NamedAnnotations>, namespace: &str)
    requires
        list_ok(old(list)@),
    ensures
        final(list)@.len() > 0 ==> list_ok(final(list)@),
        in_namespace(final(list)@, namespace@) is None,
        forall|name: Seq<char>|
            name != namespace@ ==> in_namespace(final(list)@, name) == #[trigger] in_namespace(old(list)@, name),
{
    let ghost before = list@;
    let ghost names = namespace_names(before);
    proof {
        crate::text::lemma_find_name(names, namespace@, 0);
    }
    if let Some(i) = namespace_index(list, namespace) {
        list.remove(i);
        proof {
            let after = namespace_names(list@);
            assert(after =~= names.remove(i as int));
            assert forall|a: int, b: int| 0 <= a < b < after.len() implies after[a] != after[b] by {
                let x = if a < i {
                    a
                } else {
                    a + 1
                };
                let y = if b < i {
                    b
                } else {
                    b + 1
                };
                assert(names[x] != names[y]);
            }
            crate::text::lemma_find_name(after, namespace@, 0);
            if find_name(after, namespace@, 0) is Some {
                let k = find_name(after, namespace@, 0)->0;
                let x = if k < i {
                    k
                } else {
                    k + 1
                };
                assert(names[x] == namespace@ && names[i as int] == namespace@);
            }
            assert forall|name: Seq<char>| name != namespace@ implies in_namespace(list@, name) == #[trigger] in_namespace(
                before,
                name,
            ) by {
                crate::text::lemma_find_name(names, name, 0);
                crate::text::lemma_find_name(after, name, 0);
                let a = find_name(names, name, 0);
                let b = find_name(after, name, 0);
                if a is Some {
                    let x = a->0;
                    let y = if x < i {
                        x
                    } else {
                        x - 1
                    };
                    assert(after[y] == name);
                    assert(list@[y] == before[x]);
                }
                if b is Some {
                    let y = b->0;
                    let x = if y < i {
                        y
                    } else {
                        y + 1
                    };
                    assert(names[x] == name);
                    assert(list@[y] == before[x]);
                }
            }
        }
    }
}

/// The number of virtual lines after a line of the document.
pub open spec fn rows_after(lines: Seq<VirtualLineView>, doc_line: usize) -> nat
    decreases lines.len(),
{
    if lines.len() == 0 {
        0
    } else {
        rows_after(lines.drop_last(), doc_line) + if lines.last().line == doc_line {
            1nat
        } else {
            0nat
        }
    }
}

/// The number of virtual lines after a line of the document.
pub fn insert_virtual_lines(lines: &Vec<CustomVirtualLine>, doc_line: usize) -> (out: usize)
    ensures
        out == rows_after(views(lines@), doc_line),
{
    let ghost all = views(lines@);
    let mut count: usize = 0;
    let mut i: usize = 0;
    proof {
        assert(all.subrange(0, 0) =~= Seq::<VirtualLineView>::empty());
    }
    while i < lines.len()
        invariant
            i <= lines@.len(),
            all == views(lines@),
            count == rows_after(all.subrange(0, i as int), doc_line),
            count <= i,
        decreases lines.len() - i,
    {
        if lines[i].line == doc_line {
            count += 1;
        }
        i += 1;
        proof {
            assert(all.subrange(0, i as int).drop_last() =~= all.subrange(0, i - 1));
            assert(all.subrange(0, i as int).last() == lines@[i - 1]@);
        }
    }
    proof {
        assert(all.subrange(0, all.len() as int) =~= all);
    }
    count
}

} // verus!
