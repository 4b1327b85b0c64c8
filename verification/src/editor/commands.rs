//! What extensions can ask of the editor.

use vstd::prelude::*;

use super::linked_scroll::without;
use super::state::{lemma_replaced_document, Editor, LinkError};
use crate::custom_text::annotations::{
    background_rule, highlight_rule, inline_rule, parse_annotations, virtual_rule, AnnotationsView,
};
use crate::diagnostics::external::{group_for, publication_refusal, DiagnosticError, ExternalDiagnostic};
use crate::diagnostics::model::{of_others, ProviderView};
use crate::line_map::LineMap;
use crate::text::same_text;
use crate::tree::ViewId;
use crate::value::{collect, ScriptValue};

verus! {

/// Links the scrolling of two views.
pub fn create(editor: &mut Editor, first: ViewId, second: ViewId) -> (out: Result<bool, LinkError>)
    requires
        old(editor).wf(),
        old(editor).tree.holds(first) ==> old(editor).tree.is_view(first),
        old(editor).tree.holds(second) ==> old(editor).tree.is_view(second),
    ensures
        final(editor).wf(),
        final(editor).same_rest(old(editor)),
        match old(editor).link_refusal(first, second) {
            Some(error) => out == Err::<bool, LinkError>(error) && *final(editor) == *old(editor),
            None => out == Ok::<bool, LinkError>(true) && final(editor).link_made(old(editor), first, second),
        },
{
    match editor.create_linked_scroll(first, second) {
        Ok(()) => Ok(true),
        Err(error) => Err(error),
    }
}

/// The view linked to this one, if both are still there.
pub fn peer(editor: &mut Editor, view: ViewId) -> (out: Option<ViewId>)
    requires
        old(editor).wf(),
    ensures
        final(editor).wf(),
        final(editor).same_rest(old(editor)),
        final(editor).documents == old(editor).documents,
        final(editor).needs_redraw == old(editor).needs_redraw,
        ({
            let peers = old(editor).linked_scroll_links.peers@;
            if !peers.dom().contains(view.0) {
                out is None && final(editor).linked_scroll_links.peers@ == peers
            } else if old(editor).tree.holds(view) && old(editor).tree.holds(peers[view.0]) {
                out == Some(peers[view.0]) && final(editor).linked_scroll_links.peers@ == peers
            } else {
                out is None && final(editor).linked_scroll_links.peers@ == without(peers, view)
            }
        }),
{
    editor.linked_scroll_peer(view)
}

/// Removes the link of a view.
pub fn remove(editor: &mut Editor, view: ViewId) -> (out: bool)
    requires
        old(editor).wf(),
    ensures
        final(editor).wf(),
        final(editor).same_rest(old(editor)),
        final(editor).documents == old(editor).documents,
        final(editor).needs_redraw == old(editor).needs_redraw,
        out == old(editor).linked_scroll_links.peers@.dom().contains(view.0),
        final(editor).linked_scroll_links.peers@ == without(old(editor).linked_scroll_links.peers@, view),
{
    editor.remove_linked_scroll(view)
}

/// The direction in which a view is resized.
#[derive(Clone, Copy, Debug, PartialEq, Eq, Structural)]
pub enum ResizeAxis {
    Width,
    Height,
}

/// The direction with a name.
pub fn resize_axis(axis: &str) -> (out: Result<ResizeAxis, &'static str>)
    ensures
        axis@ == "width"@ ==> out == Ok::<ResizeAxis, &'static str>(ResizeAxis::Width),
        axis@ == "height"@ && axis@ != "width"@ ==> out == Ok::<ResizeAxis, &'static str>(ResizeAxis::Height),
        axis@ != "width"@ && axis@ != "height"@ ==> out is Err && out->Err_0@ == "view resize axis must be width or height"@,
{
    if same_text(axis, "width") {
        Ok(ResizeAxis::Width)
    } else if same_text(axis, "height") {
        Ok(ResizeAxis::Height)
    } else {
        Err("view resize axis must be width or height")
    }
}

/// The line that a jump to a line, counted from 1, goes to.
pub open spec fn target_line(line: usize, len_lines: int) -> int {
    let bounded = if line < len_lines {
        line as int
    } else {
        len_lines
    };
    if bounded == 0 {
        0
    } else {
        bounded - 1
    }
}

/// The character that a jump to a line, counted from 1, goes to: the start of
/// the line, or of the last one.
pub fn move_to_line(lines: &LineMap, line: usize) -> (out: usize)
    requires
        lines.wf(),
    ensures
        out == lines.start_of(target_line(line, lines.starts@.len() as int)),
{
    let count: usize = lines.len_lines();
    let bounded: usize = if line < count {
        line
    } else {
        count
    };
    lines.line_to_char(bounded.saturating_sub(1))
}

/// How a jump to a column begins: at which character, and how many graphemes
/// further it goes.
#[derive(Clone, Copy, Debug, PartialEq, Eq, Structural)]
pub struct ColumnWalk {
    pub start: usize,
    pub graphemes: usize,
}

/// How a jump to a column of a line begins: at the column, counted in characters
/// from the start of the line, and as many graphemes further as the count is
/// above one.
pub fn column_walk(lines: &LineMap, line: usize, column: usize, count: usize) -> (out: ColumnWalk)
    requires
        lines.wf(),
        line < lines.starts@.len(),
        lines.start_of(line as int) + column <= usize::MAX,
        count > 0,
    ensures
        out.start == lines.start_of(line as int) + column,
        out.graphemes == count - 1,
{
    ColumnWalk { start: lines.line_to_char(line) + column, graphemes: count - 1 }
}

/// The character that a jump to a column goes to: the given grapheme boundary,
/// but not past the end of the line.
pub fn move_to_column(boundary: usize, line_end: usize) -> (out: usize)
    ensures
        out == (if boundary < line_end {
            boundary
        } else {
            line_end
        }),
{
    if boundary < line_end {
        boundary
    } else {
        line_end
    }
}

impl Editor {
    /// Where the document of the focused view stands.
    pub open spec fn focused_document(&self) -> int {
        self.document_at(self.document_of(self.tree.focus))->0
    }

    /// The lines that the focused view shows, the end not among them.
    pub fn current_visible_line_range(&self, inner_height: usize) -> (out: (usize, usize))
        requires
            self.wf(),
            self.tree.is_view(self.tree.focus),
        ensures
            ({
                let document = self.documents@[self.focused_document()];
                let anchor = document.position(self.tree.focus).anchor;
                let first = document.lines.line_of(
                    if anchor < document.lines.len_chars {
                        anchor as int
                    } else {
                        document.lines.len_chars as int
                    },
                );
                &&& out.0 == first
                &&& out.1 == (if first + inner_height < document.lines.starts@.len() {
                    first + inner_height
                } else {
                    document.lines.starts@.len() as int
                })
            }),
    {
        let focus = self.tree.focus;
        let index: usize = self.document_index_of(focus);
        proof {
            assert(self.documents@[index as int].wf());
        }
        let document = &self.documents[index];
        let anchor: usize = document.view_offset(focus).anchor;
        let first: usize = document.lines.char_to_line(
            if anchor < document.lines.len_chars {
                anchor
            } else {
                document.lines.len_chars
            },
        );
        let end: usize = first.saturating_add(inner_height);
        let count: usize = document.lines.len_lines();
        (
            first,
            if end < count {
                end
            } else {
                count
            },
        )
    }

    /// Whether all but one document is the same.
    pub open spec fn only_document(&self, before: &Editor, index: int) -> bool {
        &&& self.same_rest(before)
        &&& self.linked_scroll_links == before.linked_scroll_links
        &&& self.needs_redraw == before.needs_redraw
        &&& self.documents@ == before.documents@.update(index, self.documents@[index])
        &&& self.documents@[index].id == before.documents@[index].id
        &&& self.documents@[index].lines == before.documents@[index].lines
        &&& self.documents@[index].modified == before.documents@[index].modified
        &&& self.documents@[index].view_data == before.documents@[index].view_data
    }

    /// Sets the annotations of the focused view in a namespace.
    pub fn set_custom_text_annotations_v2(
        &mut self,
        namespace: String,
        inline: &ScriptValue,
        highlights: &ScriptValue,
        virtual_lines: &ScriptValue,
        line_backgrounds: &ScriptValue,
    ) -> (out: bool)
        requires
            old(self).wf(),
            old(self).tree.is_view(old(self).tree.focus),
        ensures
            out,
            final(self).wf(),
            final(self).only_document(old(self), old(self).focused_document()),
            ({
                let document = old(self).documents@[old(self).focused_document()];
                let store = final(self).documents@[old(self).focused_document()].custom_text_annotations;
                let char_len = document.lines.len_chars;
                let last_line = (document.lines.starts@.len() - 1) as usize;
                &&& store.entry(old(self).tree.focus, namespace@) == Some(
                    AnnotationsView {
                        inline: collect(inline.items(), inline_rule(char_len)),
                        highlights: collect(highlights.items(), highlight_rule(char_len)),
                        virtual_lines: collect(virtual_lines.items(), virtual_rule(last_line)),
                        line_backgrounds: collect(line_backgrounds.items(), background_rule(last_line)),
                    },
                )
                &&& forall|view: ViewId, name: Seq<char>|
                    view != old(self).tree.focus || name != namespace@ ==> store.entry(view, name)
                        == #[trigger] document.custom_text_annotations.entry(view, name)
            }),
    {
        let ghost before = *self;
        let focus = self.tree.focus;
        let index: usize = self.document_index_of(focus);
        proof {
            assert(self.documents@[index as int].wf());
        }
        let char_len: usize = self.documents[index].lines.len_chars;
        let last_line: usize = self.documents[index].lines.len_lines() - 1;
        let annotations = parse_annotations(char_len, last_line, inline, highlights, virtual_lines, line_backgrounds);
        self.documents[index].set_custom_text_annotations(focus, namespace, annotations);
        proof {
            assert(self.documents@ =~= before.documents@.update(index as int, self.documents@[index as int]));
            lemma_replaced_document(before, *self, index as int);
        }
        true
    }

    /// Sets the annotations of the focused view in a namespace that has no line
    /// backgrounds.
    pub fn set_custom_text_annotations(
        &mut self,
        namespace: String,
        inline: &ScriptValue,
        highlights: &ScriptValue,
        virtual_lines: &ScriptValue,
    ) -> (out: bool)
        requires
            old(self).wf(),
            old(self).tree.is_view(old(self).tree.focus),
        ensures
            out,
            final(self).wf(),
            final(self).only_document(old(self), old(self).focused_document()),
            ({
                let document = old(self).documents@[old(self).focused_document()];
                let store = final(self).documents@[old(self).focused_document()].custom_text_annotations;
                let char_len = document.lines.len_chars;
                let last_line = (document.lines.starts@.len() - 1) as usize;
                &&& store.entry(old(self).tree.focus, namespace@) == Some(
                    AnnotationsView {
                        inline: collect(inline.items(), inline_rule(char_len)),
                        highlights: collect(highlights.items(), highlight_rule(char_len)),
                        virtual_lines: collect(virtual_lines.items(), virtual_rule(last_line)),
                        line_backgrounds: Seq::empty(),
                    },
                )
                &&& forall|view: ViewId, name: Seq<char>|
                    view != old(self).tree.focus || name != namespace@ ==> store.entry(view, name)
                        == #[trigger] document.custom_text_annotations.entry(view, name)
            }),
    {
        let none = ScriptValue::List(Vec::new());
        self.set_custom_text_annotations_v2(namespace, inline, highlights, virtual_lines, &none)
    }

    /// Removes the annotations of the focused view in a namespace.
    pub fn clear_custom_text_annotations(&mut self, namespace: &str) -> (out: bool)
        requires
            old(self).wf(),
            old(self).tree.is_view(old(self).tree.focus),
        ensures
            out,
            final(self).wf(),
            final(self).only_document(old(self), old(self).focused_document()),
            ({
                let document = old(self).documents@[old(self).focused_document()];
                let store = final(self).documents@[old(self).focused_document()].custom_text_annotations;
                &&& store.entry(old(self).tree.focus, namespace@) is None
                &&& forall|view: ViewId, name: Seq<char>|
                    view != old(self).tree.focus || name != namespace@ ==> store.entry(view, name)
                        == #[trigger] document.custom_text_annotations.entry(view, name)
            }),
    {
        let ghost before = *self;
        let focus = self.tree.focus;
        let index: usize = self.document_index_of(focus);
        proof {
            assert(self.documents@[index as int].wf());
        }
        self.documents[index].clear_custom_text_annotations(focus, namespace);
        proof {
            assert(self.documents@ =~= before.documents@.update(index as int, self.documents@[index as int]));
            lemma_replaced_document(before, *self, index as int);
        }
        true
    }

    /// Replaces the diagnostics of a namespace without touching those of
    /// language servers and of other namespaces.
    pub fn publish_external_diagnostics(&mut self, namespace: &str, diagnostics: Vec<ExternalDiagnostic>) -> (out: Result<
        (),
        DiagnosticError,
    >)
        requires
            old(self).wf(),
        ensures
            final(self).wf(),
            final(self).tree == old(self).tree,
            final(self).documents == old(self).documents,
            final(self).linked_scroll_links == old(self).linked_scroll_links,
            final(self).normal_mode == old(self).normal_mode,
            final(self).last_focused == old(self).last_focused,
            match publication_refusal(namespace@, diagnostics@) {
                Some(error) => out == Err::<(), DiagnosticError>(error) && *final(self) == *old(self),
                None => {
                    &&& out is Ok
                    &&& final(self).needs_redraw
                    &&& forall|uri: Seq<char>| #[trigger]
                        final(self).diagnostics.at(uri) == of_others(
                            old(self).diagnostics.at(uri),
                            ProviderView::External { namespace: namespace@ },
                        ) + group_for(
                            diagnostics@,
                            diagnostics@.len() as int,
                            uri,
                            ProviderView::External { namespace: namespace@ },
                        )
                    &&& forall|uri: Seq<char>| #[trigger]
                        final(self).diagnostics.keeps_path(
                            &old(self).diagnostics,
                            ProviderView::External { namespace: namespace@ },
                            uri,
                        )
                },
            },
    {
        let ghost before = *self;
        let result = self.diagnostics.publish_external_diagnostics(namespace, diagnostics);
        if result.is_ok() {
            self.needs_redraw = true;
        }
        proof {
            assert(self.tree == before.tree);
            self.lemma_other_diagnostics(before);
        }
        result
    }

    /// Takes the diagnostics of a namespace away without touching those of
    /// language servers and of other namespaces.
    pub fn clear_external_diagnostics(&mut self, namespace: &str)
        requires
            old(self).wf(),
        ensures
            final(self).wf(),
            final(self).tree == old(self).tree,
            final(self).documents == old(self).documents,
            final(self).linked_scroll_links == old(self).linked_scroll_links,
            final(self).normal_mode == old(self).normal_mode,
            final(self).last_focused == old(self).last_focused,
            final(self).needs_redraw,
            forall|uri: Seq<char>| #[trigger]
                final(self).diagnostics.at(uri) == of_others(
                    old(self).diagnostics.at(uri),
                    ProviderView::External { namespace: namespace@ },
                ),
            forall|uri: Seq<char>| #[trigger]
                final(self).diagnostics.keeps_path(
                    &old(self).diagnostics,
                    ProviderView::External { namespace: namespace@ },
                    uri,
                ),
    {
        let ghost before = *self;
        self.diagnostics.clear_external_diagnostics(namespace);
        self.needs_redraw = true;
        proof {
            self.lemma_other_diagnostics(before);
        }
    }

    proof fn lemma_other_diagnostics(&self, before: Editor)
        requires
            before.wf(),
            self.tree == before.tree,
            self.documents == before.documents,
            self.linked_scroll_links == before.linked_scroll_links,
            self.diagnostics.wf(),
        ensures
            self.wf(),
    {
        assert forall|v: ViewId| #[trigger]
            crate::tree::live(self.tree.shapes(), v) && crate::tree::at(self.tree.shapes(), v) is View implies self.document_at(
            crate::tree::at(self.tree.shapes(), v)->doc,
        ) is Some by {
            assert(crate::tree::live(before.tree.shapes(), v));
        }
        assert forall|v: usize| #[trigger]
            self.linked_scroll_links.peers@.dom().contains(v) implies v < self.tree.nodes@.len() && (self.tree.holds(ViewId(v))
            ==> self.tree.is_view(ViewId(v))) by {
            assert(before.linked_scroll_links.peers@.dom().contains(v));
        }
    }
}

} // verus!
