//! Styles of highlights.

use vstd::prelude::*;

use crate::char_index::{boundary_after, ceil_char_boundary, chars_before, lemma_boundary_after, ByteToChar};
use crate::custom_text::annotations::CustomInlineAnnotation;
use crate::custom_text::store::NamedAnnotations;
use crate::graphics::Style;
use crate::theme::{resolved, scope_names, Theme};

verus! {

/// What highlights do to those before them.
#[derive(Clone, Copy, Debug, PartialEq, Eq, Structural)]
pub enum HighlightEvent {
    /// They replace them.
    Refresh,
    /// They come on top of them.
    Push,
}

/// A change of highlights at a character.
#[derive(Debug)]
pub struct HighlightStep {
    pub at: usize,
    pub event: HighlightEvent,
    pub highlights: Vec<usize>,
}

/// The style with the first `n` highlights on top of it.
pub open spec fn highlighted(theme: Theme, base: Style, highlights: Seq<usize>, n: int) -> Style
    decreases n,
{
    if n <= 0 {
        base
    } else {
        highlighted(theme, base, highlights, n - 1).patched(theme.scopes@[highlights[n - 1] as int].style)
    }
}

/// The style after the first `n` steps.
pub open spec fn style_after(theme: Theme, base: Style, steps: Seq<HighlightStep>, n: int) -> Style
    decreases n,
{
    if n <= 0 {
        base
    } else {
        highlighted(
            theme,
            match steps[n - 1].event {
                HighlightEvent::Refresh => base,
                HighlightEvent::Push => style_after(theme, base, steps, n - 1),
            },
            steps[n - 1].highlights@,
            steps[n - 1].highlights@.len() as int,
        )
    }
}

/// How many steps are done once all from `from` on that are due at a character
/// were taken.
pub open spec fn done_at(steps: Seq<HighlightStep>, from: int, char_idx: int) -> int
    decreases steps.len() - from,
{
    if from < 0 || from >= steps.len() || steps[from].at > char_idx {
        from
    } else {
        done_at(steps, from + 1, char_idx)
    }
}

/// Whether a theme knows the highlights of all steps.
pub open spec fn known_highlights(theme: Theme, steps: Seq<HighlightStep>) -> bool {
    forall|i: int, j: int|
        0 <= i < steps.len() && 0 <= j < steps[i].highlights@.len() ==> (#[trigger] steps[i].highlights@[j])
            < theme.scopes@.len()
}

/// The style at a character of a text that is walked over from its start.
pub open spec fn track_style(theme: Theme, base: Style, steps: Seq<HighlightStep>, char_idx: int) -> Style {
    style_after(theme, base, steps, done_at(steps, 0, char_idx))
}

/// A walk that stops on its way takes the same steps.
pub proof fn lemma_done_in_turn(steps: Seq<HighlightStep>, from: int, middle: int, end: int)
    requires
        middle <= end,
    ensures
        done_at(steps, done_at(steps, from, middle), end) == done_at(steps, from, end),
    decreases steps.len() - from,
{
    if 0 <= from < steps.len() && steps[from].at <= middle {
        lemma_done_in_turn(steps, from + 1, middle, end);
    }
}

/// A highlighter that walks over a text.
#[derive(Debug)]
pub struct HighlightTrack {
    pub steps: Vec<HighlightStep>,
    pub next: usize,
    /// The style without highlights.
    pub base: Style,
    pub style: Style,
}

impl HighlightTrack {
    /// Whether the theme knows all highlights, and the style is that of the
    /// steps taken.
    pub open spec fn wf(&self, theme: &Theme) -> bool {
        &&& known_highlights(*theme, self.steps@)
        &&& self.next <= self.steps@.len()
        &&& self.style == style_after(*theme, self.base, self.steps@, self.next as int)
    }

    pub fn new(steps: Vec<HighlightStep>, theme: &Theme, base: Style) -> (out: HighlightTrack)
        requires
            known_highlights(*theme, steps@),
        ensures
            out.wf(theme),
            out.steps == steps,
            out.next == 0,
            out.base == base,
            out.style == base,
    {
        HighlightTrack { steps, next: 0, base, style: base }
    }

    /// Takes the next step.
    pub fn advance(&mut self, theme: &Theme)
        requires
            old(self).wf(theme),
        ensures
            final(self).wf(theme),
            final(self).steps == old(self).steps,
            final(self).base == old(self).base,
            final(self).next == (if old(self).next < old(self).steps@.len() {
                old(self).next + 1
            } else {
                old(self).next as int
            }),
    {
        if self.next >= self.steps.len() {
            return;
        }
        let step = &self.steps[self.next];
        let mut style = match step.event {
            HighlightEvent::Refresh => self.base,
            HighlightEvent::Push => self.style,
        };
        let ghost start = style;
        let mut i: usize = 0;
        while i < step.highlights.len()
            invariant
                self.wf(theme),
                self.next < self.steps@.len(),
                *step == self.steps@[self.next as int],
                i <= step.highlights@.len(),
                style == highlighted(*theme, start, step.highlights@, i as int),
            decreases step.highlights.len() - i,
        {
            proof {
                assert(self.steps@[self.next as int].highlights@[i as int] < theme.scopes@.len());
            }
            style = style.patch(theme.scopes[step.highlights[i]].style);
            i += 1;
        }
        self.style = style;
        self.next += 1;
    }

    /// Takes all steps that are due at a character.
    pub fn advance_to(&mut self, theme: &Theme, char_idx: usize)
        requires
            old(self).wf(theme),
        ensures
            final(self).wf(theme),
            final(self).steps == old(self).steps,
            final(self).base == old(self).base,
            final(self).next == done_at(old(self).steps@, old(self).next as int, char_idx as int),
    {
        while self.next < self.steps.len() && char_idx >= self.steps[self.next].at
            invariant
                self.wf(theme),
                self.steps == old(self).steps,
                self.base == old(self).base,
                done_at(self.steps@, self.next as int, char_idx as int) == done_at(
                    old(self).steps@,
                    old(self).next as int,
                    char_idx as int,
                ),
            decreases self.steps.len() - self.next,
        {
            self.advance(theme);
        }
    }
}

/// The character at which a change at a byte takes effect: the next one that
/// does not begin before the byte, or none at the mark of the end.
pub fn step_position(text: &str, byte: u32) -> (out: usize)
    ensures
        out == (if byte == u32::MAX {
            usize::MAX as int
        } else {
            chars_before(text@, boundary_after(text@, byte as int)) as int
        }),
{
    if byte == u32::MAX {
        return usize::MAX;
    }
    proof {
        lemma_boundary_after(text@, byte as int);
    }
    let at: usize = ceil_char_boundary(text, byte as usize);
    let mut walker = ByteToChar::new(text);
    walker.convert(at)
}

/// The highlight of an annotation, if there is a theme and it knows the scope.
pub open spec fn highlight_in(theme: Option<&Theme>, scope: Seq<char>) -> Option<int> {
    match theme {
        Some(theme) => resolved(scope_names(theme.scopes@), scope),
        None => None,
    }
}

/// Whether these are the highlights of the annotations.
pub open spec fn resolve_to(list: Seq<CustomInlineAnnotation>, theme: Option<&Theme>, out: Seq<Option<usize>>) -> bool {
    &&& out.len() == list.len()
    &&& forall|i: int|
        0 <= i < list.len() ==> match #[trigger] out[i] {
            Some(found) => highlight_in(theme, list[i].scope@) == Some(found as int),
            None => highlight_in(theme, list[i].scope@) is None,
        }
}

/// The highlights of the inline annotations of all namespaces, in their order.
pub fn inline_highlights(list: &Vec<NamedAnnotations>, theme: Option<&Theme>) -> (out: Vec<Vec<Option<usize>>>)
    ensures
        out@.len() == list@.len(),
        forall|n: int| 0 <= n < list@.len() ==> resolve_to(list@[n].annotations.inline@, theme, (#[trigger] out@[n])@),
{
    let mut out: Vec<Vec<Option<usize>>> = Vec::new();
    let mut n: usize = 0;
    while n < list.len()
        invariant
            n <= list@.len(),
            out@.len() == n,
            forall|k: int| 0 <= k < n ==> resolve_to(list@[k].annotations.inline@, theme, (#[trigger] out@[k])@),
        decreases list.len() - n,
    {
        let inline = &list[n].annotations.inline;
        let mut found: Vec<Option<usize>> = Vec::new();
        let mut i: usize = 0;
        while i < inline.len()
            invariant
                n < list@.len(),
                inline@ == list@[n as int].annotations.inline@,
                i <= inline@.len(),
                found@.len() == i,
                forall|k: int|
                    0 <= k < i ==> match #[trigger] found@[k] {
                        Some(at) => highlight_in(theme, inline@[k].scope@) == Some(at as int),
                        None => highlight_in(theme, inline@[k].scope@) is None,
                    },
            decreases inline.len() - i,
        {
            let highlight = match theme {
                Some(theme) => theme.find_highlight(inline[i].scope.as_str()),
                None => None,
            };
            found.push(highlight);
            i += 1;
        }
        out.push(found);
        n += 1;
    }
    out
}

proof fn lemma_done_at(steps: Seq<HighlightStep>, from: int, char_idx: int)
    requires
        0 <= from <= steps.len(),
    ensures
        from <= done_at(steps, from, char_idx) <= steps.len(),
        forall|k: int| from <= k < done_at(steps, from, char_idx) ==> (#[trigger] steps[k]).at <= char_idx,
        done_at(steps, from, char_idx) < steps.len() ==> steps[done_at(steps, from, char_idx)].at > char_idx,
    decreases steps.len() - from,
{
    if from < steps.len() && steps[from].at <= char_idx {
        lemma_done_at(steps, from + 1, char_idx);
    }
}

/// At a character all steps up to the first one behind it have been taken.
pub proof fn law_steps_are_taken_up_to_the_character(steps: Seq<HighlightStep>, char_idx: int, k: int)
    requires
        0 <= k < steps.len(),
        forall|i: int, j: int| 0 <= i < j < steps.len() ==> (#[trigger] steps[i]).at <= (#[trigger] steps[j]).at,
    ensures
        0 <= done_at(steps, 0, char_idx) <= steps.len(),
        k < done_at(steps, 0, char_idx) <==> steps[k].at <= char_idx,
{
    lemma_done_at(steps, 0, char_idx);
    let n = done_at(steps, 0, char_idx);
    if k < n {
        assert(steps[k].at <= char_idx);
    } else if k > n {
        assert(steps[n].at <= steps[k].at);
    }
}

/// A step that refreshes starts from the base, one that pushes adds to the style
/// before it; each highlight of it lies on top, in their order.
pub proof fn law_steps_add_their_highlights(theme: Theme, base: Style, steps: Seq<HighlightStep>, n: int, k: int)
    requires
        0 < n <= steps.len(),
    ensures
        style_after(theme, base, steps, 0) == base,
        steps[n - 1].highlights@.len() == 0 && steps[n - 1].event is Refresh ==> style_after(theme, base, steps, n) == base,
        steps[n - 1].highlights@.len() == 0 && steps[n - 1].event is Push ==> style_after(theme, base, steps, n) == style_after(
            theme,
            base,
            steps,
            n - 1,
        ),
        steps[n - 1].highlights@.len() == 1 && steps[n - 1].event is Refresh ==> style_after(theme, base, steps, n) == base.patched(
            theme.scopes@[steps[n - 1].highlights@[0] as int].style,
        ),
        steps[n - 1].highlights@.len() == 1 && steps[n - 1].event is Push ==> style_after(theme, base, steps, n) == style_after(
            theme,
            base,
            steps,
            n - 1,
        ).patched(theme.scopes@[steps[n - 1].highlights@[0] as int].style),
        k > 0 ==> highlighted(theme, base, steps[n - 1].highlights@, k) == highlighted(theme, base, steps[n - 1].highlights@, k - 1).patched(
            theme.scopes@[steps[n - 1].highlights@[k - 1] as int].style,
        ),
{
    reveal_with_fuel(highlighted, 3);
}

/// The style at a character is the base where no step was taken before it.
pub proof fn law_no_step_leaves_the_base(theme: Theme, base: Style, steps: Seq<HighlightStep>, char_idx: int)
    requires
        steps.len() == 0 || steps[0].at > char_idx,
    ensures
        track_style(theme, base, steps, char_idx) == base,
{
}

/// A character has the style of an earlier one where no step stands between
/// them.
pub proof fn law_styles_change_only_at_steps(theme: Theme, base: Style, steps: Seq<HighlightStep>, first: int, second: int)
    requires
        first <= second,
        forall|i: int, j: int| 0 <= i < j < steps.len() ==> (#[trigger] steps[i]).at <= (#[trigger] steps[j]).at,
        forall|i: int| 0 <= i < steps.len() ==> !(first < (#[trigger] steps[i]).at <= second),
    ensures
        track_style(theme, base, steps, first) == track_style(theme, base, steps, second),
{
    lemma_done_at(steps, 0, first);
    lemma_done_at(steps, 0, second);
    let a = done_at(steps, 0, first);
    let b = done_at(steps, 0, second);
    if a < b {
        assert(steps[a].at <= second);
    } else if b < a {
        assert(steps[b].at <= first);
    }
}

} // verus!
