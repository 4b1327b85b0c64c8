//! Styles of scopes.

use vstd::prelude::*;

use crate::graphics::{Color, Style};
use crate::text::{chars_of, find_name, same_text, string_of};

verus! {

broadcast use vstd::string::group_string_axioms;

/// A scope and its style.
#[derive(Debug)]
pub struct ThemeScope {
    pub name: String,
    pub style: Style,
}

/// The styles of scopes. A scope without a style of its own has that of the
/// scope before its last dot.
#[derive(Debug)]
pub struct Theme {
    pub scopes: Vec<ThemeScope>,
}

pub open spec fn scope_names(scopes: Seq<ThemeScope>) -> Seq<Seq<char>> {
    Seq::new(scopes.len(), |i: int| scopes[i].name@)
}

/// Where the last dot before `end` stands.
pub open spec fn last_dot(scope: Seq<char>, end: int) -> Option<int>
    decreases end,
{
    if end <= 0 || end > scope.len() {
        None
    } else if scope[end - 1] == '.' {
        Some(end - 1)
    } else {
        last_dot(scope, end - 1)
    }
}

/// Where the style of a scope stands: its own, or that of the nearest scope
/// around it that has one.
pub open spec fn resolved(names: Seq<Seq<char>>, scope: Seq<char>) -> Option<int>
    decreases scope.len(),
{
    if find_name(names, scope, 0) is Some {
        find_name(names, scope, 0)
    } else {
        match last_dot(scope, scope.len() as int) {
            Some(dot) => if 0 <= dot < scope.len() {
                resolved(names, scope.subrange(0, dot))
            } else {
                None
            },
            None => None,
        }
    }
}

proof fn lemma_last_dot(scope: Seq<char>, end: int)
    ensures
        match last_dot(scope, end) {
            Some(dot) => 0 <= dot < end && dot < scope.len(),
            None => true,
        },
    decreases end,
{
    if 0 < end <= scope.len() && scope[end - 1] != '.' {
        lemma_last_dot(scope, end - 1);
    }
}

pub open spec fn true_color(color: Option<Color>) -> bool {
    color is Some && color->0 is Rgb
}

impl Theme {
    /// No scope has a style twice.
    pub open spec fn wf(&self) -> bool {
        scope_names(self.scopes@).no_duplicates()
    }

    pub open spec fn exact(&self, scope: Seq<char>) -> Option<Style> {
        match find_name(scope_names(self.scopes@), scope, 0) {
            Some(i) => Some(self.scopes@[i].style),
            None => None,
        }
    }

    pub open spec fn found(&self, scope: Seq<char>) -> Option<Style> {
        match resolved(scope_names(self.scopes@), scope) {
            Some(i) => Some(self.scopes@[i].style),
            None => None,
        }
    }

    /// Whether no style has a color of its own making.
    pub open spec fn palette(&self) -> bool {
        forall|i: int|
            0 <= i < self.scopes@.len() ==> !true_color((#[trigger] self.scopes@[i]).style.fg) && !true_color(
                self.scopes@[i].style.bg,
            )
    }

    fn index(&self, scope: &str) -> (out: Option<usize>)
        ensures
            match out {
                Some(i) => i < self.scopes@.len() && find_name(scope_names(self.scopes@), scope@, 0) == Some(i as int),
                None => find_name(scope_names(self.scopes@), scope@, 0) is None,
            },
    {
        let ghost names = scope_names(self.scopes@);
        let mut i: usize = 0;
        while i < self.scopes.len()
            invariant
                i <= self.scopes@.len(),
                names == scope_names(self.scopes@),
                find_name(names, scope@, 0) == find_name(names, scope@, i as int),
            decreases self.scopes.len() - i,
        {
            proof {
                assert(names[i as int] == self.scopes@[i as int].name@);
            }
            if same_text(self.scopes[i].name.as_str(), scope) {
                return Some(i);
            }
            i += 1;
        }
        None
    }

    /// Gives a scope a style.
    pub fn set(&mut self, scope: String, style: Style)
        requires
            old(self).wf(),
        ensures
            final(self).wf(),
            final(self).exact(scope@) == Some(style),
            forall|other: Seq<char>| other != scope@ ==> final(self).exact(other) == #[trigger] old(self).exact(other),
    {
        let ghost before = self.scopes@;
        let ghost names = scope_names(before);
        proof {
            crate::text::lemma_find_name(names, scope@, 0);
        }
        match self.index(scope.as_str()) {
            Some(i) => {
                self.scopes[i].style = style;
                proof {
                    assert(scope_names(self.scopes@) =~= names);
                    assert forall|other: Seq<char>| other != scope@ implies self.exact(other) == #[trigger] old(self).exact(
                        other,
                    ) by {
                        crate::text::lemma_find_name(names, other, 0);
                    }
                }
            },
            None => {
                let name = scope.clone();
                self.scopes.push(ThemeScope { name, style });
                proof {
                    let after = scope_names(self.scopes@);
                    assert(after =~= names.push(scope@));
                    crate::text::lemma_find_name(after, scope@, 0);
                    assert(after[names.len() as int] == scope@);
                    assert forall|other: Seq<char>| other != scope@ implies self.exact(other) == #[trigger] old(self).exact(
                        other,
                    ) by {
                        crate::text::lemma_find_name(names, other, 0);
                        crate::text::lemma_find_name(after, other, 0);
                        if find_name(names, other, 0) is Some {
                            let k = find_name(names, other, 0)->0;
                            assert(after[k] == other);
                        }
                        if find_name(after, other, 0) is Some {
                            let k = find_name(after, other, 0)->0;
                            assert(k < names.len());
                            assert(names[k] == other);
                        }
                    }
                }
            },
        }
    }

    /// The style that a scope has itself.
    pub fn try_get_exact(&self, scope: &str) -> (out: Option<Style>)
        ensures
            out == self.exact(scope@),
    {
        match self.index(scope) {
            Some(i) => Some(self.scopes[i].style),
            None => None,
        }
    }

    /// Where the style of a scope stands among the scopes.
    pub fn find_highlight(&self, scope: &str) -> (out: Option<usize>)
        ensures
            match out {
                Some(i) => i < self.scopes@.len() && resolved(scope_names(self.scopes@), scope@) == Some(i as int),
                None => resolved(scope_names(self.scopes@), scope@) is None,
            },
    {
        let chars = chars_of(scope);
        let ghost names = scope_names(self.scopes@);
        let mut end: usize = chars.len();
        proof {
            assert(chars@.subrange(0, end as int) =~= chars@);
        }
        loop
            invariant
                end <= chars@.len(),
                chars@ == scope@,
                names == scope_names(self.scopes@),
                resolved(names, scope@) == resolved(names, chars@.subrange(0, end as int)),
            decreases end,
        {
            let ghost part = chars@.subrange(0, end as int);
            let prefix = string_of(vstd::slice::slice_subrange(chars.as_slice(), 0, end));
            if let Some(i) = self.index(prefix.as_str()) {
                return Some(i);
            }
            let mut dot: usize = end;
            while dot > 0 && chars[dot - 1] != '.'
                invariant
                    dot <= end <= chars@.len(),
                    part == chars@.subrange(0, end as int),
                    last_dot(part, end as int) == last_dot(part, dot as int),
                decreases dot,
            {
                dot -= 1;
            }
            if dot == 0 {
                return None;
            }
            proof {
                assert(part[dot - 1] == '.');
                assert(part.subrange(0, dot - 1) =~= chars@.subrange(0, dot - 1));
            }
            end = dot - 1;
        }
    }

    /// The style of a scope, or of the nearest scope around it that has one.
    pub fn try_get(&self, scope: &str) -> (out: Option<Style>)
        ensures
            out == self.found(scope@),
    {
        match self.find_highlight(scope) {
            Some(i) => Some(self.scopes[i].style),
            None => None,
        }
    }

    /// The style of a scope, or the plain one.
    pub fn get(&self, scope: &str) -> (out: Style)
        ensures
            out == (match self.found(scope@) {
                Some(style) => style,
                None => Style::plain(),
            }),
    {
        match self.try_get(scope) {
            Some(style) => style,
            None => Style::default(),
        }
    }

    /// Whether no style has a color of its own making.
    pub fn is_16_color(&self) -> (out: bool)
        ensures
            out == self.palette(),
    {
        let mut i: usize = 0;
        while i < self.scopes.len()
            invariant
                i <= self.scopes@.len(),
                forall|k: int|
                    0 <= k < i ==> !true_color((#[trigger] self.scopes@[k]).style.fg) && !true_color(
                        self.scopes@[k].style.bg,
                    ),
            decreases self.scopes.len() - i,
        {
            let style = self.scopes[i].style;
            let foreground = match style.fg {
                Some(Color::Rgb(_, _, _)) => true,
                _ => false,
            };
            let background = match style.bg {
                Some(Color::Rgb(_, _, _)) => true,
                _ => false,
            };
            if foreground || background {
                return false;
            }
            i += 1;
        }
        true
    }
}

impl Default for Theme {
    /// A theme without styles.
    fn default() -> (out: Theme)
        ensures
            out.scopes@.len() == 0,
            out.wf(),
    {
        Theme { scopes: Vec::new() }
    }
}

proof fn lemma_dots(scope: Seq<char>, end: int)
    requires
        0 <= end <= scope.len(),
    ensures
        match last_dot(scope, end) {
            Some(dot) => 0 <= dot < end && scope[dot] == '.' && forall|k: int| dot < k < end ==> scope[k] != '.',
            None => forall|k: int| 0 <= k < end ==> scope[k] != '.',
        },
    decreases end,
{
    if end > 0 && scope[end - 1] != '.' {
        lemma_dots(scope, end - 1);
    }
}

/// Whether a scope is another one or one of those around it: the start of it, up
/// to a dot.
pub open spec fn around(scope: Seq<char>, inner: Seq<char>) -> bool {
    &&& scope.len() <= inner.len()
    &&& inner.subrange(0, scope.len() as int) == scope
    &&& scope.len() < inner.len() ==> inner[scope.len() as int] == '.'
}

/// A scope has the style of the longest scope around it that the theme names,
/// its own before all others, and none exactly where the theme names none of
/// these.
pub proof fn law_the_nearest_scope_is_taken(names: Seq<Seq<char>>, scope: Seq<char>)
    ensures
        match resolved(names, scope) {
            Some(i) => 0 <= i < names.len() && around(names[i], scope) && forall|k: int|
                0 <= k < names.len() && around(#[trigger] names[k], scope) ==> names[k].len() <= names[i].len(),
            None => forall|k: int| 0 <= k < names.len() ==> !around(#[trigger] names[k], scope),
        },
    decreases scope.len(),
{
    crate::text::lemma_find_name(names, scope, 0);
    lemma_dots(scope, scope.len() as int);
    assert(scope.subrange(0, scope.len() as int) =~= scope);
    if find_name(names, scope, 0) is None {
        match last_dot(scope, scope.len() as int) {
            Some(dot) => {
                let outer = scope.subrange(0, dot);
                law_the_nearest_scope_is_taken(names, outer);
                assert forall|k: int| 0 <= k < names.len() && around(#[trigger] names[k], scope) implies around(names[k], outer) by {
                    let name = names[k];
                    if name.len() == scope.len() {
                        assert(name =~= scope);
                    }
                    assert(name.len() <= dot);
                    assert(outer.subrange(0, name.len() as int) =~= scope.subrange(0, name.len() as int));
                }
                if let Some(i) = resolved(names, outer) {
                    let name = names[i];
                    assert(scope.subrange(0, name.len() as int) =~= outer.subrange(0, name.len() as int));
                }
            },
            None => {
                assert forall|k: int| 0 <= k < names.len() implies !around(#[trigger] names[k], scope) by {
                    if around(names[k], scope) {
                        assert(names[k].len() == scope.len());
                        assert(names[k] =~= scope);
                    }
                }
            },
        }
    }
}

/// A scope is exactly found where the theme names it, with the style that stands
/// beside its name; and what is found for it is then the same.
pub proof fn law_named_scopes_have_their_own_style(theme: Theme, scope: Seq<char>, i: int)
    requires
        theme.wf(),
        0 <= i < theme.scopes@.len(),
        theme.scopes@[i].name@ == scope,
    ensures
        theme.exact(scope) == Some(theme.scopes@[i].style),
        theme.found(scope) == Some(theme.scopes@[i].style),
{
    let names = scope_names(theme.scopes@);
    crate::text::lemma_find_name(names, scope, 0);
    assert(names[i] == scope);
}

/// A scope that the theme does not name has no style of its own.
pub proof fn law_other_scopes_have_no_style_of_their_own(theme: Theme, scope: Seq<char>)
    ensures
        theme.exact(scope) is None <==> forall|i: int| 0 <= i < theme.scopes@.len() ==> (#[trigger] theme.scopes@[i]).name@ != scope,
{
    let names = scope_names(theme.scopes@);
    crate::text::lemma_find_name(names, scope, 0);
    assert forall|i: int| 0 <= i < theme.scopes@.len() implies names[i] == (#[trigger] theme.scopes@[i]).name@ by {}
    if forall|i: int| 0 <= i < theme.scopes@.len() ==> (#[trigger] theme.scopes@[i]).name@ != scope {
        if let Some(i) = find_name(names, scope, 0) {
            assert(theme.scopes@[i].name@ == scope);
        }
    }
}

} // verus!
