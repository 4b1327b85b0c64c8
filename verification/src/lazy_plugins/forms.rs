//! The forms of a Steel source, as its parser gives them.

use super::reader::readable;
use steel::parser::ast::ExprKind;
use steel::parser::parser::{ParseError, Parser};
use steel::parser::tokens::TokenType;
use vstd::prelude::*;

verus! {

broadcast use vstd::string::group_string_axioms;

#[verifier::external_type_specification]
#[verifier::external_body]
pub struct ExExprKind(ExprKind);

#[verifier::external_type_specification]
#[verifier::external_body]
pub struct ExParser<'a>(Parser<'a>);

#[verifier::external_type_specification]
#[verifier::external_body]
pub struct ExParseError(ParseError);

/// A form, opened one level deep.
pub enum Form {
    Identifier(String),
    Text(String),
    List { args: Vec<ExprKind>, improper: bool },
    /// A definition, and the byte at which it starts.
    Define { name: ExprKind, start: usize },
    Quote(ExprKind),
    Other,
}

/// What a form consists of.
pub enum FormView {
    Identifier(Seq<char>),
    Text(Seq<char>),
    List { args: Seq<FormView>, improper: bool },
    Define { name: Box<FormView>, start: usize },
    Quote(Box<FormView>),
    Other,
}

/// What an expression consists of.
pub uninterp spec fn form_view(form: ExprKind) -> FormView;

pub open spec fn form_views(forms: Seq<ExprKind>) -> Seq<FormView> {
    Seq::new(forms.len(), |i: int| form_view(forms[i]))
}

/// A form that was parsed, or where and why parsing failed.
pub type Parsed = Result<FormView, (usize, Seq<char>)>;

/// The forms that a parser gives from here on, up to the first error.
pub uninterp spec fn forms_of(parser: Parser<'_>) -> Seq<Parsed>;

/// The text that a parser was made for.
pub uninterp spec fn text_of(parser: Parser<'_>) -> Seq<char>;

/// The forms of a source, with documentation comments turned into `@doc`
/// forms, up to the first error.
pub uninterp spec fn documented_forms(source: Seq<char>) -> Seq<Parsed>;

/// The forms of a source, or the message of the first error.
pub uninterp spec fn plain_forms(source: Seq<char>) -> Result<Seq<FormView>, Seq<char>>;

/// Tells the variants of an `ExprKind` apart. Its parts are moved out as they
/// are.
#[verifier::external_body]
pub(crate) fn open_form(form: ExprKind) -> (out: Form)
    ensures
        match out {
            Form::Identifier(name) => form_view(form) == FormView::Identifier(name@),
            Form::Text(text) => form_view(form) == FormView::Text(text@),
            Form::List { args, improper } => form_view(form) == (FormView::List { args: form_views(args@), improper }),
            Form::Define { name, start } => form_view(form) == (FormView::Define {
                name: Box::new(form_view(name)),
                start,
            }),
            Form::Quote(quoted) => form_view(form) == FormView::Quote(Box::new(form_view(quoted))),
            Form::Other => form_view(form) is Other,
        },
{
    match form {
        ExprKind::Atom(atom) => match atom.syn.ty {
            TokenType::Identifier(name) => Form::Identifier(name.resolve().to_owned()),
            TokenType::StringLiteral(text) => Form::Text(text.resolve().to_owned()),
            _ => Form::Other,
        },
        ExprKind::List(list) => Form::List { args: list.args.into_iter().collect(), improper: list.improper },
        ExprKind::Define(define) => {
            let start = define.location.span.start() as usize;
            Form::Define { name: define.name, start }
        }
        ExprKind::Quote(quote) => Form::Quote(quote.expr),
        _ => Form::Other,
    }
}

/// `Parser::doc_comment_parser` gives the forms of a source.
#[verifier::external_body]
pub(crate) fn doc_comment_parser(source: &str) -> (out: Parser<'_>)
    ensures
        forms_of(out) == documented_forms(source@),
        text_of(out) == source@,
{
    Parser::doc_comment_parser(source, None)
}

/// `Parser::next` gives one form after the other. An error is given with the
/// byte at which it starts and with its message; what comes after an error is
/// left open. Of a text that is not readable nothing is claimed: the parser
/// need not return on it.
#[verifier::external_body]
pub(crate) fn next_form(parser: &mut Parser<'_>) -> (out: Option<Result<ExprKind, (usize, String)>>)
    requires
        readable(text_of(*old(parser))),
    ensures
        match out {
            None => forms_of(*old(parser)).len() == 0,
            Some(Ok(form)) => forms_of(*old(parser)).len() > 0 && forms_of(*old(parser))[0] == Parsed::Ok(form_view(form))
                && forms_of(*final(parser)) == forms_of(*old(parser)).drop_first() && text_of(*final(parser)) == text_of(*old(parser)),
            Some(Err((start, message))) => forms_of(*old(parser)).len() > 0 && forms_of(*old(parser))[0] == Parsed::Err(
                (start, message@),
            ),
        },
{
    parser.next().map(|form| form.map_err(|error| (error.span().start() as usize, error.to_string())))
}

/// `Parser::parse` gives all forms of a source, or the first error. Of a source
/// that is not readable nothing is claimed: the parser need not return on it.
#[verifier::external_body]
pub(crate) fn parse_source(source: &str) -> (out: Result<Vec<ExprKind>, String>)
    requires
        readable(source@),
    ensures
        match out {
            Ok(forms) => plain_forms(source@) == Ok::<Seq<FormView>, Seq<char>>(form_views(forms@)),
            Err(message) => plain_forms(source@) == Err::<Seq<FormView>, Seq<char>>(message@),
        },
{
    Parser::parse(source).map_err(|error| error.to_string())
}

/// The name that a form is, if it is one.
pub open spec fn identifier_view(form: FormView) -> Option<Seq<char>> {
    match form {
        FormView::Identifier(name) => Some(name),
        _ => None,
    }
}

/// The name that a form is, if it is one.
pub fn identifier(form: ExprKind) -> (out: Option<String>)
    ensures
        crate::text::optional_text(out) == identifier_view(form_view(form)),
{
    match open_form(form) {
        Form::Identifier(name) => Some(name),
        _ => None,
    }
}

} // verus!
