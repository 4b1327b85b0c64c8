//! Which sources can be handed to Steel's parser.
//!
//! The parser does not return on every text: it stops on a dotted list that
//! it would turn into a special form, it does not end on a definition whose
//! name is headed by an empty list, it calls itself for every reader tick, and
//! it keeps a context stack that a quoting form under a tick can leave out of
//! step. A pass over the tokens finds the texts that hold none of this. It errs
//! on the safe side: a form that is harmless only for what stands around it is
//! refused too.

use super::forms::{FormView, Parsed};
use crate::text::{byte_length, same_text, text_bytes};
use steel::parser::lexer::TokenStream;
use steel::parser::tokens::TokenType;
use vstd::prelude::*;

verus! {

broadcast use vstd::string::group_string_axioms;

/// How deep lists and ticks may stand in each other.
pub const MAX_NESTING: u16 = 1000;

/// How many ticks may stand in each other.
pub const MAX_TICKS: u16 = 64;

/// How many datum comments may wait in one list for what they comment out: the
/// parser counts them in 8 bits.
pub const MAX_DATUM_COMMENTS: u32 = 255;

/// A token, as far as it decides how a source is read.
pub enum Token {
    /// An opening bracket.
    Open(String),
    /// The opening bracket of a vector or a byte vector.
    OpenLiteral,
    /// A closing bracket.
    Close(String),
    /// A quote or a quasiquote tick.
    Quoting,
    /// An unquote or an unquote-splicing tick.
    Unquoting,
    /// A tick of the syntax reader.
    Syntax,
    /// An identifier, a keyword or a literal.
    Word(String),
    Dot,
    DatumComment,
    Comment,
}

/// The contents of a [`Token`].
pub enum TokenView {
    Open(Seq<char>),
    OpenLiteral,
    Close(Seq<char>),
    Quoting,
    Unquoting,
    Syntax,
    Word(Seq<char>),
    Dot,
    DatumComment,
    Comment,
}

impl View for Token {
    type V = TokenView;

    open spec fn view(&self) -> TokenView {
        match self {
            Token::Open(text) => TokenView::Open(text@),
            Token::OpenLiteral => TokenView::OpenLiteral,
            Token::Close(text) => TokenView::Close(text@),
            Token::Quoting => TokenView::Quoting,
            Token::Unquoting => TokenView::Unquoting,
            Token::Syntax => TokenView::Syntax,
            Token::Word(text) => TokenView::Word(text@),
            Token::Dot => TokenView::Dot,
            Token::DatumComment => TokenView::DatumComment,
            Token::Comment => TokenView::Comment,
        }
    }
}

/// The tokens of a source, with `None` for a text that is no token.
pub uninterp spec fn source_tokens(source: Seq<char>) -> Seq<Option<TokenView>>;

/// The contents of tokens.
pub open spec fn token_views(tokens: Seq<Option<Token>>) -> Seq<Option<TokenView>> {
    Seq::new(
        tokens.len(),
        |i: int|
            match tokens[i] {
                Some(token) => Some(token@),
                None => None,
            },
    )
}

/// `TokenStream::new` and its `next` give the tokens of a source, comments among
/// them. Bytes are counted in 32 bits.
#[verifier::external_body]
pub(crate) fn tokenize(source: &str) -> (out: Vec<Option<Token>>)
    requires
        byte_length(source@) <= u32::MAX,
    ensures
        token_views(out@) == source_tokens(source@),
{
    TokenStream::new(source, false, None).map(|token| token.ok().map(|token| match token.ty {
        TokenType::OpenParen(_, None) => Token::Open(token.source.to_owned()),
        TokenType::OpenParen(_, _) => Token::OpenLiteral,
        TokenType::CloseParen(_) => Token::Close(token.source.to_owned()),
        TokenType::QuoteTick | TokenType::QuasiQuote => Token::Quoting,
        TokenType::Unquote | TokenType::UnquoteSplice => Token::Unquoting,
        TokenType::QuoteSyntax | TokenType::QuasiQuoteSyntax | TokenType::UnquoteSyntax | TokenType::UnquoteSpliceSyntax => Token::Syntax,
        TokenType::Identifier(name) => Token::Word(name.resolve().to_owned()),
        TokenType::Dot => Token::Dot,
        TokenType::DatumComment => Token::DatumComment,
        TokenType::Comment => Token::Comment,
        _ => Token::Word(token.source.to_owned()),
    })).collect()
}

/// The shape of a bracket.
#[derive(Clone, Copy, PartialEq, Eq, Structural)]
pub enum Bracket {
    Round,
    Square,
    Curly,
}

/// The shape of a bracket that opens or closes.
pub open spec fn bracket_of(text: Seq<char>) -> Bracket {
    if text == "["@ || text == "]"@ {
        Bracket::Square
    } else if text == "{"@ || text == "}"@ {
        Bracket::Curly
    } else {
        Bracket::Round
    }
}

fn bracket(text: &str) -> (out: Bracket)
    ensures
        out == bracket_of(text@),
{
    if same_text(text, "[") || same_text(text, "]") {
        Bracket::Square
    } else if same_text(text, "{") || same_text(text, "}") {
        Bracket::Curly
    } else {
        Bracket::Round
    }
}

/// What the first item of a list makes of the list.
#[derive(Clone, Copy, PartialEq, Eq, Structural)]
pub enum Head {
    Plain,
    Define,
    Quote,
    /// One of the quasiquoting words, by name.
    Quasi,
    DefineSyntax,
    /// A word whose form is turned into another list.
    Let,
    /// Another word that heads a special form.
    Special,
}

/// What a word at the head of a list makes of the list.
pub open spec fn head_of(word: Seq<char>) -> Head {
    if word == "define"@ || word == "defn"@ || word == "#%define"@ {
        Head::Define
    } else if word == "quote"@ {
        Head::Quote
    } else if word == "unquote"@ || word == "quasiquote"@ || word == "unquote-splicing"@ {
        Head::Quasi
    } else if word == "define-syntax"@ {
        Head::DefineSyntax
    } else if word == "let"@ {
        Head::Let
    } else if word == "if"@ || word == "%plain-let"@ || word == "return!"@ || word == "begin"@ || word == "lambda"@
        || word == "fn"@ || word == "#%plain-lambda"@ || word == "\u{3bb}"@ || word == "syntax-rules"@ || word == "set!"@ || word
        == "require"@ {
        Head::Special
    } else {
        Head::Plain
    }
}

fn head(word: &str) -> (out: Head)
    ensures
        out == head_of(word@),
{
    if same_text(word, "define") || same_text(word, "defn") || same_text(word, "#%define") {
        Head::Define
    } else if same_text(word, "quote") {
        Head::Quote
    } else if same_text(word, "unquote") || same_text(word, "quasiquote") || same_text(word, "unquote-splicing") {
        Head::Quasi
    } else if same_text(word, "define-syntax") {
        Head::DefineSyntax
    } else if same_text(word, "let") {
        Head::Let
    } else if same_text(word, "if") || same_text(word, "%plain-let") || same_text(word, "return!") || same_text(
        word,
        "begin",
    ) || same_text(word, "lambda") || same_text(word, "fn") || same_text(word, "#%plain-lambda") || same_text(word, "\u{3bb}") || same_text(
        word,
        "syntax-rules",
    ) || same_text(word, "set!") || same_text(word, "require") {
        Head::Special
    } else {
        Head::Plain
    }
}

/// What holds items.
#[derive(Clone, Copy, PartialEq, Eq, Structural)]
pub enum Holder {
    /// The source itself.
    Top,
    List(Bracket),
    /// A vector or a byte vector.
    Literal,
    /// A tick, which holds the one item behind it.
    Tick,
    /// A tick of the syntax reader.
    Syntax,
}

/// Something that has been opened and waits for items.
#[derive(Clone, Copy, PartialEq, Eq, Structural)]
pub struct Frame {
    pub holder: Holder,
    pub head: Head,
    /// The number of items so far, where more than two count as two.
    pub items: u8,
    /// The number of items that are commented out next.
    pub comments: u32,
    /// Whether the list stands where a definition has its name, or at the head
    /// of such a list.
    pub names: bool,
    /// Whether the innermost tick around it quotes.
    pub quoted: bool,
    /// Whether any tick stands around it.
    pub ticked: bool,
    /// Whether it is a quoting form under a tick, or stands in one. Such a form
    /// must not end in an error.
    pub guarded: bool,
    /// The number of lists since the innermost tick.
    pub level: u16,
    /// The number of ticks around it.
    pub ticks: u16,
}

/// What waits for the first item of a source.
pub open spec fn top_frame() -> Frame {
    Frame {
        holder: Holder::Top,
        head: Head::Plain,
        items: 0,
        comments: 0,
        names: false,
        quoted: false,
        ticked: false,
        guarded: false,
        level: 0,
        ticks: 0,
    }
}

/// The same frames with another one on top.
pub open spec fn with_top(stack: Seq<Frame>, top: Frame) -> Seq<Frame> {
    stack.update(stack.len() - 1, top)
}

/// The frames once an item has ended in the innermost one. A tick ends with its
/// item.
pub open spec fn item_ended(stack: Seq<Frame>) -> Seq<Frame>
    decreases stack.len(),
{
    if stack.len() == 0 {
        stack
    } else {
        let top = stack.last();
        if top.comments > 0 {
            with_top(stack, Frame { comments: (top.comments - 1) as u32, ..top })
        } else if top.holder is Tick || top.holder is Syntax {
            item_ended(stack.drop_last())
        } else if top.items < 2 {
            with_top(stack, Frame { items: (top.items + 1) as u8, ..top })
        } else {
            stack
        }
    }
}

/// The frame of a list that is opened in another frame.
pub open spec fn list_frame(top: Frame, holder: Holder) -> Frame {
    Frame {
        holder,
        head: Head::Plain,
        items: 0,
        comments: 0,
        names: holder is List && !top.quoted && top.comments == 0 && ((top.head == Head::Define && top.items == 1) || (top.names
            && top.items == 0)),
        quoted: top.quoted,
        ticked: top.ticked,
        guarded: top.guarded,
        level: (top.level + 1) as u16,
        ticks: top.ticks,
    }
}

/// The frame of a tick that is read in another frame. `quotes` is absent for a
/// tick of the syntax reader, which changes nothing about quoting.
pub open spec fn tick_frame(top: Frame, quotes: Option<bool>) -> Frame {
    Frame {
        holder: if quotes is Some {
            Holder::Tick
        } else {
            Holder::Syntax
        },
        head: Head::Plain,
        items: 0,
        comments: 0,
        names: false,
        quoted: match quotes {
            Some(quotes) => quotes,
            None => top.quoted,
        },
        ticked: top.ticked || quotes is Some,
        guarded: top.guarded,
        level: 0,
        ticks: (top.ticks + 1) as u16,
    }
}

/// Whether a list can be closed.
pub open spec fn closes(stack: Seq<Frame>, bracket: Bracket) -> bool {
    let top = stack.last();
    match top.holder {
        Holder::List(own) => {
            &&& !(top.guarded && own != bracket)
            &&& !(top.items == 0 && stack.len() >= 2 && {
                let parent = stack[stack.len() - 2];
                parent.names && parent.items == 0 && parent.comments == 0
            })
        },
        _ => !top.guarded,
    }
}

/// Whether a word can stand at the head of the innermost list.
pub open spec fn heads(stack: Seq<Frame>, head: Head) -> bool {
    let top = stack.last();
    &&& top.guarded ==> head == Head::Plain
    &&& top.ticked && head == Head::Quasi ==> top.holder is List && top.comments == 0 && top.level >= 2
    &&& top.ticked && head == Head::Quote ==> top.holder is List && top.comments == 0 && top.level <= 3
    &&& head == Head::DefineSyntax && stack.len() >= 2 ==> !(stack[stack.len() - 2].holder is Syntax)
}

/// The innermost list once a word stands at its head.
pub open spec fn headed(top: Frame, head: Head) -> Frame {
    if top.comments > 0 || !(top.holder is List) {
        top
    } else {
        Frame { head, guarded: top.guarded || top.ticked && (head == Head::Quote || head == Head::Quasi), ..top }
    }
}

/// Whether a list with this head is turned into something that is no list.
pub open spec fn lowered(head: Head) -> bool {
    !(head is Plain || head is Quasi || head is Let)
}

/// How many datum comments may wait in a frame.
pub open spec fn comments_limit(holder: Holder) -> u32 {
    match holder {
        Holder::List(_) => MAX_DATUM_COMMENTS,
        Holder::Literal => MAX_DATUM_COMMENTS,
        _ => u32::MAX,
    }
}

/// The frames once a token has been read, or nothing where the token must not
/// reach the parser.
pub open spec fn token_read(stack: Seq<Frame>, token: TokenView) -> Option<Seq<Frame>> {
    let top = stack.last();
    match token {
        TokenView::Comment => Some(stack),
        TokenView::DatumComment => if top.guarded || top.comments >= comments_limit(top.holder) {
            None
        } else {
            Some(with_top(stack, Frame { comments: (top.comments + 1) as u32, ..top }))
        },
        TokenView::Dot => if !(top.holder is List) {
            Some(item_ended(stack))
        } else if top.guarded || (lowered(top.head) && !top.quoted) {
            None
        } else {
            Some(stack)
        },
        TokenView::Open(text) => if stack.len() > MAX_NESTING {
            None
        } else {
            Some(stack.push(list_frame(top, Holder::List(bracket_of(text)))))
        },
        TokenView::OpenLiteral => if top.guarded || stack.len() > MAX_NESTING {
            None
        } else {
            Some(stack.push(list_frame(top, Holder::Literal)))
        },
        TokenView::Close(text) => if !closes(stack, bracket_of(text)) {
            None
        } else if top.holder is List || top.holder is Literal {
            Some(item_ended(stack.drop_last()))
        } else {
            Some(stack)
        },
        TokenView::Quoting => if top.ticks >= MAX_TICKS || stack.len() > MAX_NESTING {
            None
        } else {
            Some(stack.push(tick_frame(top, Some(true))))
        },
        TokenView::Unquoting => if top.ticks >= MAX_TICKS || stack.len() > MAX_NESTING {
            None
        } else {
            Some(stack.push(tick_frame(top, Some(false))))
        },
        TokenView::Syntax => if top.ticks >= MAX_TICKS || stack.len() > MAX_NESTING {
            None
        } else {
            Some(stack.push(tick_frame(top, None)))
        },
        TokenView::Word(word) => if top.items > 0 || !(top.holder is List || top.holder is Literal) {
            Some(item_ended(stack))
        } else if !heads(stack, head_of(word)) {
            None
        } else {
            Some(item_ended(with_top(stack, headed(top, head_of(word)))))
        },
    }
}

/// Whether the tokens can be handed to the parser, once the frames before them
/// have been opened.
pub open spec fn tokens_readable(stack: Seq<Frame>, tokens: Seq<Option<TokenView>>) -> bool
    decreases tokens.len(),
{
    if tokens.len() == 0 {
        !stack.last().guarded
    } else {
        match tokens[0] {
            None => !stack.last().guarded,
            Some(token) => match token_read(stack, token) {
                Some(next) => tokens_readable(next, tokens.drop_first()),
                None => false,
            },
        }
    }
}

/// Whether a source can be handed to the parser.
pub open spec fn readable(source: Seq<char>) -> bool {
    byte_length(source) <= u32::MAX && tokens_readable(seq![top_frame()], source_tokens(source))
}

/// What is said of a source that cannot be handed to the parser.
pub open spec fn unreadable() -> Seq<char> {
    "source holds a form that cannot be read"@
}

/// The forms of a source that can be read, and an error at the start of any
/// other.
pub open spec fn forms_if_readable(source: Seq<char>, forms: Seq<Parsed>) -> Seq<Parsed> {
    if readable(source) {
        forms
    } else {
        seq![Parsed::Err((0usize, unreadable()))]
    }
}

/// The forms of a source that can be read, and an error for any other.
pub open spec fn plain_if_readable(source: Seq<char>, forms: Result<Seq<FormView>, Seq<char>>) -> Result<Seq<FormView>, Seq<char>> {
    if readable(source) {
        forms
    } else {
        Err(unreadable())
    }
}

/// Whether the frames are those of a source that has been read up to some
/// token.
pub open spec fn sane(stack: Seq<Frame>) -> bool {
    &&& 0 < stack.len() <= MAX_NESTING + 1
    &&& stack[0].holder is Top
    &&& forall|i: int| 0 <= i < stack.len() ==> (#[trigger] stack[i]).level <= i && stack[i].ticks <= i
    &&& forall|i: int| 0 < i < stack.len() ==> !((#[trigger] stack[i]).holder is Top)
}

/// Ends an item in the innermost frame.
fn end_item(stack: &mut Vec<Frame>)
    requires
        sane(old(stack)@),
    ensures
        final(stack)@ == item_ended(old(stack)@),
        sane(final(stack)@),
    decreases old(stack)@.len(),
{
    let last: usize = stack.len() - 1;
    let top = stack[last];
    if top.comments > 0 {
        stack.set(last, Frame { comments: top.comments - 1, ..top });
    } else if matches!(top.holder, Holder::Tick | Holder::Syntax) {
        let _ = stack.pop();
        proof {
            assert(stack@ =~= old(stack)@.drop_last());
        }
        end_item(stack);
    } else if top.items < 2 {
        stack.set(last, Frame { items: top.items + 1, ..top });
    }
}

/// Puts a frame on top.
fn open_frame(stack: &mut Vec<Frame>, frame: Frame)
    requires
        sane(old(stack)@),
        old(stack)@.len() <= MAX_NESTING,
        frame.level <= old(stack)@.len(),
        frame.ticks <= old(stack)@.len(),
        !(frame.holder is Top),
    ensures
        final(stack)@ == old(stack)@.push(frame),
        sane(final(stack)@),
{
    stack.push(frame);
}

fn new_list(top: Frame, holder: Holder) -> (out: Frame)
    requires
        top.level < u16::MAX,
    ensures
        out == list_frame(top, holder),
{
    let list = matches!(holder, Holder::List(_));
    Frame {
        holder,
        head: Head::Plain,
        items: 0,
        comments: 0,
        names: list && !top.quoted && top.comments == 0 && ((top.head == Head::Define && top.items == 1) || (top.names && top.items == 0)),
        quoted: top.quoted,
        ticked: top.ticked,
        guarded: top.guarded,
        level: top.level + 1,
        ticks: top.ticks,
    }
}

fn new_tick(top: Frame, quotes: Option<bool>) -> (out: Frame)
    requires
        top.ticks < u16::MAX,
    ensures
        out == tick_frame(top, quotes),
{
    Frame {
        holder: if quotes.is_some() {
            Holder::Tick
        } else {
            Holder::Syntax
        },
        head: Head::Plain,
        items: 0,
        comments: 0,
        names: false,
        quoted: match quotes {
            Some(quotes) => quotes,
            None => top.quoted,
        },
        ticked: top.ticked || quotes.is_some(),
        guarded: top.guarded,
        level: 0,
        ticks: top.ticks + 1,
    }
}

/// Changes the innermost frame.
fn set_top(stack: &mut Vec<Frame>, top: Frame)
    requires
        sane(old(stack)@),
        top.holder == old(stack)@.last().holder,
        top.level == old(stack)@.last().level,
        top.ticks == old(stack)@.last().ticks,
    ensures
        final(stack)@ == with_top(old(stack)@, top),
        sane(final(stack)@),
{
    let last: usize = stack.len() - 1;
    stack.set(last, top);
}

/// Opens a list, unless it is too deep.
fn open_list(stack: &mut Vec<Frame>, top: Frame, holder: Holder) -> (out: bool)
    requires
        sane(old(stack)@),
        top == old(stack)@.last(),
        !(holder is Top),
    ensures
        out == (old(stack)@.len() <= MAX_NESTING),
        out ==> final(stack)@ == old(stack)@.push(list_frame(top, holder)) && sane(final(stack)@),
{
    if stack.len() > MAX_NESTING as usize {
        return false;
    }
    open_frame(stack, new_list(top, holder));
    true
}

/// Opens a tick, unless it is too deep.
fn open_tick(stack: &mut Vec<Frame>, top: Frame, quotes: Option<bool>) -> (out: bool)
    requires
        sane(old(stack)@),
        top == old(stack)@.last(),
    ensures
        out == !(top.ticks >= MAX_TICKS || old(stack)@.len() > MAX_NESTING),
        out ==> final(stack)@ == old(stack)@.push(tick_frame(top, quotes)) && sane(final(stack)@),
{
    if top.ticks >= MAX_TICKS || stack.len() > MAX_NESTING as usize {
        return false;
    }
    open_frame(stack, new_tick(top, quotes));
    true
}

/// Reads a closing bracket.
fn close_list(stack: &mut Vec<Frame>, top: Frame, bracket: Bracket) -> (out: bool)
    requires
        sane(old(stack)@),
        top == old(stack)@.last(),
    ensures
        out == closes(old(stack)@, bracket),
        out ==> sane(final(stack)@) && final(stack)@ == if top.holder is List || top.holder is Literal {
            item_ended(old(stack)@.drop_last())
        } else {
            old(stack)@
        },
{
    match top.holder {
        Holder::List(own) => {
            if top.guarded && own != bracket {
                return false;
            }
            if top.items == 0 && stack.len() >= 2 {
                let parent = stack[stack.len() - 2];
                if parent.names && parent.items == 0 && parent.comments == 0 {
                    return false;
                }
            }
        },
        _ => {
            if top.guarded {
                return false;
            }
        },
    }
    if matches!(top.holder, Holder::List(_) | Holder::Literal) {
        let _ = stack.pop();
        proof {
            assert(stack@ =~= old(stack)@.drop_last());
        }
        end_item(stack);
    }
    true
}

/// Whether a word can stand at the head of the innermost list.
fn may_head(stack: &Vec<Frame>, top: Frame, head: Head) -> (out: bool)
    requires
        sane(stack@),
        top == stack@.last(),
    ensures
        out == heads(stack@, head),
{
    if top.guarded && head != Head::Plain {
        return false;
    }
    if top.ticked && head == Head::Quasi && !(matches!(top.holder, Holder::List(_)) && top.comments == 0 && top.level >= 2) {
        return false;
    }
    if top.ticked && head == Head::Quote && !(matches!(top.holder, Holder::List(_)) && top.comments == 0 && top.level <= 3) {
        return false;
    }
    !(head == Head::DefineSyntax && stack.len() >= 2 && stack[stack.len() - 2].holder == Holder::Syntax)
}

/// Reads a word.
fn read_word(stack: &mut Vec<Frame>, top: Frame, word: &str) -> (out: bool)
    requires
        sane(old(stack)@),
        top == old(stack)@.last(),
    ensures
        match token_read(old(stack)@, TokenView::Word(word@)) {
            Some(next) => out && final(stack)@ == next && sane(next),
            None => !out,
        },
{
    if top.items == 0 && matches!(top.holder, Holder::List(_) | Holder::Literal) {
        let head = head(word);
        if !may_head(stack, top, head) {
            return false;
        }
        if top.comments == 0 && matches!(top.holder, Holder::List(_)) {
            set_top(
                stack,
                Frame { head, guarded: top.guarded || top.ticked && (head == Head::Quote || head == Head::Quasi), ..top },
            );
        }
        proof {
            assert(stack@ =~= with_top(old(stack)@, headed(top, head)));
        }
    }
    end_item(stack);
    true
}

/// Reads one token. Where it must not reach the parser, the answer is `false`.
fn read_token(stack: &mut Vec<Frame>, token: &Token) -> (out: bool)
    requires
        sane(old(stack)@),
    ensures
        match token_read(old(stack)@, token@) {
            Some(next) => out && final(stack)@ == next && sane(next),
            None => !out,
        },
{
    let top = stack[stack.len() - 1];
    match token {
        Token::Comment => true,
        Token::DatumComment => {
            let limit: u32 = match top.holder {
                Holder::List(_) | Holder::Literal => MAX_DATUM_COMMENTS,
                _ => u32::MAX,
            };
            if top.guarded || top.comments >= limit {
                return false;
            }
            set_top(stack, Frame { comments: top.comments + 1, ..top });
            true
        },
        Token::Dot => {
            if !matches!(top.holder, Holder::List(_)) {
                end_item(stack);
                return true;
            }
            let lowered = match top.head {
                Head::Plain | Head::Quasi | Head::Let => false,
                _ => true,
            };
            !(top.guarded || (lowered && !top.quoted))
        },
        Token::Open(text) => open_list(stack, top, Holder::List(bracket(text.as_str()))),
        Token::OpenLiteral => !top.guarded && open_list(stack, top, Holder::Literal),
        Token::Close(text) => close_list(stack, top, bracket(text.as_str())),
        Token::Quoting => open_tick(stack, top, Some(true)),
        Token::Unquoting => open_tick(stack, top, Some(false)),
        Token::Syntax => open_tick(stack, top, None),
        Token::Word(word) => read_word(stack, top, word.as_str()),
    }
}

/// Whether a source can be handed to the parser.
pub fn is_readable(source: &str) -> (out: bool)
    ensures
        out == readable(source@),
{
    if text_bytes(source) as u64 > u32::MAX as u64 {
        return false;
    }
    let top = Frame {
        holder: Holder::Top,
        head: Head::Plain,
        items: 0,
        comments: 0,
        names: false,
        quoted: false,
        ticked: false,
        guarded: false,
        level: 0,
        ticks: 0,
    };
    let mut stack: Vec<Frame> = vec![top];
    let tokens = tokenize(source);
    let ghost all = source_tokens(source@);
    let mut i: usize = 0;
    proof {
        assert(stack@ =~= seq![top_frame()]);
        assert(all.subrange(0, all.len() as int) =~= all);
    }
    while i < tokens.len()
        invariant
            i <= tokens@.len(),
            byte_length(source@) <= u32::MAX,
            sane(stack@),
            all == source_tokens(source@),
            all == token_views(tokens@),
            tokens_readable(stack@, all.subrange(i as int, all.len() as int)) == tokens_readable(seq![top_frame()], all),
        decreases tokens.len() - i,
    {
        proof {
            assert(all.subrange(i as int, all.len() as int).drop_first() =~= all.subrange(i + 1, all.len() as int));
        }
        match &tokens[i] {
            None => {
                return !stack[stack.len() - 1].guarded;
            },
            Some(token) => {
                if !read_token(&mut stack, token) {
                    return false;
                }
            },
        }
        i += 1;
    }
    !stack[stack.len() - 1].guarded
}

} // verus!
