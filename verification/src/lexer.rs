//! Tokens: the source text cut into names and punctuation.

use vstd::prelude::*;
use vstd::std_specs::iter::IteratorSpec;
use vstd::string::*;
use crate::error::{GrammarError, GrammarErrorKind};

verus! {

/// What a token is.
#[derive(Debug, PartialEq, Eq)]
pub enum TokenKind {
    /// A name.
    Ident(String),
    /// `{`
    OpenBrace,
    /// `}`
    CloseBrace,
    /// `,`
    Comma,
    /// `=>`
    Arrow,
}

/// What a `TokenKind` stands for.
pub enum KindView {
    Ident(Seq<char>),
    OpenBrace,
    CloseBrace,
    Comma,
    Arrow,
}

impl View for TokenKind {
    type V = KindView;

    open spec fn view(&self) -> KindView {
        match self {
            TokenKind::Ident(name) => KindView::Ident(name@),
            TokenKind::OpenBrace => KindView::OpenBrace,
            TokenKind::CloseBrace => KindView::CloseBrace,
            TokenKind::Comma => KindView::Comma,
            TokenKind::Arrow => KindView::Arrow,
        }
    }
}

/// A token and its place in the text, in characters from the start, `start`
/// included and `end` excluded.
#[derive(Debug, PartialEq, Eq)]
pub struct Token {
    pub kind: TokenKind,
    pub start: usize,
    pub end: usize,
}

/// What a `Token` stands for.
pub struct TokenView {
    pub kind: KindView,
    pub start: usize,
    pub end: usize,
}

impl View for Token {
    type V = TokenView;

    open spec fn view(&self) -> TokenView {
        TokenView { kind: self.kind@, start: self.start, end: self.end }
    }
}

/// What a list of tokens stands for.
pub open spec fn token_views(tokens: Seq<Token>) -> Seq<TokenView> {
    tokens.map_values(|t: Token| t@)
}

/// Whether `c` separates tokens without being one.
pub open spec fn is_space(c: char) -> bool {
    c == ' ' || c == '\t' || c == '\n' || c == '\r'
}

/// Whether a name may begin with `c`.
pub open spec fn is_name_start(c: char) -> bool {
    ('a' <= c && c <= 'z') || ('A' <= c && c <= 'Z') || c == '_'
}

/// Whether a name may go on with `c`.
pub open spec fn is_name_part(c: char) -> bool {
    is_name_start(c) || ('0' <= c && c <= '9')
}

/// The place where the run of name characters that holds `pos` ends.
pub open spec fn name_end(text: Seq<char>, pos: int) -> int
    decreases text.len() - pos,
{
    if 0 <= pos < text.len() && is_name_part(text[pos]) {
        name_end(text, pos + 1)
    } else {
        pos
    }
}

/// What stands at a place in the text.
pub enum Scan {
    /// Space: the text goes on at `next`.
    Space { next: int },
    /// A token, after which the text goes on at `next`.
    Token { token: TokenView, next: int },
    /// A character that begins no token.
    Bad,
}

/// What stands at `pos`, a place inside the text.
pub open spec fn scan(text: Seq<char>, pos: int) -> Scan {
    let c = text[pos];
    if is_space(c) {
        Scan::Space { next: pos + 1 }
    } else if c == '{' {
        Scan::Token { token: punctuation(KindView::OpenBrace, pos, 1), next: pos + 1 }
    } else if c == '}' {
        Scan::Token { token: punctuation(KindView::CloseBrace, pos, 1), next: pos + 1 }
    } else if c == ',' {
        Scan::Token { token: punctuation(KindView::Comma, pos, 1), next: pos + 1 }
    } else if c == '=' && pos + 1 < text.len() && text[pos + 1] == '>' {
        Scan::Token { token: punctuation(KindView::Arrow, pos, 2), next: pos + 2 }
    } else if is_name_start(c) {
        let end = name_end(text, pos + 1);
        Scan::Token {
            token: TokenView {
                kind: KindView::Ident(text.subrange(pos, end)),
                start: pos as usize,
                end: end as usize,
            },
            next: end,
        }
    } else {
        Scan::Bad
    }
}

/// The token of the given kind that begins at `pos` and is `len` characters
/// long.
pub open spec fn punctuation(kind: KindView, pos: int, len: int) -> TokenView {
    TokenView { kind, start: pos as usize, end: (pos + len) as usize }
}

/// The error for the character at `pos`.
pub open spec fn bad_character(pos: int) -> GrammarError {
    GrammarError {
        kind: GrammarErrorKind::UnexpectedCharacter,
        start: pos as usize,
        end: (pos + 1) as usize,
    }
}

/// The tokens `found` so far, followed by those of the text from `pos` on;
/// or the error for the first character from `pos` on that begins no token.
pub open spec fn lex_from(text: Seq<char>, pos: int, found: Seq<TokenView>) -> Result<
    Seq<TokenView>,
    GrammarError,
>
    decreases text.len() - pos,
{
    if pos < 0 || pos >= text.len() {
        Ok(found)
    } else {
        proof {
            lemma_name_end_bounds(text, pos + 1);
        }
        match scan(text, pos) {
            Scan::Space { next } => lex_from(text, next, found),
            Scan::Token { token, next } => lex_from(text, next, found.push(token)),
            Scan::Bad => Err(bad_character(pos)),
        }
    }
}

/// The tokens of the text: names, made of ASCII letters, digits and `_` and
/// not beginning with a digit, and the marks `{`, `}`, `,` and `=>`. Spaces,
/// tabs and line ends separate tokens and are otherwise ignored.
pub open spec fn tokens_of(text: Seq<char>) -> Result<Seq<TokenView>, GrammarError> {
    lex_from(text, 0, Seq::empty())
}

/// A run of name characters ends inside the text, at or after its start.
pub proof fn lemma_name_end_bounds(text: Seq<char>, pos: int)
    requires
        0 <= pos <= text.len(),
    ensures
        pos <= name_end(text, pos) <= text.len(),
        forall|k: int| pos <= k < name_end(text, pos) ==> is_name_part(#[trigger] text[k]),
        name_end(text, pos) < text.len() ==> !is_name_part(text[name_end(text, pos)]),
    decreases text.len() - pos,
{
    if pos < text.len() && is_name_part(text[pos]) {
        lemma_name_end_bounds(text, pos + 1);
    }
}

/// How a token of the given kind is written.
pub open spec fn spelling(kind: KindView) -> Seq<char> {
    match kind {
        KindView::Ident(name) => name,
        KindView::OpenBrace => seq!['{'],
        KindView::CloseBrace => seq!['}'],
        KindView::Comma => seq![','],
        KindView::Arrow => seq!['=', '>'],
    }
}

/// Whether the token stands in the text as it is written: at its place the
/// text holds its spelling, and a name is as long as it can be.
pub open spec fn well_spelled(text: Seq<char>, token: TokenView) -> bool {
    &&& token.start < token.end <= text.len()
    &&& text.subrange(token.start as int, token.end as int) == spelling(token.kind)
    &&& token.kind is Ident ==> {
        &&& is_name_start(text[token.start as int])
        &&& forall|p: int| token.start <= p < token.end ==> is_name_part(#[trigger] text[p])
        &&& token.end < text.len() ==> !is_name_part(text[token.end as int])
    }
}

/// The place behind the token before the `k`-th, or the start of the text
/// for the first.
pub open spec fn gap_start(tokens: Seq<TokenView>, k: int) -> int {
    if k <= 0 {
        0
    } else {
        tokens[k - 1].end as int
    }
}

/// Whether `tokens` are the tokens of the text up to `pos`: each stands in
/// the text as it is written, they follow each other in the order of the
/// text, and whatever stands before `pos` between them is space.
pub open spec fn lexed_up_to(text: Seq<char>, pos: int, tokens: Seq<TokenView>) -> bool {
    &&& 0 <= pos <= text.len()
    &&& forall|k: int|
        0 <= k < tokens.len() ==> {
            &&& well_spelled(text, #[trigger] tokens[k])
            &&& gap_start(tokens, k) <= tokens[k].start
            &&& forall|p: int|
                gap_start(tokens, k) <= p < tokens[k].start ==> is_space(#[trigger] text[p])
        }
    &&& gap_start(tokens, tokens.len() as int) <= pos
    &&& forall|p: int|
        gap_start(tokens, tokens.len() as int) <= p < pos ==> is_space(#[trigger] text[p])
}

/// Cutting goes on as it began: where `found` are the tokens of the text up
/// to `pos`, the result of cutting the rest are the tokens of the whole
/// text; or, where it fails, the error is for a character that begins no
/// token, and the tokens `before` are those of the text up to it.
pub proof fn lemma_lex_from_spelled(text: Seq<char>, pos: int, found: Seq<TokenView>) -> (before:
    Seq<TokenView>)
    requires
        text.len() <= usize::MAX,
        lexed_up_to(text, pos, found),
    ensures
        match lex_from(text, pos, found) {
            Ok(tokens) => lexed_up_to(text, text.len() as int, tokens),
            Err(error) => {
                &&& pos <= error.start < text.len()
                &&& error == bad_character(error.start as int)
                &&& scan(text, error.start as int) is Bad
                &&& lexed_up_to(text, error.start as int, before)
            },
        },
    decreases text.len() - pos,
{
    if pos >= text.len() {
        found
    } else {
        lemma_name_end_bounds(text, pos + 1);
        match scan(text, pos) {
            Scan::Space { next } => lemma_lex_from_spelled(text, next, found),
            Scan::Token { token, next } => {
                let longer = found.push(token);
                assert(text.subrange(token.start as int, token.end as int) =~= spelling(
                    token.kind,
                ));
                assert(well_spelled(text, token));
                assert forall|k: int| 0 <= k < longer.len() implies {
                    &&& well_spelled(text, #[trigger] longer[k])
                    &&& gap_start(longer, k) <= longer[k].start
                    &&& forall|p: int|
                        gap_start(longer, k) <= p < longer[k].start ==> is_space(
                            #[trigger] text[p],
                        )
                } by {
                    if k < found.len() {
                        assert(longer[k] == found[k]);
                        assert(gap_start(longer, k) == gap_start(found, k));
                    } else {
                        assert(gap_start(longer, k) == gap_start(found, found.len() as int));
                    }
                }
                assert(gap_start(longer, longer.len() as int) == next);
                lemma_lex_from_spelled(text, next, longer)
            },
            Scan::Bad => found,
        }
    }
}

/// The tokens of a text are its tokens: each stands in the text as it is
/// written, they follow each other in the order of the text, and whatever
/// stands between them is space. Where the text cannot be cut, the error is
/// for the first character that begins no token.
pub proof fn lemma_tokens_spelled(text: Seq<char>) -> (before: Seq<TokenView>)
    requires
        text.len() <= usize::MAX,
    ensures
        match tokens_of(text) {
            Ok(tokens) => lexed_up_to(text, text.len() as int, tokens),
            Err(error) => {
                &&& error.start < text.len()
                &&& error == bad_character(error.start as int)
                &&& scan(text, error.start as int) is Bad
                &&& lexed_up_to(text, error.start as int, before)
            },
        },
{
    lemma_lex_from_spelled(text, 0, Seq::empty())
}

/// The characters of `source`, one by one.
pub fn characters(source: &str) -> (chars: Vec<char>)
    ensures
        chars@ == source@,
{
    broadcast use vstd::string::group_string_axioms;

    let mut chars: Vec<char> = Vec::new();
    let mut rest = source.chars();
    loop
        invariant
            chars@ + rest.remaining() == source@,
            rest.obeys_prophetic_iter_laws(),
        decreases source@.len() - chars@.len(),
    {
        match rest.next() {
            Some(c) => {
                chars.push(c);
                assert(chars@ + rest.remaining() =~= source@);
            },
            None => {
                assert(chars@ =~= source@);
                return chars;
            },
        }
    }
}

/// Whether `c` is space between tokens.
fn space(c: char) -> (yes: bool)
    ensures
        yes == is_space(c),
{
    c == ' ' || c == '\t' || c == '\n' || c == '\r'
}

/// Whether a name may begin with `c`.
fn name_start(c: char) -> (yes: bool)
    ensures
        yes == is_name_start(c),
{
    ('a' <= c && c <= 'z') || ('A' <= c && c <= 'Z') || c == '_'
}

/// Whether a name may go on with `c`.
fn name_part(c: char) -> (yes: bool)
    ensures
        yes == is_name_part(c),
{
    name_start(c) || ('0' <= c && c <= '9')
}

/// The place where the run of name characters that holds `pos` ends.
fn find_name_end(chars: &Vec<char>, pos: usize) -> (end: usize)
    requires
        pos <= chars@.len(),
    ensures
        end == name_end(chars@, pos as int),
        pos <= end <= chars@.len(),
{
    let mut end: usize = pos;
    while end < chars.len() && name_part(chars[end])
        invariant
            pos <= end <= chars@.len(),
            name_end(chars@, end as int) == name_end(chars@, pos as int),
        decreases chars@.len() - end,
    {
        end += 1;
    }
    end
}

/// Cuts the source text into tokens. Fails at the first character that
/// begins no token.
pub fn lex(source: &str) -> (result: Result<Vec<Token>, GrammarError>)
    ensures
        match result {
            Ok(tokens) => tokens_of(source@) == Ok::<Seq<TokenView>, GrammarError>(
                token_views(tokens@),
            ),
            Err(error) => tokens_of(source@) == Err::<Seq<TokenView>, GrammarError>(error),
        },
{
    let chars = characters(source);
    let n = chars.len();
    let mut tokens: Vec<Token> = Vec::new();
    let mut pos: usize = 0;
    assert(token_views(tokens@) =~= Seq::empty());
    while pos < n
        invariant
            pos <= n,
            n == chars@.len(),
            chars@ == source@,
            lex_from(source@, pos as int, token_views(tokens@)) == tokens_of(source@),
        decreases n - pos,
    {
        let c = chars[pos];
        let ghost found = token_views(tokens@);
        if space(c) {
            pos += 1;
        } else if c == '{' {
            tokens.push(Token { kind: TokenKind::OpenBrace, start: pos, end: pos + 1 });
            assert(token_views(tokens@) =~= found.push(punctuation(KindView::OpenBrace, pos as int, 1)));
            pos += 1;
        } else if c == '}' {
            tokens.push(Token { kind: TokenKind::CloseBrace, start: pos, end: pos + 1 });
            assert(token_views(tokens@) =~= found.push(punctuation(KindView::CloseBrace, pos as int, 1)));
            pos += 1;
        } else if c == ',' {
            tokens.push(Token { kind: TokenKind::Comma, start: pos, end: pos + 1 });
            assert(token_views(tokens@) =~= found.push(punctuation(KindView::Comma, pos as int, 1)));
            pos += 1;
        } else if c == '=' && pos + 1 < n && chars[pos + 1] == '>' {
            tokens.push(Token { kind: TokenKind::Arrow, start: pos, end: pos + 2 });
            assert(token_views(tokens@) =~= found.push(punctuation(KindView::Arrow, pos as int, 2)));
            pos += 2;
        } else if name_start(c) {
            let end = find_name_end(&chars, pos + 1);
            let name = source.substring_char(pos, end).to_owned();
            tokens.push(Token { kind: TokenKind::Ident(name), start: pos, end });
            assert(token_views(tokens@) =~= found.push(
                TokenView {
                    kind: KindView::Ident(source@.subrange(pos as int, end as int)),
                    start: pos,
                    end,
                },
            ));
            pos = end;
        } else {
            return Err(
                GrammarError { kind: GrammarErrorKind::UnexpectedCharacter, start: pos, end: pos + 1 },
            );
        }
    }
    Ok(tokens)
}

} // verus!
