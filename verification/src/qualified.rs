//! Qualified names: one identifier, or several joined by `::`, written as
//! tokens or inside a string literal.
//!
//! The tokens come from a `syn` parse stream, held in a `Tokens`. The contracts
//! speak of the tokens that stand ahead in the stream, each seen as far as a
//! path depends on it: an identifier with its text, a separator, a string
//! literal with the tokens inside it, or anything else.

use vstd::prelude::*;
use syn::ext::IdentExt;
use syn::parse::{ParseBuffer, ParseStream};
use syn::token::PathSep;
use syn::{Error, Ident, LitStr};

verus! {

/// `syn::Ident`: one identifier with its place in the source. Opaque.
#[verifier::external_type_specification]
#[verifier::external_body]
pub struct ExIdent(syn::Ident);

/// `syn::Error`: a message with the place in the source that it is about.
/// Opaque.
#[verifier::external_type_specification]
#[verifier::external_body]
pub struct ExError(syn::Error);

/// `syn::LitStr`: a string literal. Opaque.
#[verifier::external_type_specification]
#[verifier::external_body]
pub struct ExLitStr(syn::LitStr);

/// `syn::token::PathSep`: the token `::`. Opaque.
#[verifier::external_type_specification]
#[verifier::external_body]
pub struct ExPathSep(syn::token::PathSep);

/// One token of a stream, as far as a path depends on it.
pub enum Token {
    /// An identifier of any form, a keyword or a raw identifier too, with its
    /// text.
    Ident(Seq<char>),
    /// The separator `::`.
    Separator,
    /// A string literal, with the tokens that stand inside it; `None` where
    /// what it holds is no sequence of tokens, or where it carries a suffix.
    Literal(Option<Seq<Token>>),
    /// Anything else.
    Other,
}

/// A `syn` parse stream that is being read. The stream keeps its place inside
/// itself, so reading through a `Tokens` changes it: whoever reads a path owns
/// the `Tokens` for that time, and nothing else moves the stream meanwhile.
#[verifier::external_body]
pub struct Tokens<'a> {
    pub input: &'a ParseBuffer<'a>,
}

/// The tokens that stand ahead in the stream, the next one first.
pub uninterp spec fn ahead(tokens: Tokens) -> Seq<Token>;

/// The text of an identifier.
pub uninterp spec fn ident_text(ident: Ident) -> Seq<char>;

/// The tokens that stand inside a string literal; `None` where what it holds is
/// no sequence of tokens, or where it carries a suffix.
pub uninterp spec fn inside(literal: LitStr) -> Option<Seq<Token>>;

/// What is wrong with a sequence of segments.
#[derive(Clone, Copy, Debug, PartialEq, Eq, Structural)]
pub enum PathFault {
    /// There is no segment at all.
    Empty,
    /// A separator stands behind the last segment.
    TrailingSeparator,
}

/// A qualified name does not follow its grammar.
#[derive(Debug)]
pub struct MalformedPath {
    /// What is wrong, and the place in the source where it is wrong.
    pub error: Error,
}

/// A qualified name: its segments, in order. A name that was parsed has at
/// least one segment.
#[derive(Debug)]
pub struct QualifiedName {
    pub segments: Vec<Ident>,
}

/// The texts of identifiers, in order.
pub open spec fn texts(segments: Seq<Ident>) -> Seq<Seq<char>> {
    segments.map_values(|segment: Ident| ident_text(segment))
}

impl View for QualifiedName {
    type V = Seq<Seq<char>>;

    /// The texts of the segments, in order.
    open spec fn view(&self) -> Seq<Seq<char>> {
        texts(self.segments@)
    }
}

/// Whether an identifier stands at place `i` of `tokens`.
pub open spec fn ident_at(tokens: Seq<Token>, i: int) -> bool {
    0 <= i < tokens.len() && tokens[i] is Ident
}

/// Whether a separator stands at place `i` of `tokens`.
pub open spec fn separator_at(tokens: Seq<Token>, i: int) -> bool {
    0 <= i < tokens.len() && tokens[i] is Separator
}

/// The texts of the segments that are read from the front of `tokens`: of the
/// identifiers that stand there joined by separators.
pub open spec fn names_read(tokens: Seq<Token>) -> Seq<Seq<char>>
    decreases tokens.len(),
{
    if ident_at(tokens, 0) {
        seq![tokens[0]->Ident_0] + if separator_at(tokens, 1) {
            names_read(tokens.skip(2))
        } else {
            Seq::empty()
        }
    } else {
        Seq::empty()
    }
}

/// How many tokens are read from the front of `tokens`: the identifiers and the
/// separator behind each, for as long as an identifier follows a separator.
pub open spec fn tokens_read(tokens: Seq<Token>) -> int
    decreases tokens.len(),
{
    if ident_at(tokens, 0) {
        if separator_at(tokens, 1) {
            2 + tokens_read(tokens.skip(2))
        } else {
            1
        }
    } else {
        0
    }
}

/// Whether no path stands at the front of `tokens`: no identifier is first, or
/// a separator is read with no identifier behind it.
pub open spec fn malformed(tokens: Seq<Token>) -> bool
    decreases tokens.len(),
{
    if ident_at(tokens, 0) {
        if separator_at(tokens, 1) {
            malformed(tokens.skip(2))
        } else {
            false
        }
    } else {
        true
    }
}

/// The path at the front of `tokens`: the texts of its segments, or `None`
/// where the tokens are malformed.
pub open spec fn path_read(tokens: Seq<Token>) -> Option<Seq<Seq<char>>> {
    if malformed(tokens) {
        None
    } else {
        Some(names_read(tokens))
    }
}

/// The path that is all of what a string literal holds: the texts of its
/// segments; `None` where what the literal holds is no sequence of tokens, is
/// malformed, or holds more than the path.
pub open spec fn path_inside(literal: Option<Seq<Token>>) -> Option<Seq<Seq<char>>> {
    match literal {
        Some(inner) => if !malformed(inner) && tokens_read(inner) == inner.len() {
            Some(names_read(inner))
        } else {
            None
        },
        None => None,
    }
}

/// Whether a string literal is the next of `tokens`.
pub open spec fn literal_ahead(tokens: Seq<Token>) -> bool {
    tokens.len() > 0 && tokens[0] is Literal
}

/// What a parse gave: the texts of the segments of the name, or `None` for an
/// error.
pub open spec fn names_of(r: Result<QualifiedName, MalformedPath>) -> Option<Seq<Seq<char>>> {
    match r {
        Ok(name) => Some(name@),
        Err(_) => None,
    }
}

/// What is read never runs past the end of the tokens.
pub proof fn lemma_tokens_read_bound(tokens: Seq<Token>)
    ensures
        0 <= tokens_read(tokens) <= tokens.len(),
    decreases tokens.len(),
{
    if ident_at(tokens, 0) && separator_at(tokens, 1) {
        lemma_tokens_read_bound(tokens.skip(2));
    }
}

/// Whether an identifier stands where segment `k` of a path at the front of
/// `tokens` stands: at place `2k`.
pub open spec fn segment_at(tokens: Seq<Token>, k: int) -> bool {
    ident_at(tokens, 2 * k)
}

/// Whether a separator stands directly behind the place of segment `k`: at
/// place `2k + 1`.
pub open spec fn joined_at(tokens: Seq<Token>, k: int) -> bool {
    separator_at(tokens, 2 * k + 1)
}

/// How many segments are read from the front of `tokens`.
pub open spec fn segments_read(tokens: Seq<Token>) -> int {
    names_read(tokens).len() as int
}

/// What is read from the front of `tokens`, said directly. With `n` the number
/// of segments: identifiers stand at the even places below `2n`, with the texts
/// of the segments, and separators at the odd places between them. The tokens
/// are malformed exactly when there is no segment or a separator stands behind
/// the last one; then that separator is read too, and no identifier stands
/// behind it.
pub proof fn lemma_read_is_a_path(tokens: Seq<Token>)
    ensures
        forall|k: int|
            0 <= k < segments_read(tokens) ==> #[trigger] segment_at(tokens, k) && names_read(
                tokens,
            )[k] == tokens[2 * k]->Ident_0,
        forall|k: int| 0 <= k < segments_read(tokens) - 1 ==> #[trigger] joined_at(tokens, k),
        malformed(tokens) <==> segments_read(tokens) == 0 || joined_at(
            tokens,
            segments_read(tokens) - 1,
        ),
        malformed(tokens) ==> tokens_read(tokens) == 2 * segments_read(tokens) && !segment_at(
            tokens,
            segments_read(tokens),
        ),
        !malformed(tokens) ==> tokens_read(tokens) == 2 * segments_read(tokens) - 1,
    decreases tokens.len(),
{
    if ident_at(tokens, 0) && separator_at(tokens, 1) {
        let rest = tokens.skip(2);
        let n = segments_read(tokens);
        let m = segments_read(rest);
        lemma_read_is_a_path(rest);
        assert(names_read(tokens) == seq![tokens[0]->Ident_0] + names_read(rest));
        assert(n == m + 1);
        assert forall|k: int| 0 <= k < n implies #[trigger] segment_at(tokens, k) && names_read(
            tokens,
        )[k] == tokens[2 * k]->Ident_0 by {
            if k > 0 {
                assert(segment_at(rest, k - 1));
                assert(rest[2 * (k - 1)] == tokens[2 * k]);
                assert(names_read(tokens)[k] == names_read(rest)[k - 1]);
            }
        }
        assert forall|k: int| 0 <= k < n - 1 implies #[trigger] joined_at(tokens, k) by {
            if k > 0 {
                assert(joined_at(rest, k - 1));
                assert(rest[2 * (k - 1) + 1] == tokens[2 * k + 1]);
            }
        }
        if m > 0 {
            assert(joined_at(rest, m - 1) == joined_at(tokens, n - 1)) by {
                if 2 * n - 1 < tokens.len() {
                    assert(rest[2 * m - 1] == tokens[2 * n - 1]);
                }
            }
        }
        assert(segment_at(rest, m) == segment_at(tokens, n)) by {
            if 2 * n < tokens.len() {
                assert(rest[2 * m] == tokens[2 * n]);
            }
        }
    } else if ident_at(tokens, 0) {
        assert(names_read(tokens) =~= seq![tokens[0]->Ident_0]);
    }
}

/// A path inside a string literal and the same path written as tokens give the
/// same segments: where all of what a literal holds is a path, it is the path
/// that is read from those tokens; where the tokens inside are malformed, the
/// literal gives no path either.
pub proof fn lemma_quoted_is_unquoted(inner: Seq<Token>)
    ensures
        path_inside(Some(inner)) is Some ==> path_inside(Some(inner)) == path_read(inner),
        path_read(inner) is None ==> path_inside(Some(inner)) is None,
{
}

/// Three identifiers joined by separators are a path of those three segments,
/// in order, as tokens and inside a string literal, and all five tokens are
/// read.
pub proof fn lemma_three_segments(a: Seq<char>, b: Seq<char>, c: Seq<char>)
    ensures
        ({
            let tokens = seq![
                Token::Ident(a),
                Token::Separator,
                Token::Ident(b),
                Token::Separator,
                Token::Ident(c),
            ];
            &&& path_read(tokens) == Some(seq![a, b, c])
            &&& tokens_read(tokens) == 5
            &&& path_inside(Some(tokens)) == Some(seq![a, b, c])
        }),
{
    let tokens = seq![
        Token::Ident(a),
        Token::Separator,
        Token::Ident(b),
        Token::Separator,
        Token::Ident(c),
    ];
    let two = seq![Token::Ident(b), Token::Separator, Token::Ident(c)];
    let one = seq![Token::Ident(c)];
    assert(tokens.skip(2) =~= two);
    assert(two.skip(2) =~= one);
    assert(!malformed(one) && tokens_read(one) == 1 && names_read(one) =~= seq![c]);
    assert(!malformed(two) && tokens_read(two) == 3 && names_read(two) =~= seq![b, c]);
    assert(!malformed(tokens) && tokens_read(tokens) == 5 && names_read(tokens) =~= seq![a, b, c]);
}

/// A separator with no identifier behind it is malformed, as tokens and inside
/// a string literal: at the end of the tokens, and before a token that is no
/// identifier.
pub proof fn lemma_trailing_separator(a: Seq<char>, next: Token)
    requires
        !(next is Ident),
    ensures
        path_read(seq![Token::Ident(a), Token::Separator]) is None,
        path_inside(Some(seq![Token::Ident(a), Token::Separator])) is None,
        path_read(seq![Token::Ident(a), Token::Separator, next]) is None,
        path_inside(Some(seq![Token::Ident(a), Token::Separator, next])) is None,
{
    let short = seq![Token::Ident(a), Token::Separator];
    let long = seq![Token::Ident(a), Token::Separator, next];
    assert(short.skip(2) =~= Seq::<Token>::empty());
    assert(long.skip(2) =~= seq![next]);
    assert(malformed(short.skip(2)));
    assert(malformed(long.skip(2)));
}

/// Tokens that do not begin with an identifier are malformed and nothing of
/// them is read; so no tokens at all, and an empty string literal, give no
/// path.
pub proof fn lemma_no_segment(tokens: Seq<Token>)
    requires
        !ident_at(tokens, 0),
    ensures
        path_read(tokens) is None,
        tokens_read(tokens) == 0,
        path_inside(Some(tokens)) is None,
        path_read(Seq::<Token>::empty()) is None,
        path_inside(Some(Seq::<Token>::empty())) is None,
{
}

/// One identifier with no separator behind it is a path of one segment, and
/// what stands behind it stays.
pub proof fn lemma_one_segment(tokens: Seq<Token>)
    requires
        ident_at(tokens, 0),
        !separator_at(tokens, 1),
    ensures
        path_read(tokens) == Some(seq![tokens[0]->Ident_0]),
        tokens_read(tokens) == 1,
{
    assert(names_read(tokens) =~= seq![tokens[0]->Ident_0]);
}

/// `ParseBuffer::peek` of `syn`, asked with `Ident::peek_any`: whether an
/// identifier, a keyword or a raw identifier included, is the next token. The
/// stream is left where it was.
#[verifier::external_body]
fn peek_ident(tokens: &Tokens) -> (r: bool)
    ensures
        r == ident_at(ahead(*tokens), 0),
{
    tokens.input.peek(Ident::peek_any)
}

/// `Ident::parse_any` of `syn`: takes the next token from the stream exactly
/// when it is an identifier of any form, and hands it out; otherwise the stream
/// is left where it was.
#[verifier::external_body]
fn parse_ident(tokens: &mut Tokens) -> (r: Result<Ident, Error>)
    ensures
        r is Ok <==> ident_at(ahead(*old(tokens)), 0),
        r matches Ok(ident) ==> ahead(*old(tokens))[0] == Token::Ident(ident_text(ident)),
        r is Ok ==> ahead(*final(tokens)) == ahead(*old(tokens)).skip(1),
        r is Err ==> ahead(*final(tokens)) == ahead(*old(tokens)),
{
    Ident::parse_any(tokens.input)
}

/// `ParseBuffer::parse` of `syn`, for an optional `::`: never fails; takes the
/// separator from the stream exactly when it is the next token, and otherwise
/// leaves the stream where it was.
#[verifier::external_body]
fn parse_separator(tokens: &mut Tokens) -> (r: Result<Option<PathSep>, Error>)
    ensures
        r is Ok,
        r matches Ok(separator) ==> (separator is Some <==> separator_at(ahead(*old(tokens)), 0)),
        r matches Ok(Some(_)) ==> ahead(*final(tokens)) == ahead(*old(tokens)).skip(1),
        r matches Ok(None) ==> ahead(*final(tokens)) == ahead(*old(tokens)),
{
    tokens.input.parse()
}

/// `ParseBuffer::error` of `syn`: an error with `message`, at the place where
/// the stream stands. Nothing is claimed of the result.
#[verifier::external_body]
fn error_at(tokens: &Tokens, message: &str) -> Error {
    tokens.input.error(message)
}

/// `ParseBuffer::peek` of `syn`, asked with `LitStr`: whether a string literal
/// is the next token. The stream is left where it was.
#[verifier::external_body]
fn peek_literal(tokens: &Tokens) -> (r: bool)
    ensures
        r == literal_ahead(ahead(*tokens)),
{
    tokens.input.peek(LitStr)
}

/// `ParseBuffer::parse` of `syn`, for a string literal: succeeds exactly when a
/// string literal is the next token, and then takes it from the stream and
/// hands it out. Nothing is claimed of the stream after a failure.
#[verifier::external_body]
fn parse_literal(tokens: &mut Tokens) -> (r: Result<LitStr, Error>)
    ensures
        r is Ok <==> literal_ahead(ahead(*old(tokens))),
        r matches Ok(literal) ==> ahead(*old(tokens))[0] == Token::Literal(inside(literal)),
        r is Ok ==> ahead(*final(tokens)) == ahead(*old(tokens)).skip(1),
{
    tokens.input.parse()
}

/// `LitStr::parse_with` of `syn`, handed `parse_unquoted`: turns what the
/// literal holds into tokens, runs `parse_unquoted` on them, and fails where
/// that fails, where a token is left over, or where the literal has a suffix.
/// What it returns on success is what `parse_unquoted` returned. So it succeeds
/// exactly when the tokens inside are a whole path, with the segments of that
/// path.
#[verifier::external_body]
fn parse_inside(literal: &LitStr) -> (r: Result<QualifiedName, Error>)
    ensures
        r is Ok <==> path_inside(inside(*literal)) is Some,
        r matches Ok(name) ==> Some(name@) == path_inside(inside(*literal)),
{
    literal.parse_with(
        |input: ParseStream|
            QualifiedName::parse_unquoted(&mut Tokens { input }).map_err(|fault| fault.error),
    )
}

/// `Ident::to_string`: the text of an identifier.
#[verifier::external_body]
fn text_of(ident: &Ident) -> (text: String)
    ensures
        text@ == ident_text(*ident),
{
    ident.to_string()
}

impl PathFault {
    /// The message that reports the fault.
    pub fn message(self) -> (message: &'static str)
        ensures
            message@ == match self {
                PathFault::Empty => "expected path"@,
                PathFault::TrailingSeparator => "expected path segment"@,
            },
    {
        match self {
            PathFault::Empty => "expected path",
            PathFault::TrailingSeparator => "expected path segment",
        }
    }
}

impl QualifiedName {
    /// Whether the name has at least one segment.
    pub open spec fn well_formed(&self) -> bool {
        self.segments@.len() >= 1
    }

    /// The texts of the segments, in order.
    pub fn names(&self) -> (names: Vec<String>)
        ensures
            names@.map_values(|name: String| name@) == self@,
    {
        let mut names: Vec<String> = Vec::new();
        let mut i: usize = 0;
        while i < self.segments.len()
            invariant
                i <= self.segments@.len(),
                names@.map_values(|name: String| name@) == texts(self.segments@.take(i as int)),
            decreases self.segments@.len() - i,
        {
            let ghost before = names@;
            names.push(text_of(&self.segments[i]));
            i += 1;
            proof {
                assert(self.segments@.take(i as int) =~= self.segments@.take(i - 1).push(
                    self.segments@[i - 1],
                ));
                assert(names@.map_values(|name: String| name@) =~= before.map_values(
                    |name: String| name@,
                ).push(ident_text(self.segments@[i - 1])));
                assert(texts(self.segments@.take(i as int)) =~= texts(
                    self.segments@.take(i - 1),
                ).push(ident_text(self.segments@[i - 1])));
            }
        }
        assert(self.segments@.take(i as int) =~= self.segments@);
        names
    }

    /// The name made of `segments`, where `trailing_separator` says whether a
    /// separator was read behind the last of them. No segments are a fault, and
    /// so is a separator with no segment behind it.
    pub fn from_segments(segments: Vec<Ident>, trailing_separator: bool) -> (r: Result<
        QualifiedName,
        PathFault,
    >)
        ensures
            segments@.len() == 0 ==> r == Err::<QualifiedName, PathFault>(PathFault::Empty),
            segments@.len() > 0 && trailing_separator ==> r == Err::<QualifiedName, PathFault>(
                PathFault::TrailingSeparator,
            ),
            segments@.len() > 0 && !trailing_separator ==> r == Ok::<QualifiedName, PathFault>(
                QualifiedName { segments },
            ),
    {
        if segments.len() == 0 {
            Err(PathFault::Empty)
        } else if trailing_separator {
            Err(PathFault::TrailingSeparator)
        } else {
            Ok(QualifiedName { segments })
        }
    }

    /// Reads a qualified name from `tokens`: identifiers, a separator between
    /// each two, for as long as they come. Identifiers of every form count,
    /// keywords and raw identifiers too.
    ///
    /// The name that comes back has the identifiers that were read as its
    /// segments, in order. An error comes back exactly when no identifier is
    /// next, or when a separator was read with no identifier behind it. Either
    /// way exactly what was read is taken from the stream: the tokens behind a
    /// path stay.
    pub fn parse_unquoted(tokens: &mut Tokens) -> (r: Result<QualifiedName, MalformedPath>)
        ensures
            names_of(r) == path_read(ahead(*old(tokens))),
            ahead(*final(tokens)) == ahead(*old(tokens)).skip(tokens_read(ahead(*old(tokens)))),
            r matches Ok(name) ==> name.well_formed(),
    {
        let ghost start = ahead(*tokens);
        let mut segments: Vec<Ident> = Vec::new();
        let mut trailing_separator = true;
        proof {
            lemma_tokens_read_bound(start);
            assert(texts(segments@) + names_read(start) =~= names_read(start));
        }
        while trailing_separator && peek_ident(tokens)
            invariant
                trailing_separator ==> {
                    &&& malformed(start) == malformed(ahead(*tokens))
                    &&& names_read(start) == texts(segments@) + names_read(ahead(*tokens))
                    &&& start.skip(tokens_read(start)) == ahead(*tokens).skip(
                        tokens_read(ahead(*tokens)),
                    )
                },
                !trailing_separator ==> {
                    &&& !malformed(start)
                    &&& names_read(start) == texts(segments@)
                    &&& start.skip(tokens_read(start)) == ahead(*tokens)
                    &&& segments@.len() > 0
                },
            decreases ahead(*tokens).len(),
        {
            let ghost before = ahead(*tokens);
            let ghost read = segments@;
            match parse_ident(tokens) {
                Ok(segment) => segments.push(segment),
                Err(error) => {
                    return Err(MalformedPath { error });
                },
            }
            match parse_separator(tokens) {
                Ok(separator) => trailing_separator = separator.is_some(),
                Err(error) => {
                    return Err(MalformedPath { error });
                },
            }
            proof {
                let rest = before.skip(2);
                if before.len() > 1 {
                    assert(before.skip(1)[0] == before[1]);
                }
                assert(separator_at(before.skip(1), 0) == separator_at(before, 1));
                assert(texts(segments@) =~= texts(read) + seq![before[0]->Ident_0]);
                if trailing_separator {
                    assert(before.skip(1).skip(1) =~= rest);
                    lemma_tokens_read_bound(rest);
                    assert(before.skip(2 + tokens_read(rest)) =~= rest.skip(tokens_read(rest)));
                    assert(names_read(start) =~= texts(segments@) + names_read(rest));
                } else {
                    assert(names_read(before) =~= seq![before[0]->Ident_0]);
                    assert(names_read(start) =~= texts(segments@));
                }
            }
        }
        proof {
            if trailing_separator {
                assert(ahead(*tokens).skip(0) =~= ahead(*tokens));
                assert(names_read(start) =~= texts(segments@));
            }
        }
        match QualifiedName::from_segments(segments, trailing_separator) {
            Ok(name) => Ok(name),
            Err(fault) => Err(MalformedPath { error: error_at(tokens, fault.message()) }),
        }
    }

    /// Reads a qualified name that may stand in a string literal.
    ///
    /// If a string literal is the next token, the literal is taken from the
    /// stream, and the name is the path that is all of what the literal holds;
    /// an error comes back where that is no path, or more than a path.
    /// Otherwise this is `parse_unquoted`.
    pub fn parse_quoted_or_unquoted(tokens: &mut Tokens) -> (r: Result<
        QualifiedName,
        MalformedPath,
    >)
        ensures
            literal_ahead(ahead(*old(tokens))) ==> {
                &&& names_of(r) == path_inside(ahead(*old(tokens))[0]->Literal_0)
                &&& ahead(*final(tokens)) == ahead(*old(tokens)).skip(1)
            },
            !literal_ahead(ahead(*old(tokens))) ==> {
                &&& names_of(r) == path_read(ahead(*old(tokens)))
                &&& ahead(*final(tokens)) == ahead(*old(tokens)).skip(
                    tokens_read(ahead(*old(tokens))),
                )
            },
            r matches Ok(name) ==> name.well_formed(),
    {
        if peek_literal(tokens) {
            match parse_literal(tokens) {
                Ok(literal) => match parse_inside(&literal) {
                    Ok(name) => {
                        proof {
                            lemma_read_is_a_path(inside(literal).unwrap());
                        }
                        Ok(name)
                    },
                    Err(error) => Err(MalformedPath { error }),
                },
                Err(error) => Err(MalformedPath { error }),
            }
        } else {
            QualifiedName::parse_unquoted(tokens)
        }
    }
}

} // verus!
