//! Lexical analysis: source text to classified tokens with byte spans.

use crate::text::{lemma_boundary_after_ascii, lemma_boundary_at, same_text, slice_text};
use std::ops::Range;
use vstd::prelude::*;
use vstd::string::{StringExecFns, StringSliceAdditionalSpecFns};
use vstd::utf8::{decode_utf8, encode_utf8_valid_utf8, valid_utf8};

verus! {

/// The class of a token. Literals and identifiers carry their text.
#[derive(Debug, Clone, PartialEq, Eq)]
pub enum TokenKind {
    Let,
    Cast,
    When,
    Else,
    Unsafe,
    Eq,
    Comma,
    Semi,
    LParen,
    RParen,
    LBrace,
    RBrace,
    /// A number literal, with its decimal text as written.
    Number(String),
    /// A string literal, with the text between its quotes, escapes left as
    /// written.
    StrLiteral(String),
    Ident(String),
    /// A comment. Comments are discarded, so no token of this class is
    /// ever produced.
    Comment,
    /// Text that matches no lexical rule.
    Error,
}

/// A token: its class and the byte range it covers in the source.
pub type Token = (TokenKind, Range<usize>);

/// The mathematical content of a [`TokenKind`].
pub enum TokenKindView {
    Let,
    Cast,
    When,
    Else,
    Unsafe,
    Eq,
    Comma,
    Semi,
    LParen,
    RParen,
    LBrace,
    RBrace,
    Number(Seq<char>),
    StrLiteral(Seq<char>),
    Ident(Seq<char>),
    Comment,
    Error,
}

impl View for TokenKind {
    type V = TokenKindView;

    open spec fn view(&self) -> TokenKindView {
        match self {
            TokenKind::Let => TokenKindView::Let,
            TokenKind::Cast => TokenKindView::Cast,
            TokenKind::When => TokenKindView::When,
            TokenKind::Else => TokenKindView::Else,
            TokenKind::Unsafe => TokenKindView::Unsafe,
            TokenKind::Eq => TokenKindView::Eq,
            TokenKind::Comma => TokenKindView::Comma,
            TokenKind::Semi => TokenKindView::Semi,
            TokenKind::LParen => TokenKindView::LParen,
            TokenKind::RParen => TokenKindView::RParen,
            TokenKind::LBrace => TokenKindView::LBrace,
            TokenKind::RBrace => TokenKindView::RBrace,
            TokenKind::Number(text) => TokenKindView::Number(text@),
            TokenKind::StrLiteral(text) => TokenKindView::StrLiteral(text@),
            TokenKind::Ident(name) => TokenKindView::Ident(name@),
            TokenKind::Comment => TokenKindView::Comment,
            TokenKind::Error => TokenKindView::Error,
        }
    }
}

impl TokenKindView {
    /// The name of the class, as it appears in diagnostics.
    pub open spec fn variant_name(self) -> Seq<char> {
        match self {
            TokenKindView::Let => "Let"@,
            TokenKindView::Cast => "Cast"@,
            TokenKindView::When => "When"@,
            TokenKindView::Else => "Else"@,
            TokenKindView::Unsafe => "Unsafe"@,
            TokenKindView::Eq => "Eq"@,
            TokenKindView::Comma => "Comma"@,
            TokenKindView::Semi => "Semi"@,
            TokenKindView::LParen => "LParen"@,
            TokenKindView::RParen => "RParen"@,
            TokenKindView::LBrace => "LBrace"@,
            TokenKindView::RBrace => "RBrace"@,
            TokenKindView::Number(_) => "Number"@,
            TokenKindView::StrLiteral(_) => "StrLiteral"@,
            TokenKindView::Ident(_) => "Ident"@,
            TokenKindView::Comment => "Comment"@,
            TokenKindView::Error => "Error"@,
        }
    }
}

impl TokenKind {
    /// The name of the class, as it appears in diagnostics.
    pub fn variant_name(&self) -> (name: &'static str)
        ensures
            name@ == self@.variant_name(),
    {
        match self {
            TokenKind::Let => "Let",
            TokenKind::Cast => "Cast",
            TokenKind::When => "When",
            TokenKind::Else => "Else",
            TokenKind::Unsafe => "Unsafe",
            TokenKind::Eq => "Eq",
            TokenKind::Comma => "Comma",
            TokenKind::Semi => "Semi",
            TokenKind::LParen => "LParen",
            TokenKind::RParen => "RParen",
            TokenKind::LBrace => "LBrace",
            TokenKind::RBrace => "RBrace",
            TokenKind::Number(_) => "Number",
            TokenKind::StrLiteral(_) => "StrLiteral",
            TokenKind::Ident(_) => "Ident",
            TokenKind::Comment => "Comment",
            TokenKind::Error => "Error",
        }
    }
}

/// The classes of a sequence of tokens, in order, without their spans.
pub open spec fn kinds(tokens: Seq<Token>) -> Seq<TokenKindView> {
    tokens.map_values(|t: Token| t.0@)
}

/// The mathematical content of a [`Token`].
pub struct TokenView {
    pub kind: TokenKindView,
    pub start: int,
    pub end: int,
}

/// The content of a token.
pub open spec fn token_view(token: Token) -> TokenView {
    TokenView { kind: token.0@, start: token.1.start as int, end: token.1.end as int }
}

/// The contents of a sequence of tokens, in order.
pub open spec fn token_views(tokens: Seq<Token>) -> Seq<TokenView> {
    tokens.map_values(|t: Token| token_view(t))
}

/// The classes of a sequence of token contents, in order.
pub open spec fn view_kinds(tokens: Seq<TokenView>) -> Seq<TokenKindView> {
    tokens.map_values(|t: TokenView| t.kind)
}

pub const QUOTE: u8 = 0x22;

pub const BACKSLASH: u8 = 0x5c;

pub const NEWLINE: u8 = 0x0a;

pub const HASH: u8 = 0x23;

pub const DOT: u8 = 0x2e;

/// A set of bytes that a run in the source is made of.
#[derive(Debug, Clone, Copy, PartialEq, Eq, Structural)]
pub enum ByteClass {
    /// Space, tab, newline and form feed.
    Space,
    /// The decimal digits.
    Digit,
    /// Letters, digits and the underscore.
    IdentPart,
    /// Every byte but the newline.
    CommentBody,
    /// The bytes that continue a character of several bytes.
    Continuation,
}

/// Whether the byte can start an identifier: a letter or the underscore.
pub open spec fn is_ident_start(b: u8) -> bool {
    (0x41 <= b <= 0x5a) || (0x61 <= b <= 0x7a) || b == 0x5f
}

/// Tests whether the byte can start an identifier.
pub fn starts_ident(b: u8) -> (r: bool)
    ensures
        r == is_ident_start(b),
{
    (0x41 <= b && b <= 0x5a) || (0x61 <= b && b <= 0x7a) || b == 0x5f
}

impl ByteClass {
    /// Whether the byte belongs to the class.
    pub open spec fn holds(self, b: u8) -> bool {
        match self {
            ByteClass::Space => b == 0x20 || b == 0x09 || b == 0x0a || b == 0x0c,
            ByteClass::Digit => 0x30 <= b <= 0x39,
            ByteClass::IdentPart => is_ident_start(b) || (0x30 <= b <= 0x39),
            ByteClass::CommentBody => b != NEWLINE,
            ByteClass::Continuation => 0x80 <= b <= 0xbf,
        }
    }

    /// Tests whether the byte belongs to the class.
    pub fn test(self, b: u8) -> (r: bool)
        ensures
            r == self.holds(b),
    {
        match self {
            ByteClass::Space => b == 0x20 || b == 0x09 || b == 0x0a || b == 0x0c,
            ByteClass::Digit => 0x30 <= b && b <= 0x39,
            ByteClass::IdentPart => (0x41 <= b && b <= 0x5a) || (0x61 <= b && b <= 0x7a) || b
                == 0x5f || (0x30 <= b && b <= 0x39),
            ByteClass::CommentBody => b != NEWLINE,
            ByteClass::Continuation => 0x80 <= b && b <= 0xbf,
        }
    }
}

/// Where the longest run of bytes of the class that starts at `i` ends.
pub open spec fn run_end(bytes: Seq<u8>, i: int, class: ByteClass) -> int
    decreases bytes.len() - i,
{
    if 0 <= i < bytes.len() && class.holds(bytes[i]) {
        run_end(bytes, i + 1, class)
    } else {
        i
    }
}

/// Where the number literal that starts at `i` ends: after its digits, and
/// after a `.` with the digits behind it where at least one digit follows the
/// `.`.
pub open spec fn number_end(bytes: Seq<u8>, i: int) -> int {
    let whole = run_end(bytes, i, ByteClass::Digit);
    if whole + 1 < bytes.len() && bytes[whole] == DOT && ByteClass::Digit.holds(bytes[whole + 1]) {
        run_end(bytes, whole + 1, ByteClass::Digit)
    } else {
        whole
    }
}

/// How the scan of a string literal ends.
pub enum StringEnd {
    /// The closing quote stands at this position.
    Closed(int),
    /// No closing quote: the scan gave up at this position.
    Broken(int),
}

/// The scan of the inside of a string literal, from `j` on. A backslash takes
/// the next byte with it, which may be anything but a newline; a quote not
/// taken by a backslash closes the literal. The scan gives up at the end of
/// the input and at a backslash that nothing, or a newline, follows.
pub open spec fn string_scan(bytes: Seq<u8>, j: int) -> StringEnd
    decreases bytes.len() - j,
{
    if j < 0 || j >= bytes.len() {
        StringEnd::Broken(j)
    } else if bytes[j] == QUOTE {
        StringEnd::Closed(j)
    } else if bytes[j] == BACKSLASH {
        if j + 1 < bytes.len() && bytes[j + 1] != NEWLINE {
            string_scan(bytes, j + 2)
        } else {
            StringEnd::Broken(j)
        }
    } else {
        string_scan(bytes, j + 1)
    }
}

/// The text that a range of bytes holds.
pub open spec fn text_of(bytes: Seq<u8>, start: int, end: int) -> Seq<char> {
    decode_utf8(bytes.subrange(start, end))
}

/// The class of a word: a keyword on exact match, else an identifier.
pub open spec fn word_kind(word: Seq<char>) -> TokenKindView {
    if word == "let"@ {
        TokenKindView::Let
    } else if word == "cast"@ {
        TokenKindView::Cast
    } else if word == "when"@ {
        TokenKindView::When
    } else if word == "else"@ {
        TokenKindView::Else
    } else if word == "unsafe"@ {
        TokenKindView::Unsafe
    } else {
        TokenKindView::Ident(word)
    }
}

/// The punctuation that a byte stands for, if any.
pub open spec fn punctuation(b: u8) -> Option<TokenKindView> {
    if b == 0x3d {
        Some(TokenKindView::Eq)
    } else if b == 0x2c {
        Some(TokenKindView::Comma)
    } else if b == 0x3b {
        Some(TokenKindView::Semi)
    } else if b == 0x28 {
        Some(TokenKindView::LParen)
    } else if b == 0x29 {
        Some(TokenKindView::RParen)
    } else if b == 0x7b {
        Some(TokenKindView::LBrace)
    } else if b == 0x7d {
        Some(TokenKindView::RBrace)
    } else {
        None
    }
}

/// What stands at a position of the source: a token of some class, or text
/// that is passed over, and where it ends.
pub struct Scan {
    pub kind: Option<TokenKindView>,
    pub end: int,
}

/// What stands at position `i`.
///
/// White space and comments are passed over. A word is the longest run of
/// letters, digits and underscores. A string literal keeps the text between
/// its quotes as written. A string literal without its closing quote is an
/// error token that ends where the scan gave up. Any other character that
/// starts no token is an error token of its own.
pub open spec fn scan_at(bytes: Seq<u8>, i: int) -> Scan {
    let b = bytes[i];
    if ByteClass::Space.holds(b) {
        Scan { kind: None, end: run_end(bytes, i, ByteClass::Space) }
    } else if b == HASH {
        Scan { kind: None, end: run_end(bytes, i + 1, ByteClass::CommentBody) }
    } else if is_ident_start(b) {
        let end = run_end(bytes, i, ByteClass::IdentPart);
        Scan { kind: Some(word_kind(text_of(bytes, i, end))), end }
    } else if ByteClass::Digit.holds(b) {
        let end = number_end(bytes, i);
        Scan { kind: Some(TokenKindView::Number(text_of(bytes, i, end))), end }
    } else if b == QUOTE {
        match string_scan(bytes, i + 1) {
            StringEnd::Closed(quote) => Scan {
                kind: Some(TokenKindView::StrLiteral(text_of(bytes, i + 1, quote))),
                end: quote + 1,
            },
            StringEnd::Broken(stop) => Scan { kind: Some(TokenKindView::Error), end: stop },
        }
    } else {
        match punctuation(b) {
            Some(kind) => Scan { kind: Some(kind), end: i + 1 },
            None => Scan {
                kind: Some(TokenKindView::Error),
                end: run_end(bytes, i + 1, ByteClass::Continuation),
            },
        }
    }
}

/// The tokens from position `i` on, after the tokens `acc` before it.
pub open spec fn lex_from(bytes: Seq<u8>, i: int, acc: Seq<TokenView>) -> Seq<TokenView>
    decreases bytes.len() - i,
{
    if i < 0 || i >= bytes.len() {
        acc
    } else {
        let scan = scan_at(bytes, i);
        proof {
            lemma_scan_bounds(bytes, i);
        }
        match scan.kind {
            Some(kind) => lex_from(bytes, scan.end, acc.push(TokenView { kind, start: i, end: scan.end })),
            None => lex_from(bytes, scan.end, acc),
        }
    }
}

/// The tokens of a source, given by its bytes.
pub open spec fn lex_spec(bytes: Seq<u8>) -> Seq<TokenView> {
    lex_from(bytes, 0, Seq::empty())
}

/// A run ends within the input, holds only bytes of its class, and stops at
/// the first byte that is not of the class.
pub proof fn lemma_run_end(bytes: Seq<u8>, i: int, class: ByteClass)
    requires
        0 <= i <= bytes.len(),
    ensures
        i <= run_end(bytes, i, class) <= bytes.len(),
        forall|k: int| i <= k < run_end(bytes, i, class) ==> class.holds(#[trigger] bytes[k]),
        run_end(bytes, i, class) < bytes.len() ==> !class.holds(bytes[run_end(bytes, i, class)]),
        i < bytes.len() && class.holds(bytes[i]) ==> i < run_end(bytes, i, class),
    decreases bytes.len() - i,
{
    if i < bytes.len() && class.holds(bytes[i]) {
        lemma_run_end(bytes, i + 1, class);
    }
}

/// A number literal is not empty, ends within the input, and its last byte
/// is a digit.
pub proof fn lemma_number_end(bytes: Seq<u8>, i: int)
    requires
        0 <= i < bytes.len(),
        ByteClass::Digit.holds(bytes[i]),
    ensures
        i < number_end(bytes, i) <= bytes.len(),
        ByteClass::Digit.holds(bytes[number_end(bytes, i) - 1]),
{
    lemma_run_end(bytes, i, ByteClass::Digit);
    let whole = run_end(bytes, i, ByteClass::Digit);
    if whole + 1 < bytes.len() {
        lemma_run_end(bytes, whole + 1, ByteClass::Digit);
    }
}

/// The scan of a string literal ends within the input; a closing quote is a
/// quote.
pub proof fn lemma_string_scan(bytes: Seq<u8>, j: int)
    requires
        0 <= j <= bytes.len(),
    ensures
        match string_scan(bytes, j) {
            StringEnd::Closed(quote) => j <= quote < bytes.len() && bytes[quote] == QUOTE,
            StringEnd::Broken(stop) => j <= stop <= bytes.len() && (stop < bytes.len()
                ==> bytes[stop] == BACKSLASH),
        },
    decreases bytes.len() - j,
{
    if j >= bytes.len() {
    } else if bytes[j] == QUOTE {
    } else if bytes[j] == BACKSLASH {
        if j + 1 < bytes.len() && bytes[j + 1] != NEWLINE {
            lemma_string_scan(bytes, j + 2);
        }
    } else {
        lemma_string_scan(bytes, j + 1);
    }
}

/// Whatever stands at a position is not empty and ends within the input.
pub proof fn lemma_scan_bounds(bytes: Seq<u8>, i: int)
    requires
        0 <= i < bytes.len(),
    ensures
        i < scan_at(bytes, i).end <= bytes.len(),
{
    lemma_run_end(bytes, i, ByteClass::Space);
    lemma_run_end(bytes, i + 1, ByteClass::CommentBody);
    lemma_run_end(bytes, i, ByteClass::IdentPart);
    lemma_run_end(bytes, i + 1, ByteClass::Continuation);
    if ByteClass::Digit.holds(bytes[i]) {
        lemma_number_end(bytes, i);
    }
    lemma_string_scan(bytes, i + 1);
}

/// Whether the text from `from` to `to` is passed over as a whole: it
/// consists of white space and comments only.
pub open spec fn only_skipped(bytes: Seq<u8>, from: int, to: int) -> bool
    decreases bytes.len() - from,
{
    from == to || (0 <= from < to <= bytes.len() && scan_at(bytes, from).kind is None && {
        proof {
            lemma_scan_bounds(bytes, from);
        }
        only_skipped(bytes, scan_at(bytes, from).end, to)
    })
}

/// Where the token before position `k` of a token sequence ends: at the
/// start of the source for the first token.
pub open spec fn end_before(tokens: Seq<TokenView>, k: int) -> int {
    if k <= 0 {
        0
    } else {
        tokens[k - 1].end
    }
}

/// Whether the tokens cover the source up to `upto`: each token is not
/// empty, the tokens stand in source order without overlap, and what lies
/// between them, before the first and after the last is white space and
/// comments only.
pub open spec fn covers(bytes: Seq<u8>, tokens: Seq<TokenView>, upto: int) -> bool {
    &&& forall|k: int|
        0 <= k < tokens.len() ==> end_before(tokens, k) <= (#[trigger] tokens[k]).start
            < tokens[k].end <= upto
    &&& forall|k: int|
        0 <= k < tokens.len() ==> only_skipped(
            bytes,
            end_before(tokens, k),
            (#[trigger] tokens[k]).start,
        )
    &&& only_skipped(bytes, end_before(tokens, tokens.len() as int), upto)
    &&& 0 <= end_before(tokens, tokens.len() as int) <= upto <= bytes.len()
}

/// Text that is passed over stays passed over when more skipped text
/// follows it.
proof fn lemma_skip_more(bytes: Seq<u8>, from: int, to: int)
    requires
        0 <= from <= to < bytes.len(),
        only_skipped(bytes, from, to),
        scan_at(bytes, to).kind is None,
    ensures
        only_skipped(bytes, from, scan_at(bytes, to).end),
    decreases to - from,
{
    lemma_scan_bounds(bytes, to);
    let end = scan_at(bytes, to).end;
    if from == to {
        assert(only_skipped(bytes, end, end));
    } else {
        lemma_scan_bounds(bytes, from);
        lemma_skipped_order(bytes, scan_at(bytes, from).end, to);
        lemma_skip_more(bytes, scan_at(bytes, from).end, to);
    }
}

/// Text that is passed over does not run backwards.
proof fn lemma_skipped_order(bytes: Seq<u8>, from: int, to: int)
    requires
        only_skipped(bytes, from, to),
        0 <= from <= bytes.len(),
    ensures
        from <= to,
    decreases bytes.len() - from,
{
    if from != to {
        lemma_scan_bounds(bytes, from);
        lemma_skipped_order(bytes, scan_at(bytes, from).end, to);
    }
}

/// Lexing from a position keeps the source covered.
proof fn lemma_lex_from_covers(bytes: Seq<u8>, i: int, acc: Seq<TokenView>)
    requires
        0 <= i <= bytes.len(),
        covers(bytes, acc, i),
    ensures
        covers(bytes, lex_from(bytes, i, acc), bytes.len() as int),
    decreases bytes.len() - i,
{
    if i < bytes.len() {
        let scan = scan_at(bytes, i);
        lemma_scan_bounds(bytes, i);
        let last = end_before(acc, acc.len() as int);
        match scan.kind {
            Some(kind) => {
                let token = TokenView { kind, start: i, end: scan.end };
                let next = acc.push(token);
                lemma_skipped_order(bytes, last, i);
                assert forall|k: int| 0 <= k < next.len() implies end_before(next, k) <= (
                #[trigger] next[k]).start < next[k].end <= scan.end && only_skipped(
                    bytes,
                    end_before(next, k),
                    next[k].start,
                ) by {
                    if k < acc.len() {
                        assert(next[k] == acc[k]);
                        assert(end_before(next, k) == end_before(acc, k));
                    } else {
                        assert(end_before(next, k) == last);
                    }
                }
                assert(end_before(next, next.len() as int) == scan.end);
                assert(only_skipped(bytes, scan.end, scan.end));
                lemma_lex_from_covers(bytes, scan.end, next);
            },
            None => {
                lemma_skipped_order(bytes, last, i);
                lemma_skip_more(bytes, last, i);
                assert forall|k: int| 0 <= k < acc.len() implies (#[trigger] acc[k]).end
                    <= scan.end by {}
                lemma_lex_from_covers(bytes, scan.end, acc);
            },
        }
    }
}

/// The tokens of a source cover it: every token is a non-empty byte range
/// within the source, the tokens stand in source order without overlap, and
/// all that no token covers is white space and comments.
pub proof fn lemma_lex_covers(bytes: Seq<u8>)
    ensures
        covers(bytes, lex_spec(bytes), bytes.len() as int),
{
    assert(only_skipped(bytes, 0, 0));
    lemma_lex_from_covers(bytes, 0, Seq::empty());
}

/// Finds where the longest run of bytes of the class that starts at `i`
/// ends.
fn scan_run(bytes: &[u8], i: usize, class: ByteClass) -> (end: usize)
    requires
        i <= bytes@.len(),
    ensures
        end == run_end(bytes@, i as int, class),
        i <= end <= bytes@.len(),
{
    let mut j: usize = i;
    while j < bytes.len() && class.test(bytes[j])
        invariant
            i <= j <= bytes@.len(),
            run_end(bytes@, i as int, class) == run_end(bytes@, j as int, class),
        decreases bytes@.len() - j,
    {
        j += 1;
    }
    j
}

/// Finds where the number literal that starts at `i` ends.
fn scan_number(bytes: &[u8], i: usize) -> (end: usize)
    requires
        i < bytes@.len(),
        ByteClass::Digit.holds(bytes@[i as int]),
    ensures
        end == number_end(bytes@, i as int),
        i < end <= bytes@.len(),
{
    proof {
        lemma_number_end(bytes@, i as int);
    }
    let whole = scan_run(bytes, i, ByteClass::Digit);
    if bytes.len() - whole > 1 && bytes[whole] == DOT && ByteClass::Digit.test(bytes[whole + 1]) {
        scan_run(bytes, whole + 1, ByteClass::Digit)
    } else {
        whole
    }
}

/// Scans the inside of a string literal from `start` on. Returns whether the
/// literal is closed, and the position of the closing quote or the position
/// where the scan gave up.
fn scan_string(bytes: &[u8], start: usize) -> (found: (bool, usize))
    requires
        start <= bytes@.len(),
    ensures
        string_scan(bytes@, start as int) == (if found.0 {
            StringEnd::Closed(found.1 as int)
        } else {
            StringEnd::Broken(found.1 as int)
        }),
        start <= found.1 <= bytes@.len(),
        found.0 ==> found.1 < bytes@.len() && bytes@[found.1 as int] == QUOTE,
{
    let mut j: usize = start;
    while j < bytes.len()
        invariant
            start <= j <= bytes@.len(),
            string_scan(bytes@, start as int) == string_scan(bytes@, j as int),
        decreases bytes@.len() - j,
    {
        let b = bytes[j];
        if b == QUOTE {
            return (true, j);
        } else if b == BACKSLASH {
            if bytes.len() - j > 1 && bytes[j + 1] != NEWLINE {
                j += 2;
            } else {
                return (false, j);
            }
        } else {
            j += 1;
        }
    }
    (false, j)
}

/// Classifies a word: a keyword on exact match, else an identifier.
fn classify_word(word: &str) -> (kind: TokenKind)
    ensures
        kind@ == word_kind(word@),
{
    if same_text(word, "let") {
        TokenKind::Let
    } else if same_text(word, "cast") {
        TokenKind::Cast
    } else if same_text(word, "when") {
        TokenKind::When
    } else if same_text(word, "else") {
        TokenKind::Else
    } else if same_text(word, "unsafe") {
        TokenKind::Unsafe
    } else {
        TokenKind::Ident(String::from_str(word))
    }
}

/// The punctuation that a byte stands for, if any.
fn classify_punctuation(b: u8) -> (kind: Option<TokenKind>)
    ensures
        match kind {
            Some(k) => punctuation(b) == Some(k@),
            None => punctuation(b) is None,
        },
{
    if b == 0x3d {
        Some(TokenKind::Eq)
    } else if b == 0x2c {
        Some(TokenKind::Comma)
    } else if b == 0x3b {
        Some(TokenKind::Semi)
    } else if b == 0x28 {
        Some(TokenKind::LParen)
    } else if b == 0x29 {
        Some(TokenKind::RParen)
    } else if b == 0x7b {
        Some(TokenKind::LBrace)
    } else if b == 0x7d {
        Some(TokenKind::RBrace)
    } else {
        None
    }
}

/// Splits a source into its tokens, each with the byte range it covers.
///
/// Lexing never fails: text that matches no rule becomes an error token, and
/// white space and comments leave no token.
pub fn lex(source: &str) -> (tokens: Vec<Token>)
    ensures
        token_views(tokens@) == lex_spec(source.spec_bytes()),
{
    let bytes = source.as_bytes();
    let ghost all = source.spec_bytes();
    let mut tokens: Vec<Token> = Vec::new();
    let mut i: usize = 0;
    proof {
        encode_utf8_valid_utf8(source@);
        assert(token_views(tokens@) =~= Seq::empty());
    }
    while i < bytes.len()
        invariant
            all == source.spec_bytes(),
            bytes@ == all,
            valid_utf8(all),
            i <= all.len(),
            lex_spec(all) == lex_from(all, i as int, token_views(tokens@)),
        decreases all.len() - i,
    {
        let ghost before = token_views(tokens@);
        let b = bytes[i];
        proof {
            lemma_scan_bounds(all, i as int);
        }
        if ByteClass::Space.test(b) {
            i = scan_run(bytes, i, ByteClass::Space);
        } else if b == HASH {
            i = scan_run(bytes, i + 1, ByteClass::CommentBody);
        } else {
            let kind: TokenKind;
            let end: usize;
            if starts_ident(b) {
                end = scan_run(bytes, i, ByteClass::IdentPart);
                proof {
                    lemma_run_end(all, i as int, ByteClass::IdentPart);
                    lemma_boundary_at(all, i as int);
                    lemma_boundary_after_ascii(all, end - 1);
                }
                kind = classify_word(slice_text(source, i, end));
            } else if ByteClass::Digit.test(b) {
                end = scan_number(bytes, i);
                proof {
                    lemma_number_end(all, i as int);
                    lemma_boundary_at(all, i as int);
                    lemma_boundary_after_ascii(all, end - 1);
                }
                kind = TokenKind::Number(String::from_str(slice_text(source, i, end)));
            } else if b == QUOTE {
                let (closed, at) = scan_string(bytes, i + 1);
                if closed {
                    proof {
                        lemma_boundary_after_ascii(all, i as int);
                        lemma_boundary_at(all, at as int);
                    }
                    kind = TokenKind::StrLiteral(String::from_str(slice_text(source, i + 1, at)));
                    end = at + 1;
                } else {
                    kind = TokenKind::Error;
                    end = at;
                }
            } else {
                match classify_punctuation(b) {
                    Some(k) => {
                        kind = k;
                        end = i + 1;
                    },
                    None => {
                        kind = TokenKind::Error;
                        end = scan_run(bytes, i + 1, ByteClass::Continuation);
                    },
                }
            }
            let ghost shown = TokenView { kind: kind@, start: i as int, end: end as int };
            tokens.push((kind, i..end));
            assert(token_views(tokens@) =~= before.push(shown));
            i = end;
        }
    }
    tokens
}

} // verus!
