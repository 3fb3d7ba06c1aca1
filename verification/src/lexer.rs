//! The lexer: from source text to tokens.

use vstd::prelude::*;
use crate::syntax::{push_repeated, repeated, segments_text, write_segments};
use crate::text::{append, chars_of, is_whitespace, views, whitespace_char};
use crate::token::{StringSegment, StringSegmentView, Token, TokenView};

verus! {

/// Why a source text has no tokens.
#[derive(Debug, Clone, Copy, PartialEq, Eq, Structural)]
pub enum LexError {
    /// A string literal is still open where the text ends.
    UnterminatedString,
    /// The text ends where a character has to follow: right after a
    /// backslash inside a string literal, or where a token is asked for.
    UnexpectedEnd,
}

impl LexError {
    /// The error in words.
    pub open spec fn message_spec(self) -> Seq<char> {
        match self {
            LexError::UnterminatedString => "Unterminated string"@,
            LexError::UnexpectedEnd => "Unexpected end of file"@,
        }
    }

    /// The error in words.
    pub fn message(&self) -> (r: Vec<char>)
        ensures
            r@ == self.message_spec(),
    {
        match self {
            LexError::UnterminatedString => chars_of("Unterminated string"),
            LexError::UnexpectedEnd => chars_of("Unexpected end of file"),
        }
    }
}

/// The characters that never belong to an identifier, white space aside.
pub open spec fn is_special(c: char) -> bool {
    c == '{' || c == '}' || c == '(' || c == ')' || c == '[' || c == ']' || c == ';' || c == ':'
        || c == '.' || c == ',' || c == '&' || c == '|' || c == '+' || c == '-' || c == '*' || c
        == '/' || c == '%' || c == '<' || c == '>' || c == '"' || c == '\'' || c == '`' || c
        == '«' || c == '=' || c == '!' || c == '?'
}

/// What a character is to the lexer: punctuation or a quote, white space,
/// or a character of names.
#[derive(Debug, Clone, Copy, PartialEq, Eq, Structural)]
pub enum CharKind {
    Special,
    Blank,
    Plain,
}

/// The kind of a character, given whether it is white space. A special
/// character is special whatever else it is.
pub open spec fn kind_spec(c: char, white: bool) -> CharKind {
    if is_special(c) {
        CharKind::Special
    } else if white {
        CharKind::Blank
    } else {
        CharKind::Plain
    }
}

/// The characters of names: neither special nor white space.
pub open spec fn ident_char(c: char) -> bool {
    kind_spec(c, whitespace_char(c)) == CharKind::Plain
}

/// The characters of a run of white space: white space that is not special.
pub open spec fn blank(c: char) -> bool {
    kind_spec(c, whitespace_char(c)) == CharKind::Blank
}

/// The end of the run of identifier characters that starts at `pos`.
pub open spec fn ident_end(s: Seq<char>, pos: int) -> int
    decreases s.len() - pos,
{
    if pos < 0 || pos >= s.len() || !ident_char(s[pos]) {
        pos
    } else {
        ident_end(s, pos + 1)
    }
}

/// The end of the run of the character `c` that starts at `pos`.
pub open spec fn run_end(s: Seq<char>, pos: int, c: char) -> int
    decreases s.len() - pos,
{
    if pos < 0 || pos >= s.len() || s[pos] != c {
        pos
    } else {
        run_end(s, pos + 1, c)
    }
}

/// The end of the run of white space that starts at `pos`.
pub open spec fn space_end(s: Seq<char>, pos: int) -> int
    decreases s.len() - pos,
{
    if pos < 0 || pos >= s.len() || !blank(s[pos]) {
        pos
    } else {
        space_end(s, pos + 1)
    }
}

/// What one character of white space counts: a line feed three, any other one.
pub open spec fn space_weight(c: char) -> nat {
    if c == '\n' {
        3
    } else {
        1
    }
}

/// The width of the white space from `from` up to `to`.
pub open spec fn space_width(s: Seq<char>, from: int, to: int) -> nat
    decreases to - from,
{
    if to <= from || to > s.len() || from < 0 {
        0
    } else {
        space_width(s, from, to - 1) + space_weight(s[to - 1])
    }
}

/// A count as a token holds it: the largest count that fits stands for all
/// larger ones.
pub open spec fn capped(n: int) -> u8 {
    if n >= 255 {
        255u8
    } else if n < 0 {
        0u8
    } else {
        n as u8
    }
}

/// The index of the quote that closes the string literal whose content starts
/// at `pos`. A backslash takes the character after it along.
pub open spec fn string_end(s: Seq<char>, pos: int, end: char) -> Result<int, LexError>
    decreases s.len() - pos,
{
    if pos < 0 || pos >= s.len() {
        Err(LexError::UnterminatedString)
    } else if s[pos] == end {
        Ok(pos)
    } else if s[pos] == '\\' {
        if pos + 1 >= s.len() {
            Err(LexError::UnexpectedEnd)
        } else {
            string_end(s, pos + 2, end)
        }
    } else {
        string_end(s, pos + 1, end)
    }
}

/// The signs that, right before `{name}`, make it stand for a variable.
pub open spec fn is_currency_prefix(c: char) -> bool {
    c == '$' || c == '£' || c == '¥'
}

/// The sign that, right after `{name}`, makes it stand for a variable.
pub open spec fn is_currency_suffix(c: char) -> bool {
    c == '€'
}

/// The index of the first `}` at or after `pos`, or the length of `s`.
pub open spec fn brace_end(s: Seq<char>, pos: int) -> int
    decreases s.len() - pos,
{
    if pos < 0 || pos >= s.len() || s[pos] == '}' {
        pos
    } else {
        brace_end(s, pos + 1)
    }
}

/// The literal text from `from` up to `to`, as a list of at most one piece.
pub open spec fn literal_piece(s: Seq<char>, from: int, to: int) -> Seq<StringSegmentView> {
    if 0 <= from < to <= s.len() {
        seq![StringSegmentView::String(s.subrange(from, to))]
    } else {
        Seq::empty()
    }
}

/// The variable that stands at `pos` in the content of a string literal:
/// `X{name}` with a currency prefix `X`, or `{name}` followed by the currency
/// suffix. Gives the index where the name starts, the index of the closing
/// brace, and the index after the whole.
pub open spec fn interpolation_at(s: Seq<char>, pos: int) -> Option<(int, int, int)> {
    if !(0 <= pos < s.len()) {
        None
    } else if is_currency_prefix(s[pos]) && pos + 1 < s.len() && s[pos + 1] == '{' && brace_end(
        s,
        pos + 2,
    ) < s.len() {
        Some((pos + 2, brace_end(s, pos + 2), brace_end(s, pos + 2) + 1))
    } else if s[pos] == '{' && brace_end(s, pos + 1) + 1 < s.len() && is_currency_suffix(
        s[brace_end(s, pos + 1) + 1],
    ) {
        Some((pos + 1, brace_end(s, pos + 1), brace_end(s, pos + 1) + 2))
    } else {
        None
    }
}

/// The pieces of the content `s` of a string literal from `pos` on, where the
/// literal text since `from` is still to be put out. A backslash makes the
/// character after it plain text.
pub open spec fn segments_from(s: Seq<char>, pos: int, from: int) -> Seq<StringSegmentView>
    decreases s.len() - pos,
    via segments_from_decreases
{
    if pos < 0 || pos >= s.len() {
        literal_piece(s, from, s.len() as int)
    } else if s[pos] == '\\' {
        if pos + 1 >= s.len() {
            literal_piece(s, from, s.len() as int)
        } else {
            segments_from(s, pos + 2, from)
        }
    } else {
        match interpolation_at(s, pos) {
            Some((start, close, next)) => literal_piece(s, from, pos) + seq![
                StringSegmentView::Ident(s.subrange(start, close)),
            ] + segments_from(s, next, next),
            None => segments_from(s, pos + 1, from),
        }
    }
}

/// The first `}` from an index on stands at or behind the index.
proof fn lemma_brace_bounds(s: Seq<char>, i: int)
    requires
        0 <= i <= s.len(),
    ensures
        i <= brace_end(s, i) <= s.len(),
    decreases s.len() - i,
{
    if i < s.len() && s[i] != '}' {
        lemma_brace_bounds(s, i + 1);
    }
}

/// A variable ends behind where it starts, within the content.
#[via_fn]
proof fn segments_from_decreases(s: Seq<char>, pos: int, from: int) {
    if 0 <= pos < s.len() {
        lemma_brace_bounds(s, pos + 1);
        if pos + 2 <= s.len() {
            lemma_brace_bounds(s, pos + 2);
        }
    }
}

/// The pieces of the content of a string literal.
pub open spec fn segments_of(content: Seq<char>) -> Seq<StringSegmentView> {
    segments_from(content, 0, 0)
}

/// The token that starts at `pos`, and the index after it.
pub open spec fn token_at(s: Seq<char>, pos: int) -> Result<(TokenView, int), LexError> {
    let c = s[pos];
    let next = if pos + 1 < s.len() { Some(s[pos + 1]) } else { None };
    if pos < 0 || pos >= s.len() {
        Err(LexError::UnexpectedEnd)
    } else if c == '{' {
        Ok((TokenView::LSquirrely, pos + 1))
    } else if c == '}' {
        Ok((TokenView::RSquirrely, pos + 1))
    } else if c == '(' {
        Ok((TokenView::LParen, pos + 1))
    } else if c == ')' {
        Ok((TokenView::RParen, pos + 1))
    } else if c == '[' {
        Ok((TokenView::LSquare, pos + 1))
    } else if c == ']' {
        Ok((TokenView::RSquare, pos + 1))
    } else if c == ';' {
        Ok((TokenView::Semicolon, pos + 1))
    } else if c == ':' {
        Ok((TokenView::Colon, pos + 1))
    } else if c == '.' {
        Ok((TokenView::Dot, pos + 1))
    } else if c == ',' {
        Ok((TokenView::Comma, pos + 1))
    } else if c == '&' {
        Ok((TokenView::And, pos + 1))
    } else if c == '|' {
        Ok((TokenView::Or, pos + 1))
    } else if c == '+' {
        if next == Some('=') {
            Ok((TokenView::PlusEq, pos + 2))
        } else {
            Ok((TokenView::Plus, pos + 1))
        }
    } else if c == '-' {
        if next == Some('=') {
            Ok((TokenView::TackEq, pos + 2))
        } else if next == Some('>') {
            Ok((TokenView::Arrow, pos + 2))
        } else {
            Ok((TokenView::Tack, pos + 1))
        }
    } else if c == '*' {
        if next == Some('=') {
            Ok((TokenView::StarEq, pos + 2))
        } else {
            Ok((TokenView::Star, pos + 1))
        }
    } else if c == '/' {
        if next == Some('=') {
            Ok((TokenView::SlashEq, pos + 2))
        } else {
            Ok((TokenView::Slash, pos + 1))
        }
    } else if c == '%' {
        if next == Some('=') {
            Ok((TokenView::PercentEq, pos + 2))
        } else {
            Ok((TokenView::Percent, pos + 1))
        }
    } else if c == '<' {
        if next == Some('=') {
            Ok((TokenView::LCaretEq, pos + 2))
        } else {
            Ok((TokenView::LCaret, pos + 1))
        }
    } else if c == '>' {
        if next == Some('=') {
            Ok((TokenView::RCaretEq, pos + 2))
        } else {
            Ok((TokenView::RCaret, pos + 1))
        }
    } else if c == '"' || c == '\'' || c == '`' || c == '«' {
        string_token(s, pos + 1, if c == '«' { '»' } else { c })
    } else if c == '=' {
        Ok((TokenView::Equal(capped(run_end(s, pos, c) - pos)), run_end(s, pos, c)))
    } else if c == '!' {
        Ok((TokenView::Bang(capped(run_end(s, pos, c) - pos)), run_end(s, pos, c)))
    } else if c == '?' {
        Ok((TokenView::Question(capped(run_end(s, pos, c) - pos)), run_end(s, pos, c)))
    } else if blank(c) {
        Ok(
            (
                TokenView::Space(capped(space_width(s, pos, space_end(s, pos)) as int)),
                space_end(s, pos),
            ),
        )
    } else {
        Ok((TokenView::Ident(s.subrange(pos, ident_end(s, pos + 1))), ident_end(s, pos + 1)))
    }
}

/// The string literal whose content starts at `pos` and which `end` closes,
/// and the index after the closing quote.
pub open spec fn string_token(s: Seq<char>, pos: int, end: char) -> Result<
    (TokenView, int),
    LexError,
> {
    match string_end(s, pos, end) {
        Err(e) => Err(e),
        Ok(close) => Ok((TokenView::String(segments_of(s.subrange(pos, close))), close + 1)),
    }
}

/// The tokens of `s` from `pos` on.
pub open spec fn tokens_from(s: Seq<char>, pos: int) -> Result<Seq<TokenView>, LexError>
    decreases s.len() - pos,
    via tokens_from_decreases
{
    if pos < 0 || pos >= s.len() {
        Ok(Seq::empty())
    } else {
        match token_at(s, pos) {
            Err(e) => Err(e),
            Ok((token, next)) => match tokens_from(s, next) {
                Err(e) => Err(e),
                Ok(rest) => Ok(seq![token] + rest),
            },
        }
    }
}

/// A token ends behind where it starts, within the text.
#[via_fn]
proof fn tokens_from_decreases(s: Seq<char>, pos: int) {
    if 0 <= pos < s.len() && token_at(s, pos) is Ok {
        crate::roundtrip::lemma_token_shape(s, pos);
    }
}

/// The tokens of a source text, or the reason why it has none.
pub open spec fn lex(s: Seq<char>) -> Result<Seq<TokenView>, LexError> {
    tokens_from(s, 0)
}

/// The tokens `done`, followed by the tokens of `rest` where there are any.
pub open spec fn prepend(done: Seq<TokenView>, rest: Result<Seq<TokenView>, LexError>) -> Result<
    Seq<TokenView>,
    LexError,
> {
    match rest {
        Err(e) => Err(e),
        Ok(more) => Ok(done + more),
    }
}

/// Whether the quote `end` can close a string literal with the content
/// `body`: read from the start of the body, the literal ends at the quote
/// that follows the body.
pub open spec fn closes(body: Seq<char>, end: char) -> bool {
    string_end(body.push(end), 0, end) == Ok::<int, LexError>(body.len() as int)
}

/// The quotes that open and close the string literal with the content
/// `body` in a text: the first pair, of `"`, `'`, the backtick and the
/// angle quotes, whose closing quote can close it; `"` where none can.
pub open spec fn quotes_for(body: Seq<char>) -> (char, char) {
    if closes(body, '"') {
        ('"', '"')
    } else if closes(body, '\'') {
        ('\'', '\'')
    } else if closes(body, '`') {
        ('`', '`')
    } else if closes(body, '»') {
        ('«', '»')
    } else {
        ('"', '"')
    }
}

/// The text of a token in a source text.
pub open spec fn token_text(t: TokenView) -> Seq<char> {
    match t {
        TokenView::Ident(name) => name,
        TokenView::String(segments) => seq![quotes_for(segments_text(segments)).0] + segments_text(
            segments,
        ) + seq![quotes_for(segments_text(segments)).1],
        TokenView::Space(n) => repeated(' ', n as nat),
        TokenView::Equal(n) => repeated('=', n as nat),
        TokenView::Bang(n) => repeated('!', n as nat),
        TokenView::Question(n) => repeated('?', n as nat),
        TokenView::Plus => seq!['+'],
        TokenView::PlusPlus => seq!['+', '+'],
        TokenView::PlusEq => seq!['+', '='],
        TokenView::Tack => seq!['-'],
        TokenView::TackTack => seq!['-', '-'],
        TokenView::TackEq => seq!['-', '='],
        TokenView::Star => seq!['*'],
        TokenView::StarEq => seq!['*', '='],
        TokenView::Slash => seq!['/'],
        TokenView::SlashEq => seq!['/', '='],
        TokenView::Percent => seq!['%'],
        TokenView::PercentEq => seq!['%', '='],
        TokenView::LCaret => seq!['<'],
        TokenView::LCaretEq => seq!['<', '='],
        TokenView::RCaret => seq!['>'],
        TokenView::RCaretEq => seq!['>', '='],
        TokenView::LParen => seq!['('],
        TokenView::RParen => seq![')'],
        TokenView::LSquirrely => seq!['{'],
        TokenView::RSquirrely => seq!['}'],
        TokenView::LSquare => seq!['['],
        TokenView::RSquare => seq![']'],
        TokenView::Arrow => seq!['-', '>'],
        TokenView::Semicolon => seq![';'],
        TokenView::Comma => seq![','],
        TokenView::Colon => seq![':'],
        TokenView::Dot => seq!['.'],
        TokenView::And => seq!['&'],
        TokenView::Or => seq!['|'],
    }
}

/// The source text that a list of tokens stands for: their texts in a row.
pub open spec fn serialized(tokens: Seq<TokenView>) -> Seq<char>
    decreases tokens.len(),
{
    if tokens.len() == 0 {
        Seq::empty()
    } else {
        serialized(tokens.drop_last()) + token_text(tokens.last())
    }
}

/// Whether an exec result is the spec result, token by its view.
pub open spec fn token_result_is(
    r: Result<(Token, usize), LexError>,
    expected: Result<(TokenView, int), LexError>,
) -> bool {
    match expected {
        Err(e) => r == Err::<(Token, usize), LexError>(e),
        Ok((token, next)) => r is Ok && r->Ok_0.0@ == token && r->Ok_0.1 == next,
    }
}

/// Whether a character never belongs to an identifier, white space aside.
fn is_special_char(c: char) -> (r: bool)
    ensures
        r == is_special(c),
{
    c == '{' || c == '}' || c == '(' || c == ')' || c == '[' || c == ']' || c == ';' || c == ':'
        || c == '.' || c == ',' || c == '&' || c == '|' || c == '+' || c == '-' || c == '*' || c
        == '/' || c == '%' || c == '<' || c == '>' || c == '"' || c == '\'' || c == '`' || c
        == '«' || c == '=' || c == '!' || c == '?'
}

/// The kind of a character, given whether it is white space.
pub fn kind_of(c: char, white: bool) -> (r: CharKind)
    ensures
        r == kind_spec(c, white),
{
    if is_special_char(c) {
        CharKind::Special
    } else if white {
        CharKind::Blank
    } else {
        CharKind::Plain
    }
}

/// Whether a character belongs to names.
fn is_ident_char(c: char) -> (r: bool)
    ensures
        r == ident_char(c),
{
    match kind_of(c, is_whitespace(c)) {
        CharKind::Plain => true,
        _ => false,
    }
}

/// Whether a character belongs to a run of white space.
fn is_blank(c: char) -> (r: bool)
    ensures
        r == blank(c),
{
    match kind_of(c, is_whitespace(c)) {
        CharKind::Blank => true,
        _ => false,
    }
}

/// The characters of `chars` from `from` up to `to`.
fn slice_text(chars: &Vec<char>, from: usize, to: usize) -> (r: Vec<char>)
    requires
        from <= to <= chars.len(),
    ensures
        r@ == chars@.subrange(from as int, to as int),
{
    let mut r: Vec<char> = Vec::new();
    let mut i: usize = from;
    while i < to
        invariant
            from <= i <= to,
            to <= chars.len(),
            r@ == chars@.subrange(from as int, i as int),
        decreases to - i,
    {
        r.push(chars[i]);
        assert(chars@.subrange(from as int, i + 1) =~= chars@.subrange(from as int, i as int).push(
            chars@[i as int],
        ));
        i += 1;
    }
    r
}

/// Counts the run of `tok` that starts at `pos`: the count as a token holds
/// it, and the index after the run.
pub fn count_char(chars: &Vec<char>, pos: usize, tok: char) -> (r: (u8, usize))
    ensures
        r.1 == run_end(chars@, pos as int, tok),
        r.0 == capped(r.1 - pos),
        pos <= r.1,
        r.1 <= chars.len() || r.1 == pos,
        pos < chars.len() && chars@[pos as int] == tok ==> pos < r.1,
{
    let n: usize = chars.len();
    let mut i: usize = pos;
    let mut count: u8 = 0;
    while i < n && chars[i] == tok
        invariant
            pos <= i,
            i <= n || i == pos,
            n == chars.len(),
            run_end(chars@, pos as int, tok) == run_end(chars@, i as int, tok),
            count == capped(i - pos),
        decreases n - i,
    {
        i += 1;
        if count < 255 {
            count += 1;
        }
    }
    (count, i)
}

/// The index of the first `}` at or after `pos`, or the length of the text.
fn find_brace(chars: &Vec<char>, pos: usize) -> (r: usize)
    requires
        pos <= chars.len(),
    ensures
        r == brace_end(chars@, pos as int),
        pos <= r <= chars.len(),
{
    let n: usize = chars.len();
    let mut i: usize = pos;
    while i < n && chars[i] != '}'
        invariant
            pos <= i <= n,
            n == chars.len(),
            brace_end(chars@, pos as int) == brace_end(chars@, i as int),
        decreases n - i,
    {
        i += 1;
    }
    i
}

/// Whether a character is a currency prefix.
fn is_prefix_sign(c: char) -> (r: bool)
    ensures
        r == is_currency_prefix(c),
{
    c == '$' || c == '£' || c == '¥'
}

/// Whether a character is the currency suffix.
fn is_suffix_sign(c: char) -> (r: bool)
    ensures
        r == is_currency_suffix(c),
{
    c == '€'
}

/// Puts out the literal text from `from` up to `to`, where there is any.
fn flush_literal(out: &mut Vec<StringSegment>, chars: &Vec<char>, from: usize, to: usize)
    requires
        from <= to <= chars.len(),
    ensures
        views(final(out)@) == views(old(out)@) + literal_piece(chars@, from as int, to as int),
{
    if from < to {
        out.push(StringSegment::String(slice_text(chars, from, to)));
    }
    assert(views(out@) =~= views(old(out)@) + literal_piece(chars@, from as int, to as int));
}

/// Splits the content of a string literal into literal text and the names of
/// the variables that stand in it.
pub fn parse_segments(content: &Vec<char>) -> (r: Vec<StringSegment>)
    ensures
        views(r@) == segments_of(content@),
{
    let n: usize = content.len();
    let mut out: Vec<StringSegment> = Vec::new();
    let mut pos: usize = 0;
    let mut from: usize = 0;
    assert(views(out@) + segments_from(content@, 0, 0) =~= segments_from(content@, 0, 0));
    while pos < n
        invariant
            from <= pos <= n,
            n == content.len(),
            segments_of(content@) == views(out@) + segments_from(content@, pos as int, from as int),
        decreases n - pos,
    {
        let c: char = content[pos];
        if c == '\\' {
            if pos + 1 >= n {
                pos = n;
            } else {
                pos += 2;
            }
        } else if is_prefix_sign(c) && pos + 1 < n && content[pos + 1] == '{' {
            let close: usize = find_brace(content, pos + 2);
            if close < n {
                let ghost before = views(out@);
                flush_literal(&mut out, content, from, pos);
                let ghost middle = views(out@);
                out.push(StringSegment::Ident(slice_text(content, pos + 2, close)));
                proof {
                    let ident = seq![
                        StringSegmentView::Ident(content@.subrange(pos + 2, close as int)),
                    ];
                    assert(views(out@) =~= middle + ident);
                    assert(views(out@) + segments_from(content@, close + 1, close + 1) =~= before
                        + (literal_piece(content@, from as int, pos as int) + ident
                        + segments_from(content@, close + 1, close + 1)));
                }
                pos = close + 1;
                from = pos;
            } else {
                pos += 1;
            }
        } else if c == '{' {
            let close: usize = find_brace(content, pos + 1);
            if close < n - 1 && is_suffix_sign(content[close + 1]) {
                let ghost before = views(out@);
                flush_literal(&mut out, content, from, pos);
                let ghost middle = views(out@);
                out.push(StringSegment::Ident(slice_text(content, pos + 1, close)));
                proof {
                    let ident = seq![
                        StringSegmentView::Ident(content@.subrange(pos + 1, close as int)),
                    ];
                    assert(views(out@) =~= middle + ident);
                    assert(views(out@) + segments_from(content@, close + 2, close + 2) =~= before
                        + (literal_piece(content@, from as int, pos as int) + ident
                        + segments_from(content@, close + 2, close + 2)));
                }
                pos = close + 2;
                from = pos;
            } else {
                pos += 1;
            }
        } else {
            pos += 1;
        }
    }
    flush_literal(&mut out, content, from, n);
    out
}

/// Reads the string literal whose content starts at `pos` and which `end`
/// closes.
pub fn lex_string(chars: &Vec<char>, pos: usize, end: char) -> (r: Result<(Token, usize), LexError>)
    ensures
        token_result_is(r, string_token(chars@, pos as int, end)),
        r matches Ok(t) ==> pos < t.1 <= chars.len(),
{
    let n: usize = chars.len();
    let mut i: usize = pos;
    while i < n && chars[i] != end
        invariant
            pos <= i,
            n == chars.len(),
            string_end(chars@, pos as int, end) == string_end(chars@, i as int, end),
        decreases n - i,
    {
        if chars[i] == '\\' {
            if i + 1 >= n {
                return Err(LexError::UnexpectedEnd);
            }
            i += 2;
        } else {
            i += 1;
        }
    }
    if i >= n {
        return Err(LexError::UnterminatedString);
    }
    let content = slice_text(chars, pos, i);
    let segments = parse_segments(&content);
    Ok((Token::String(segments), i + 1))
}

/// Reads the token that starts at `pos`.
pub fn inner_tokenize(chars: &Vec<char>, pos: usize) -> (r: Result<(Token, usize), LexError>)
    ensures
        token_result_is(r, token_at(chars@, pos as int)),
        r matches Ok(t) ==> pos < t.1 <= chars.len(),
{
    let n: usize = chars.len();
    if pos >= n {
        return Err(LexError::UnexpectedEnd);
    }
    let c: char = chars[pos];
    let followed_by_eq: bool = pos + 1 < n && chars[pos + 1] == '=';
    if c == '{' {
        Ok((Token::LSquirrely, pos + 1))
    } else if c == '}' {
        Ok((Token::RSquirrely, pos + 1))
    } else if c == '(' {
        Ok((Token::LParen, pos + 1))
    } else if c == ')' {
        Ok((Token::RParen, pos + 1))
    } else if c == '[' {
        Ok((Token::LSquare, pos + 1))
    } else if c == ']' {
        Ok((Token::RSquare, pos + 1))
    } else if c == ';' {
        Ok((Token::Semicolon, pos + 1))
    } else if c == ':' {
        Ok((Token::Colon, pos + 1))
    } else if c == '.' {
        Ok((Token::Dot, pos + 1))
    } else if c == ',' {
        Ok((Token::Comma, pos + 1))
    } else if c == '&' {
        Ok((Token::And, pos + 1))
    } else if c == '|' {
        Ok((Token::Or, pos + 1))
    } else if c == '+' {
        if followed_by_eq {
            Ok((Token::PlusEq, pos + 2))
        } else {
            Ok((Token::Plus, pos + 1))
        }
    } else if c == '-' {
        if followed_by_eq {
            Ok((Token::TackEq, pos + 2))
        } else if pos + 1 < n && chars[pos + 1] == '>' {
            Ok((Token::Arrow, pos + 2))
        } else {
            Ok((Token::Tack, pos + 1))
        }
    } else if c == '*' {
        if followed_by_eq {
            Ok((Token::StarEq, pos + 2))
        } else {
            Ok((Token::Star, pos + 1))
        }
    } else if c == '/' {
        if followed_by_eq {
            Ok((Token::SlashEq, pos + 2))
        } else {
            Ok((Token::Slash, pos + 1))
        }
    } else if c == '%' {
        if followed_by_eq {
            Ok((Token::PercentEq, pos + 2))
        } else {
            Ok((Token::Percent, pos + 1))
        }
    } else if c == '<' {
        if followed_by_eq {
            Ok((Token::LCaretEq, pos + 2))
        } else {
            Ok((Token::LCaret, pos + 1))
        }
    } else if c == '>' {
        if followed_by_eq {
            Ok((Token::RCaretEq, pos + 2))
        } else {
            Ok((Token::RCaret, pos + 1))
        }
    } else if c == '"' || c == '\'' || c == '`' {
        lex_string(chars, pos + 1, c)
    } else if c == '«' {
        lex_string(chars, pos + 1, '»')
    } else if c == '=' {
        let (count, next) = count_char(chars, pos, c);
        Ok((Token::Equal(count), next))
    } else if c == '!' {
        let (count, next) = count_char(chars, pos, c);
        Ok((Token::Bang(count), next))
    } else if c == '?' {
        let (count, next) = count_char(chars, pos, c);
        Ok((Token::Question(count), next))
    } else if is_blank(c) {
        let mut i: usize = pos + 1;
        let mut width: u8 = if c == '\n' { 3 } else { 1 };
        assert(space_width(chars@, pos as int, pos as int) == 0);
        while i < n && is_blank(chars[i])
            invariant
                pos < i <= n,
                n == chars.len(),
                space_end(chars@, pos as int) == space_end(chars@, i as int),
                width == capped(space_width(chars@, pos as int, i as int) as int),
            decreases n - i,
        {
            let w: u8 = if chars[i] == '\n' { 3 } else { 1 };
            width = if width >= 255 - w { 255 } else { width + w };
            i += 1;
        }
        Ok((Token::Space(width), i))
    } else {
        let mut i: usize = pos + 1;
        while i < n && is_ident_char(chars[i])
            invariant
                pos < i <= n,
                n == chars.len(),
                ident_end(chars@, pos + 1) == ident_end(chars@, i as int),
            decreases n - i,
        {
            i += 1;
        }
        Ok((Token::Ident(slice_text(chars, pos, i)), i))
    }
}

/// Reads a source text into its tokens. The tokens, written out as a text,
/// read as the same tokens.
pub fn tokenize(source: &str) -> (r: Result<Vec<Token>, LexError>)
    ensures
        match lex(source@) {
            Ok(tokens) => r is Ok && views(r->Ok_0@) == tokens,
            Err(e) => r == Err::<Vec<Token>, LexError>(e),
        },
        r matches Ok(tokens) ==> lex(serialized(views(tokens@))) == Ok::<
            Seq<TokenView>,
            LexError,
        >(views(tokens@)),
{
    let chars = chars_of(source);
    tokenize_chars(&chars)
}

/// Reads a source text, given by its characters, into its tokens. The
/// tokens, written out as a text, read as the same tokens.
pub fn tokenize_chars(chars: &Vec<char>) -> (r: Result<Vec<Token>, LexError>)
    ensures
        match lex(chars@) {
            Ok(tokens) => r is Ok && views(r->Ok_0@) == tokens,
            Err(e) => r == Err::<Vec<Token>, LexError>(e),
        },
        r matches Ok(tokens) ==> lex(serialized(views(tokens@))) == Ok::<
            Seq<TokenView>,
            LexError,
        >(views(tokens@)),
{
    proof {
        if lex(chars@) is Ok {
            crate::roundtrip::lemma_lex_serialize(chars@);
        }
    }
    let n: usize = chars.len();
    let mut tokens: Vec<Token> = Vec::new();
    let mut pos: usize = 0;
    assert(views(tokens@) =~= Seq::empty());
    assert(prepend(Seq::empty(), tokens_from(chars@, 0)) == tokens_from(chars@, 0)) by {
        if let Ok(more) = tokens_from(chars@, 0) {
            assert(Seq::<TokenView>::empty() + more =~= more);
        }
    }
    while pos < n
        invariant
            pos <= n,
            n == chars.len(),
            lex(chars@) == prepend(views(tokens@), tokens_from(chars@, pos as int)),
        decreases n - pos,
    {
        let ghost done = views(tokens@);
        match inner_tokenize(chars, pos) {
            Err(e) => {
                return Err(e);
            },
            Ok((token, next)) => {
                tokens.push(token);
                proof {
                    assert(views(tokens@) =~= done + seq![token@]);
                    if let Ok(more) = tokens_from(chars@, next as int) {
                        assert(done + (seq![token@] + more) =~= views(tokens@) + more);
                    }
                }
                pos = next;
            },
        }
    }
    assert(views(tokens@) + Seq::<TokenView>::empty() =~= views(tokens@));
    Ok(tokens)
}

/// Whether the quote `end` can close a string literal with the content
/// `body`.
fn can_close(body: &Vec<char>, end: char) -> (r: bool)
    ensures
        r == closes(body@, end),
{
    let n: usize = body.len();
    let ghost whole = body@.push(end);
    let mut i: usize = 0;
    while i < n && body[i] != end
        invariant
            i <= n,
            n == body.len(),
            whole == body@.push(end),
            string_end(whole, 0, end) == string_end(whole, i as int, end),
        decreases n - i,
    {
        assert(whole[i as int] == body@[i as int]);
        if body[i] == '\\' {
            if i + 1 >= n {
                assert(whole[i + 1] == end);
                assert(string_end(whole, i + 2, end) is Err);
                return false;
            }
            i += 2;
        } else {
            i += 1;
        }
    }
    if i < n {
        assert(whole[i as int] == body@[i as int]);
        assert(string_end(whole, i as int, end) == Ok::<int, LexError>(i as int));
    } else {
        assert(whole[n as int] == end);
        assert(string_end(whole, n as int, end) == Ok::<int, LexError>(n as int));
    }
    i >= n
}

impl Token {
    /// The text of the token in a source text.
    pub fn to_text(&self) -> (r: Vec<char>)
        ensures
            r@ == token_text(self@),
    {
        let mut buf: Vec<char> = Vec::new();
        match self {
            Token::Ident(name) => append(&mut buf, name),
            Token::String(segments) => {
                let mut body: Vec<char> = Vec::new();
                write_segments(&mut body, segments);
                assert(body@ =~= segments_text(views(segments@)));
                let (open, close): (char, char) = if can_close(&body, '"') {
                    ('"', '"')
                } else if can_close(&body, '\'') {
                    ('\'', '\'')
                } else if can_close(&body, '`') {
                    ('`', '`')
                } else if can_close(&body, '»') {
                    ('«', '»')
                } else {
                    ('"', '"')
                };
                buf.push(open);
                append(&mut buf, &body);
                buf.push(close);
            },
            Token::Space(n) => push_repeated(&mut buf, ' ', *n),
            Token::Equal(n) => push_repeated(&mut buf, '=', *n),
            Token::Bang(n) => push_repeated(&mut buf, '!', *n),
            Token::Question(n) => push_repeated(&mut buf, '?', *n),
            Token::Plus => buf.push('+'),
            Token::PlusPlus => {
                buf.push('+');
                buf.push('+');
            },
            Token::PlusEq => {
                buf.push('+');
                buf.push('=');
            },
            Token::Tack => buf.push('-'),
            Token::TackTack => {
                buf.push('-');
                buf.push('-');
            },
            Token::TackEq => {
                buf.push('-');
                buf.push('=');
            },
            Token::Star => buf.push('*'),
            Token::StarEq => {
                buf.push('*');
                buf.push('=');
            },
            Token::Slash => buf.push('/'),
            Token::SlashEq => {
                buf.push('/');
                buf.push('=');
            },
            Token::Percent => buf.push('%'),
            Token::PercentEq => {
                buf.push('%');
                buf.push('=');
            },
            Token::LCaret => buf.push('<'),
            Token::LCaretEq => {
                buf.push('<');
                buf.push('=');
            },
            Token::RCaret => buf.push('>'),
            Token::RCaretEq => {
                buf.push('>');
                buf.push('=');
            },
            Token::LParen => buf.push('('),
            Token::RParen => buf.push(')'),
            Token::LSquirrely => buf.push('{'),
            Token::RSquirrely => buf.push('}'),
            Token::LSquare => buf.push('['),
            Token::RSquare => buf.push(']'),
            Token::Arrow => {
                buf.push('-');
                buf.push('>');
            },
            Token::Semicolon => buf.push(';'),
            Token::Comma => buf.push(','),
            Token::Colon => buf.push(':'),
            Token::Dot => buf.push('.'),
            Token::And => buf.push('&'),
            Token::Or => buf.push('|'),
        }
        assert(buf@ =~= token_text(self@));
        buf
    }
}

/// The source text that a list of tokens stands for.
pub fn serialize(tokens: &Vec<Token>) -> (r: Vec<char>)
    ensures
        r@ == serialized(views(tokens@)),
{
    let mut buf: Vec<char> = Vec::new();
    let mut i: usize = 0;
    assert(views(tokens@).take(0) =~= Seq::empty());
    while i < tokens.len()
        invariant
            i <= tokens.len(),
            buf@ == serialized(views(tokens@).take(i as int)),
        decreases tokens.len() - i,
    {
        let text = tokens[i].to_text();
        append(&mut buf, &text);
        proof {
            let t = views(tokens@).take(i + 1);
            assert(t.drop_last() =~= views(tokens@).take(i as int));
            assert(t.last() == tokens@[i as int]@);
        }
        i += 1;
    }
    assert(views(tokens@).take(tokens.len() as int) =~= views(tokens@));
    buf
}

/// Writes tokens out as a text and reads the text. Doing so again with what
/// was read gives the same tokens.
pub fn relex(tokens: &Vec<Token>) -> (r: Result<Vec<Token>, LexError>)
    ensures
        match lex(serialized(views(tokens@))) {
            Ok(read) => r is Ok && views(r->Ok_0@) == read,
            Err(e) => r == Err::<Vec<Token>, LexError>(e),
        },
        r matches Ok(read) ==> lex(serialized(views(read@))) == Ok::<Seq<TokenView>, LexError>(
            views(read@),
        ),
{
    proof {
        if lex(serialized(views(tokens@))) is Ok {
            crate::roundtrip::lemma_lex_serialize_idempotent(views(tokens@));
        }
    }
    let text = serialize(tokens);
    tokenize_chars(&text)
}

} // verus!
