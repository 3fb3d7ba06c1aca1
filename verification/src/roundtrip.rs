//! Reading back what was written: the tokens of a text, written out as a
//! text, read as the same tokens.

use vstd::prelude::*;
use crate::lexer::{
    blank,
    closes,
    ident_char,
    ident_end,
    is_special,
    lex,
    quotes_for,
    run_end,
    segments_of,
    serialized,
    space_end,
    space_width,
    string_end,
    string_token,
    token_at,
    token_text,
    tokens_from,
    LexError,
};
use crate::literals::{lemma_content_closes, lemma_literal_reads_back};
use crate::syntax::segments_text;
use crate::token::TokenView;

verus! {

/// A result of the lexer with its index moved on by `by`.
pub open spec fn moved(r: Result<(TokenView, int), LexError>, by: int) -> Result<
    (TokenView, int),
    LexError,
> {
    match r {
        Ok((t, next)) => Ok((t, next + by)),
        Err(e) => Err(e),
    }
}

/// The end of a string literal with its index moved on by `by`.
pub open spec fn moved_end(r: Result<int, LexError>, by: int) -> Result<int, LexError> {
    match r {
        Ok(k) => Ok(k + by),
        Err(e) => Err(e),
    }
}

/// A run ends behind its characters, at the first character that is another.
proof fn lemma_run_end(s: Seq<char>, i: int, c: char)
    requires
        0 <= i <= s.len(),
    ensures
        i <= run_end(s, i, c) <= s.len(),
        forall|j: int| i <= j < run_end(s, i, c) ==> s[j] == c,
        run_end(s, i, c) < s.len() ==> s[run_end(s, i, c)] != c,
    decreases s.len() - i,
{
    if i < s.len() && s[i] == c {
        lemma_run_end(s, i + 1, c);
    }
}

/// A name ends behind its characters, at the first character that is none of
/// a name.
proof fn lemma_ident_end(s: Seq<char>, i: int)
    requires
        0 <= i <= s.len(),
    ensures
        i <= ident_end(s, i) <= s.len(),
        forall|j: int| i <= j < ident_end(s, i) ==> ident_char(s[j]),
        ident_end(s, i) < s.len() ==> !ident_char(s[ident_end(s, i)]),
    decreases s.len() - i,
{
    if i < s.len() && ident_char(s[i]) {
        lemma_ident_end(s, i + 1);
    }
}

/// A run of white space ends behind its characters, at the first character
/// that is none of it.
proof fn lemma_space_end(s: Seq<char>, i: int)
    requires
        0 <= i <= s.len(),
    ensures
        i <= space_end(s, i) <= s.len(),
        forall|j: int| i <= j < space_end(s, i) ==> blank(s[j]),
        space_end(s, i) < s.len() ==> !blank(s[space_end(s, i)]),
    decreases s.len() - i,
{
    if i < s.len() && blank(s[i]) {
        lemma_space_end(s, i + 1);
    }
}

/// Where a string literal ends, its closing quote stands.
pub proof fn lemma_string_end_found(s: Seq<char>, i: int, end: char)
    requires
        0 <= i <= s.len(),
    ensures
        string_end(s, i, end) matches Ok(k) ==> i <= k < s.len() && s[k] == end,
    decreases s.len() - i,
{
    if i < s.len() && s[i] != end {
        if s[i] == '\\' {
            if i + 1 < s.len() {
                lemma_string_end_found(s, i + 2, end);
            }
        } else {
            lemma_string_end_found(s, i + 1, end);
        }
    }
}

/// The end of a run behind a text put in front.
proof fn lemma_run_end_shift(p: Seq<char>, s: Seq<char>, i: int, c: char)
    requires
        0 <= i <= s.len(),
    ensures
        run_end(p + s, p.len() + i, c) == run_end(s, i, c) + p.len(),
    decreases s.len() - i,
{
    if i < s.len() {
        assert((p + s)[p.len() + i] == s[i]);
        if s[i] == c {
            lemma_run_end_shift(p, s, i + 1, c);
        }
    }
}

/// The end of a name behind a text put in front.
proof fn lemma_ident_end_shift(p: Seq<char>, s: Seq<char>, i: int)
    requires
        0 <= i <= s.len(),
    ensures
        ident_end(p + s, p.len() + i) == ident_end(s, i) + p.len(),
    decreases s.len() - i,
{
    if i < s.len() {
        assert((p + s)[p.len() + i] == s[i]);
        if ident_char(s[i]) {
            lemma_ident_end_shift(p, s, i + 1);
        }
    }
}

/// The end of a run of white space behind a text put in front.
proof fn lemma_space_end_shift(p: Seq<char>, s: Seq<char>, i: int)
    requires
        0 <= i <= s.len(),
    ensures
        space_end(p + s, p.len() + i) == space_end(s, i) + p.len(),
    decreases s.len() - i,
{
    if i < s.len() {
        assert((p + s)[p.len() + i] == s[i]);
        if blank(s[i]) {
            lemma_space_end_shift(p, s, i + 1);
        }
    }
}

/// The width of white space behind a text put in front.
proof fn lemma_space_width_shift(p: Seq<char>, s: Seq<char>, from: int, to: int)
    requires
        0 <= from <= to <= s.len(),
    ensures
        space_width(p + s, p.len() + from, p.len() + to) == space_width(s, from, to),
    decreases to - from,
{
    if from < to {
        assert((p + s)[p.len() + to - 1] == s[to - 1]);
        lemma_space_width_shift(p, s, from, to - 1);
    }
}

/// The end of a string literal behind a text put in front.
pub proof fn lemma_string_end_moves(p: Seq<char>, s: Seq<char>, i: int, end: char)
    requires
        0 <= i <= s.len(),
    ensures
        string_end(p + s, p.len() + i, end) == moved_end(string_end(s, i, end), p.len() as int),
    decreases s.len() - i,
{
    if i < s.len() {
        assert((p + s)[p.len() + i] == s[i]);
        if s[i] != end {
            if s[i] == '\\' {
                if i + 1 < s.len() {
                    lemma_string_end_moves(p, s, i + 2, end);
                }
            } else {
                lemma_string_end_moves(p, s, i + 1, end);
            }
        }
    }
}

/// A string literal behind a text put in front.
proof fn lemma_string_token_shift(p: Seq<char>, s: Seq<char>, i: int, end: char)
    requires
        0 <= i <= s.len(),
    ensures
        string_token(p + s, p.len() + i, end) == moved(string_token(s, i, end), p.len() as int),
{
    lemma_string_end_moves(p, s, i, end);
    lemma_string_end_found(s, i, end);
    if let Ok(k) = string_end(s, i, end) {
        assert((p + s).subrange(p.len() + i, p.len() + k) =~= s.subrange(i, k));
    }
}

/// The token at an index of a text is the token at that index behind any
/// text put in front.
pub proof fn lemma_token_at_shift(p: Seq<char>, s: Seq<char>, i: int)
    requires
        0 <= i < s.len(),
    ensures
        token_at(p + s, p.len() + i) == moved(token_at(s, i), p.len() as int),
{
    let c = s[i];
    let x = p + s;
    let n = p.len() as int;
    assert(x[n + i] == c);
    if i + 1 < s.len() {
        assert(x[n + i + 1] == s[i + 1]);
    }
    lemma_run_end_shift(p, s, i, c);
    lemma_space_end_shift(p, s, i);
    lemma_space_end(s, i);
    lemma_space_width_shift(p, s, i, space_end(s, i));
    lemma_ident_end_shift(p, s, i + 1);
    lemma_ident_end(s, i + 1);
    assert(x.subrange(n + i, n + ident_end(s, i + 1)) =~= s.subrange(i, ident_end(s, i + 1)));
    lemma_string_token_shift(p, s, i + 1, c);
    lemma_string_token_shift(p, s, i + 1, '»');
}

/// The tokens from an index of a text on are the tokens from that index on
/// behind any text put in front.
pub proof fn lemma_tokens_shift(p: Seq<char>, s: Seq<char>, i: int)
    requires
        0 <= i <= s.len(),
    ensures
        tokens_from(p + s, p.len() + i) == tokens_from(s, i),
    decreases s.len() - i,
{
    if i < s.len() {
        lemma_token_at_shift(p, s, i);
        if let Ok((token, next)) = token_at(s, i) {
            lemma_token_shape(s, i);
            lemma_tokens_shift(p, s, next);
        }
    }
}

/// The first character of a text, where it has one.
pub open spec fn first_of(s: Seq<char>) -> Option<char> {
    if s.len() > 0 {
        Some(s[0])
    } else {
        None
    }
}

/// Whether a token is of a shape that the lexer gives: a name is a run of
/// identifier characters, a count is at least one, and `++` and `--` do not
/// occur.
pub open spec fn shaped(t: TokenView) -> bool {
    match t {
        TokenView::Ident(name) => name.len() > 0 && forall|i: int|
            0 <= i < name.len() ==> ident_char(#[trigger] name[i]),
        TokenView::Space(n) => n >= 1,
        TokenView::Equal(n) => n >= 1,
        TokenView::Bang(n) => n >= 1,
        TokenView::Question(n) => n >= 1,
        TokenView::PlusPlus | TokenView::TackTack => false,
        _ => true,
    }
}

/// Whether the text of a string literal reads back as its pieces: some quote
/// closes the text, and the text falls into the same pieces. True of every
/// other token.
pub open spec fn reads_back(t: TokenView) -> bool {
    match t {
        TokenView::String(segments) => segments_of(segments_text(segments)) == segments
            && closes(segments_text(segments), quotes_for(segments_text(segments)).1),
        _ => true,
    }
}

/// Whether a token ends where its text ends, given the character that
/// follows the text.
pub open spec fn stops(t: TokenView, c: Option<char>) -> bool {
    match t {
        TokenView::Ident(_) => c matches Some(x) ==> !ident_char(x),
        TokenView::Space(_) => c matches Some(x) ==> !blank(x),
        TokenView::Equal(_) => c != Some('='),
        TokenView::Bang(_) => c != Some('!'),
        TokenView::Question(_) => c != Some('?'),
        TokenView::Plus | TokenView::Star | TokenView::Slash | TokenView::Percent
        | TokenView::LCaret | TokenView::RCaret => c != Some('='),
        TokenView::Tack => c != Some('=') && c != Some('>'),
        _ => true,
    }
}

/// Whether a token can stand right before another in what the lexer gives.
pub open spec fn joins(a: TokenView, b: TokenView) -> bool {
    match a {
        TokenView::Ident(_) => !(b is Ident),
        TokenView::Space(_) => !(b is Space),
        TokenView::Equal(_) => !(b is Equal),
        TokenView::Bang(_) => !(b is Bang),
        TokenView::Question(_) => !(b is Question),
        TokenView::Plus | TokenView::Star | TokenView::Slash | TokenView::Percent
        | TokenView::LCaret | TokenView::RCaret => !(b is Equal),
        TokenView::Tack => !(b is Equal) && !(b is RCaret) && !(b is RCaretEq),
        _ => true,
    }
}

/// Whether a list of tokens is of the shape that the lexer gives.
pub open spec fn all_shaped(tokens: Seq<TokenView>) -> bool {
    &&& forall|i: int| 0 <= i < tokens.len() ==> shaped(#[trigger] tokens[i])
    &&& forall|i: int| 0 <= i < tokens.len() - 1 ==> joins(tokens[i], #[trigger] tokens[i + 1])
}

/// Whether every string literal of a list of tokens reads back.
pub open spec fn all_read_back(tokens: Seq<TokenView>) -> bool {
    forall|i: int| 0 <= i < tokens.len() ==> reads_back(#[trigger] tokens[i])
}

/// A name ends where its characters end.
proof fn lemma_read_ident(x: Seq<char>, k: int, n: int)
    requires
        0 <= k <= n <= x.len(),
        forall|j: int| k <= j < n ==> ident_char(x[j]),
        n < x.len() ==> !ident_char(x[n]),
    ensures
        ident_end(x, k) == n,
    decreases n - k,
{
    if k < n {
        lemma_read_ident(x, k + 1, n);
    }
}

/// A run ends where its characters end.
proof fn lemma_read_run(x: Seq<char>, k: int, n: int, c: char)
    requires
        0 <= k <= n <= x.len(),
        forall|j: int| k <= j < n ==> x[j] == c,
        n < x.len() ==> x[n] != c,
    ensures
        run_end(x, k, c) == n,
    decreases n - k,
{
    if k < n {
        lemma_read_run(x, k + 1, n, c);
    }
}

/// A run of white space ends where its characters end.
proof fn lemma_read_space(x: Seq<char>, k: int, n: int)
    requires
        0 <= k <= n <= x.len(),
        forall|j: int| k <= j < n ==> blank(x[j]),
        n < x.len() ==> !blank(x[n]),
    ensures
        space_end(x, k) == n,
    decreases n - k,
{
    if k < n {
        lemma_read_space(x, k + 1, n);
    }
}

/// Plain spaces are as wide as they are many.
proof fn lemma_width_of_spaces(x: Seq<char>, n: int)
    requires
        0 <= n <= x.len(),
        forall|j: int| 0 <= j < n ==> x[j] == ' ',
    ensures
        space_width(x, 0, n) == n,
    decreases n,
{
    if n > 0 {
        lemma_width_of_spaces(x, n - 1);
    }
}

/// Reading a string literal does not depend on what follows its closing
/// quote.
proof fn lemma_string_end_extend(s: Seq<char>, rest: Seq<char>, i: int, end: char)
    requires
        0 <= i <= s.len(),
        string_end(s, i, end) is Ok,
    ensures
        string_end(s + rest, i, end) == string_end(s, i, end),
    decreases s.len() - i,
{
    if i < s.len() {
        assert((s + rest)[i] == s[i]);
        if s[i] != end {
            if s[i] == '\\' {
                if i + 1 < s.len() {
                    lemma_string_end_extend(s, rest, i + 2, end);
                }
            } else {
                lemma_string_end_extend(s, rest, i + 1, end);
            }
        }
    }
}

/// A token of the lexer's shape that reads back is the first token of its
/// text followed by any text at which it stops.
pub proof fn lemma_token_reads(t: TokenView, rest: Seq<char>)
    requires
        shaped(t),
        reads_back(t),
        stops(t, first_of(rest)),
    ensures
        token_text(t).len() > 0,
        token_at(token_text(t) + rest, 0) == Ok::<(TokenView, int), LexError>(
            (t, token_text(t).len() as int),
        ),
{
    let text = token_text(t);
    let x = text + rest;
    let n = text.len() as int;
    assert forall|j: int| 0 <= j < n implies x[j] == text[j] by {}
    if rest.len() > 0 {
        assert(x[n] == rest[0]);
    }
    match t {
        TokenView::Ident(name) => {
            assert(ident_char(name[0]));
            assert forall|j: int| 1 <= j < n implies ident_char(x[j]) by {
                assert(x[j] == name[j]);
            }
            lemma_read_ident(x, 1, n);
            assert(x.subrange(0, n) =~= name);
        },
        TokenView::String(segments) => {
            let body = segments_text(segments);
            let (open, close) = quotes_for(body);
            let closed = body.push(close);
            lemma_string_end_extend(closed, rest, 0, close);
            lemma_string_end_moves(seq![open], closed + rest, 0, close);
            assert(seq![open] + (closed + rest) =~= x);
            assert(x.subrange(1, 1 + body.len() as int) =~= body);
            assert(x[0] == open);
        },
        TokenView::Space(count) => {
            assert(!is_special(' '));
            assert forall|j: int| 0 <= j < n implies blank(x[j]) && x[j] == ' ' by {
                assert(x[j] == text[j]);
            }
            lemma_read_space(x, 0, n);
            lemma_width_of_spaces(x, n);
        },
        TokenView::Equal(count) => {
            lemma_read_run(x, 0, n, '=');
        },
        TokenView::Bang(count) => {
            lemma_read_run(x, 0, n, '!');
        },
        TokenView::Question(count) => {
            lemma_read_run(x, 0, n, '?');
        },
        _ => {
            assert(x[0] == text[0]);
            if n > 1 {
                assert(x[1] == text[1]);
            }
        },
    }
}

/// The text of a list of tokens is the text of its first token, then the
/// text of the rest.
pub proof fn lemma_serialized_front(tokens: Seq<TokenView>)
    requires
        tokens.len() > 0,
    ensures
        serialized(tokens) == token_text(tokens[0]) + serialized(tokens.drop_first()),
    decreases tokens.len(),
{
    if tokens.len() == 1 {
        assert(tokens.drop_last() =~= Seq::empty());
        assert(tokens.drop_first() =~= Seq::empty());
        assert(serialized(tokens) =~= token_text(tokens[0]) + serialized(tokens.drop_first()));
    } else {
        let shorter = tokens.drop_last();
        lemma_serialized_front(shorter);
        assert(shorter.drop_first() =~= tokens.drop_first().drop_last());
        assert(tokens.drop_first().last() == tokens.last());
        assert(serialized(tokens) =~= token_text(tokens[0]) + serialized(tokens.drop_first()));
    }
}

/// A token that can stand right before a shaped token stops at the first
/// character of that token's text.
proof fn lemma_joins_stops(a: TokenView, b: TokenView, rest: Seq<char>)
    requires
        shaped(a),
        shaped(b),
        joins(a, b),
    ensures
        stops(a, first_of(token_text(b) + rest)),
{
    let text = token_text(b);
    let x = text + rest;
    match b {
        TokenView::Ident(name) => {
            assert(x[0] == name[0]);
            assert(ident_char(name[0]));
        },
        TokenView::String(segments) => {
            assert(x[0] == text[0]);
            assert(is_special(x[0]));
        },
        TokenView::Space(n) => {
            assert(x[0] == text[0]);
            assert(!is_special(' '));
        },
        TokenView::Equal(n) => {
            assert(x[0] == text[0]);
        },
        TokenView::Bang(n) => {
            assert(x[0] == text[0]);
        },
        TokenView::Question(n) => {
            assert(x[0] == text[0]);
        },
        _ => {
            assert(x[0] == text[0]);
            assert(is_special(x[0]));
        },
    }
}

/// A list of tokens of the lexer's shape, whose string literals read back,
/// is what the lexer reads from its text.
pub proof fn lemma_reads_back(tokens: Seq<TokenView>)
    requires
        all_shaped(tokens),
        all_read_back(tokens),
    ensures
        lex(serialized(tokens)) == Ok::<Seq<TokenView>, LexError>(tokens),
    decreases tokens.len(),
{
    if tokens.len() == 0 {
        assert(tokens =~= Seq::empty());
    } else {
        let first = tokens[0];
        let others = tokens.drop_first();
        lemma_serialized_front(tokens);
        let rest = serialized(others);
        assert forall|i: int| 0 <= i < others.len() implies shaped(#[trigger] others[i])
            && reads_back(others[i]) by {
            assert(others[i] == tokens[i + 1]);
        }
        assert forall|i: int| 0 <= i < others.len() - 1 implies joins(
            others[i],
            #[trigger] others[i + 1],
        ) by {
            assert(others[i] == tokens[i + 1]);
            assert(others[i + 1] == tokens[i + 2]);
        }
        lemma_reads_back(others);
        if others.len() > 0 {
            lemma_serialized_front(others);
            assert(tokens[1] == others[0]);
            lemma_joins_stops(first, others[0], serialized(others.drop_first()));
        } else {
            assert(others =~= Seq::empty());
            assert(rest =~= Seq::empty());
        }
        lemma_token_reads(first, rest);
        let text = token_text(first);
        lemma_tokens_shift(text, rest, 0);
        assert(seq![first] + others =~= tokens);
    }
}

/// The character at an index of a text, where there is one.
pub open spec fn char_at(s: Seq<char>, i: int) -> Option<char> {
    if 0 <= i < s.len() {
        Some(s[i])
    } else {
        None
    }
}

/// White space is at least as wide as its characters are many.
proof fn lemma_width_grows(s: Seq<char>, from: int, to: int)
    requires
        0 <= from <= to <= s.len(),
    ensures
        space_width(s, from, to) >= to - from,
    decreases to - from,
{
    if from < to {
        lemma_width_grows(s, from, to - 1);
    }
}

/// The token that the lexer reads at an index is of the lexer's shape, ends
/// behind the index, and stops at the character that follows it. Its kind
/// tells the character it starts with.
pub proof fn lemma_token_shape(s: Seq<char>, pos: int)
    requires
        0 <= pos < s.len(),
        token_at(s, pos) is Ok,
    ensures
        shaped(token_at(s, pos)->Ok_0.0),
        pos < token_at(s, pos)->Ok_0.1 <= s.len(),
        stops(token_at(s, pos)->Ok_0.0, char_at(s, token_at(s, pos)->Ok_0.1)),
        token_at(s, pos)->Ok_0.0 is Ident ==> ident_char(s[pos]),
        token_at(s, pos)->Ok_0.0 is Space ==> blank(s[pos]),
        token_at(s, pos)->Ok_0.0 is Equal ==> s[pos] == '=',
        token_at(s, pos)->Ok_0.0 is Bang ==> s[pos] == '!',
        token_at(s, pos)->Ok_0.0 is Question ==> s[pos] == '?',
        token_at(s, pos)->Ok_0.0 is RCaret ==> s[pos] == '>',
        token_at(s, pos)->Ok_0.0 is RCaretEq ==> s[pos] == '>',
{
    let c = s[pos];
    lemma_run_end(s, pos, c);
    lemma_space_end(s, pos);
    lemma_width_grows(s, pos, space_end(s, pos));
    lemma_ident_end(s, pos + 1);
    lemma_string_end_found(s, pos + 1, c);
    lemma_string_end_found(s, pos + 1, '»');
    let (t, next) = token_at(s, pos)->Ok_0;
    if let TokenView::Ident(name) = t {
        assert(name == s.subrange(pos, ident_end(s, pos + 1)));
        assert forall|i: int| 0 <= i < name.len() implies ident_char(#[trigger] name[i]) by {
            assert(name[i] == s[pos + i]);
        }
    }
}

/// Two tokens that the lexer reads one after the other can stand so.
proof fn lemma_tokens_join(s: Seq<char>, pos: int)
    requires
        0 <= pos < s.len(),
        token_at(s, pos) is Ok,
        token_at(s, pos)->Ok_0.1 < s.len(),
        token_at(s, token_at(s, pos)->Ok_0.1) is Ok,
    ensures
        joins(token_at(s, pos)->Ok_0.0, token_at(s, token_at(s, pos)->Ok_0.1)->Ok_0.0),
{
    lemma_token_shape(s, pos);
    lemma_token_shape(s, token_at(s, pos)->Ok_0.1);
}

/// What the lexer reads from a text is of the lexer's shape.
pub proof fn lemma_lexed_shape(s: Seq<char>, pos: int)
    requires
        0 <= pos <= s.len(),
        tokens_from(s, pos) is Ok,
    ensures
        all_shaped(tokens_from(s, pos)->Ok_0),
        tokens_from(s, pos)->Ok_0.len() > 0 ==> pos < s.len() && token_at(s, pos) is Ok
            && tokens_from(s, pos)->Ok_0[0] == token_at(s, pos)->Ok_0.0,
        pos < s.len() ==> tokens_from(s, pos)->Ok_0.len() > 0,
    decreases s.len() - pos,
{
    if pos < s.len() {
        let (first, next) = token_at(s, pos)->Ok_0;
        lemma_token_shape(s, pos);
        lemma_lexed_shape(s, next);
        let others = tokens_from(s, next)->Ok_0;
        let tokens = tokens_from(s, pos)->Ok_0;
        assert(tokens == seq![first] + others);
        assert forall|i: int| 0 <= i < tokens.len() implies shaped(#[trigger] tokens[i]) by {
            if i > 0 {
                assert(tokens[i] == others[i - 1]);
            }
        }
        assert forall|i: int| 0 <= i < tokens.len() - 1 implies joins(
            tokens[i],
            #[trigger] tokens[i + 1],
        ) by {
            if i == 0 {
                assert(tokens[1] == others[0]);
                lemma_tokens_join(s, pos);
            } else {
                assert(tokens[i] == others[i - 1]);
                assert(tokens[i + 1] == others[i - 1 + 1]);
            }
        }
    } else {
        assert(tokens_from(s, pos)->Ok_0 =~= Seq::empty());
    }
}

/// The string literal that the lexer reads at an index reads back.
proof fn lemma_token_reads_back(s: Seq<char>, pos: int)
    requires
        0 <= pos < s.len(),
        token_at(s, pos) is Ok,
    ensures
        reads_back(token_at(s, pos)->Ok_0.0),
{
    let c = s[pos];
    if c == '"' || c == '\'' || c == '`' || c == '«' {
        let end = if c == '«' { '»' } else { c };
        lemma_content_closes(s, pos + 1, end);
        let close = string_end(s, pos + 1, end)->Ok_0;
        lemma_literal_reads_back(s.subrange(pos + 1, close), end);
    }
}

/// Every string literal that the lexer reads from a text reads back.
pub proof fn lemma_lexed_read_back(s: Seq<char>, pos: int)
    requires
        0 <= pos <= s.len(),
        tokens_from(s, pos) is Ok,
    ensures
        all_read_back(tokens_from(s, pos)->Ok_0),
    decreases s.len() - pos,
{
    if pos < s.len() {
        let (first, next) = token_at(s, pos)->Ok_0;
        lemma_token_shape(s, pos);
        lemma_token_reads_back(s, pos);
        lemma_lexed_read_back(s, next);
        let others = tokens_from(s, next)->Ok_0;
        let tokens = tokens_from(s, pos)->Ok_0;
        assert(tokens == seq![first] + others);
        assert forall|i: int| 0 <= i < tokens.len() implies reads_back(#[trigger] tokens[i]) by {
            if i > 0 {
                assert(tokens[i] == others[i - 1]);
            }
        }
    } else {
        assert(tokens_from(s, pos)->Ok_0 =~= Seq::empty());
    }
}

/// The tokens of a text, written out and read again, are the same tokens.
pub proof fn lemma_lex_serialize(s: Seq<char>)
    requires
        lex(s) is Ok,
    ensures
        lex(serialized(lex(s)->Ok_0)) == lex(s),
{
    lemma_lexed_shape(s, 0);
    lemma_lexed_read_back(s, 0);
    lemma_reads_back(lex(s)->Ok_0);
}

/// Writing tokens out and reading them changes nothing the second time: what
/// was read from what any tokens were written as is read again from what it
/// is written as.
pub proof fn lemma_lex_serialize_idempotent(tokens: Seq<TokenView>)
    requires
        lex(serialized(tokens)) is Ok,
    ensures
        lex(serialized(lex(serialized(tokens))->Ok_0)) == lex(serialized(tokens)),
{
    lemma_lex_serialize(serialized(tokens));
}

} // verus!
